use markdown::mdast;
use recipe_md::amount::Amount;
use recipe_md::ingredients::Ingredients;
use recipe_md::instructions::{Instructions, TextElem};
use recipe_md::md_parser::{Frontmatter, MDError, Node, Point, Position};
use recipe_md::metadata::{lookup, SizeInfo};
use recipe_md::recipe::Recipe;
use recipe_md::unit::{Distance, Quantity, QuantityOf, Time, Unit, Volume};
use recipe_md::yaml::{YamlEntry, YamlValue};
use saphyr::LoadableYamlNode;

fn yaml_value(y: &saphyr::Yaml) -> YamlValue {
    if let Some(s) = y.as_str() {
        YamlValue::Str(s.to_string())
    } else if let Some(items) = y.as_sequence() {
        YamlValue::Sequence(items.iter().map(yaml_value).collect())
    } else if let Some(map) = y.as_mapping() {
        YamlValue::Mapping(
            map.iter().map(|(k, v)| YamlEntry { key: yaml_value(k), value: yaml_value(v) }).collect(),
        )
    } else {
        YamlValue::Other
    }
}

fn frontmatter(text: &str) -> Frontmatter {
    let documents = match saphyr::Yaml::load_from_str(text) {
        Ok(docs) => Ok(docs.iter().map(yaml_value).collect()),
        Err(e) => Err(MDError { msg: e.info().to_string(), place: None }),
    };
    Frontmatter { value: text.to_string(), documents }
}

fn point(p: &markdown::unist::Point) -> Point {
    Point { line: p.line, column: p.column, offset: p.offset }
}

fn convert(n: &mdast::Node) -> Node {
    let position = n.position().map(|p| Position { start: point(&p.start), end: point(&p.end) });
    let children = || n.children().map(|c| c.iter().map(convert).collect::<Vec<Node>>()).unwrap_or_default();
    match n {
        mdast::Node::Heading(h) => Node::Heading { depth: h.depth, children: children(), position },
        mdast::Node::List(_) => Node::List { children: children(), position },
        mdast::Node::ListItem(_) => Node::ListItem { children: children(), position },
        mdast::Node::Paragraph(_) => Node::Paragraph { children: children(), position },
        mdast::Node::Emphasis(_) => Node::Emphasis { children: children(), position },
        mdast::Node::Strong(_) => Node::Strong { children: children(), position },
        mdast::Node::Text(t) => Node::Text { value: t.value.clone(), position },
        mdast::Node::Yaml(y) => Node::Yaml { frontmatter: frontmatter(&y.value), position },
        _ => Node::Other { children: n.children().map(|c| c.iter().map(convert).collect()), position },
    }
}

fn blocks_with(content: &str, options: &markdown::ParseOptions) -> Vec<Node> {
    let root = markdown::to_mdast(content, options).unwrap();
    root.children().unwrap().iter().map(convert).collect()
}

fn blocks(content: &str) -> Vec<Node> {
    blocks_with(content, &markdown::ParseOptions::default())
}

fn recipe_options() -> markdown::ParseOptions {
    let mut options = markdown::ParseOptions::mdx();
    options.constructs.frontmatter = true;
    options
}

fn parse_recipe_text(content: &str) -> Result<Recipe, MDError> {
    Recipe::from_nodes(&blocks_with(content, &recipe_options()))
}

#[test]
fn parse_recipe() {
    let content = "# Test recipe\n## Ingredients\n\n- Lemons, 1\n- Milk, 50 mL\n- Paprika powder, 1 tbsp (optional, spicy)\n\n## Instructions\n";
    parse_recipe_text(content).unwrap();
}

#[test]
fn parse_ingredient_list() {
    let content = "- Lemons, 1\n- Milk, 50 mL\n- Paprika powder, 1 tbsp (optional)\n";
    Ingredients::parse(&blocks(content)).unwrap();
}

#[test]
fn parse_ingredient_groups() {
    let content = "### Group 1\n- Thing 1, 1\n- Thing 2, 1\n### Group 2\n- Thing 3, 1\n### Group 3\n- Thing 4, 1\n- Thing 5, 1\n- Thing 6, 1\n";
    Ingredients::parse(&blocks(content)).unwrap();
}

#[test]
fn instructions_parse_step() {
    let content = "- Top\n    - Nested with *emphasis* and **10 minutes**\n    - Nested at the same width\n        - Double-nested\n";
    Instructions::parse(&blocks(content)).unwrap();
}

#[test]
fn parse_metadata() {
    let content = "---\ntags:\n  - \"#tag1\"\n  - \"#tag2\"\nquantity: 150ml\nsize | pan: 10cm\nsize | whatever: 10cm\nrandom: something\n---\n";
    let nodes = blocks_with(content, &recipe_options());
    if let Node::Yaml { frontmatter, .. } = &nodes[0] {
        let meta = recipe_md::metadata::Metadata::parse(frontmatter).unwrap();
        assert_eq!(meta.tags, vec!["tag1", "tag2"]);
        assert_eq!(
            meta.quantity,
            Quantity { unit: Unit::Volume(Volume::Milliliter), amount: Amount { numer: 150, denom: 1 } }
        );
        let size = SizeInfo {
            quantity: QuantityOf { unit: Distance::Centimeter, amount: Amount { numer: 10, denom: 1 } },
            unit_mod: None,
        };
        assert_eq!(*lookup(&meta.sizes, "pan").unwrap(), size);
        assert_eq!(*lookup(&meta.sizes, "whatever").unwrap(), size);
        assert_eq!(*lookup(&meta.others, "random").unwrap(), "something");
    } else {
        panic!("should be YAML!");
    }
}

#[test]
fn nested_steps_follow_list_nesting() {
    let content = "- Top\n    - Nested with *emphasis* and **10 minutes**\n    - Nested at the same width\n        - Double-nested\n";
    let instructions = Instructions::parse(&blocks(content)).unwrap();
    assert_eq!(instructions.steps.len(), 1);
    let top = &instructions.steps[0];
    assert_eq!(top.description, vec![TextElem::Text("Top".to_string())]);
    assert_eq!(top.substeps.len(), 2);
    let first = &top.substeps[0];
    assert_eq!(
        first.description,
        vec![
            TextElem::Text("Nested with ".to_string()),
            TextElem::IngredientRef("emphasis".to_string()),
            TextElem::Text(" and ".to_string()),
            TextElem::Timer(QuantityOf { unit: Time::Minute, amount: Amount { numer: 10, denom: 1 } }),
        ]
    );
    assert!(first.substeps.is_empty());
    let second = &top.substeps[1];
    assert_eq!(second.substeps.len(), 1);
    assert_eq!(second.substeps[0].description, vec![TextElem::Text("Double-nested".to_string())]);
    assert!(second.substeps[0].substeps.is_empty());
}

#[test]
fn step_errors() {
    assert!(Instructions::parse(&blocks("- Bake for **10 apples**\n")).is_err());
    assert!(Instructions::parse(&blocks("- Use *a **b***\n")).is_err());
    assert!(Instructions::parse(&blocks("- One\n\nParagraph\n")).is_err());
    assert!(Instructions::parse(&blocks("- See `code`\n")).is_err());
    assert!(Instructions::parse(&blocks("Just text\n")).is_err());
    let empty = Instructions::parse(&[]).unwrap();
    assert!(empty.steps.is_empty());
}

#[test]
fn empty_sections_parse_to_empty_lists() {
    let recipe = parse_recipe_text("# Title\n## Ingredients\n## Instructions\n").unwrap();
    assert_eq!(recipe.name, "Title");
    assert_eq!(recipe.ingredients, Ingredients::IngredientList(vec![]));
    assert!(recipe.instructions.steps.is_empty());
}

#[test]
fn missing_or_misordered_sections_fail_at_the_node() {
    let missing = parse_recipe_text("# Title\n- Lemons, 1\n## Instructions\n").unwrap_err();
    let place = missing.place.expect("error names the node");
    assert_eq!(place.start.line, 2);

    let swapped = parse_recipe_text("# Title\n## Instructions\n## Ingredients\n").unwrap_err();
    let place = swapped.place.expect("error names the node");
    assert_eq!(place.start.line, 2);

    let wrong_depth = parse_recipe_text("# Title\n### Ingredients\n## Instructions\n").unwrap_err();
    assert_eq!(wrong_depth.place.unwrap().start.line, 2);

    let extra = parse_recipe_text("# Title\n## Ingredients\n## Instructions\n## Notes\n").unwrap_err();
    assert_eq!(extra.place.unwrap().start.line, 4);

    assert!(parse_recipe_text("").is_err());
    assert!(parse_recipe_text("Some text\n").is_err());
}

#[test]
fn recipe_with_frontmatter_and_groups() {
    let content = "---\ntags:\n  - \"#dinner\"\nquantity: 4\n---\n# Soup\n## Ingredients\n### Base\n- Water, 1 l\n### Spices\n- Salt, 1 tsp | Pepper\n## Instructions\n- Boil for **20 min**\n";
    let recipe = parse_recipe_text(content);
    // A yield that is not a string is refused.
    assert!(recipe.is_err());
    let content = content.replace("quantity: 4", "quantity: \"4\"");
    let recipe = parse_recipe_text(&content).unwrap();
    assert_eq!(recipe.name, "Soup");
    assert_eq!(recipe.metadata.tags, vec!["dinner"]);
    match &recipe.ingredients {
        Ingredients::IngredientGroups(groups) => {
            assert_eq!(groups.len(), 2);
            assert_eq!(groups[0].name, "Base");
            assert_eq!(groups[1].ingredients[0].alternatives.as_ref().unwrap()[0].name, "Pepper");
        }
        _ => panic!("expected groups"),
    }
    assert_eq!(recipe.instructions.steps.len(), 1);
}

#[test]
fn recipe_metadata_is_default_without_frontmatter() {
    let content = "# Test recipe\n## Ingredients\n\n- Lemons, 1\n- Milk, 50 mL\n- Paprika powder, 1 tbsp (optional, spicy)\n\n## Instructions\n";
    let recipe = parse_recipe_text(content).unwrap();
    assert_eq!(recipe.name, "Test recipe");
    assert_eq!(recipe.metadata, recipe_md::metadata::Metadata::default());
    match &recipe.ingredients {
        Ingredients::IngredientList(items) => assert_eq!(items.len(), 3),
        _ => panic!("expected a flat list"),
    }
}

#[test]
fn structural_errors_name_the_node() {
    let title = parse_recipe_text("## Ingredients\n# T\n## Instructions\n").unwrap_err();
    assert_eq!(title.place.unwrap().start.line, 1);
    let steps = Instructions::parse(&blocks("- a\n\nText\n")).unwrap_err();
    assert_eq!(steps.place.unwrap().start.line, 3);
}

#[test]
fn malformed_ingredient_groups() {
    assert!(Ingredients::parse(&blocks("### Group\n- A, 1\n### Dangling\n")).is_err());
    assert!(Ingredients::parse(&blocks("## Group\n- A, 1\n")).is_err());
    assert!(Ingredients::parse(&blocks("Text\n")).is_err());
    assert!(Ingredients::parse(&blocks("- A, 1\n\n  more\n")).is_err());
}
