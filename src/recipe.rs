//! A whole recipe: optional frontmatter, a title, then the ingredients and the
//! instructions sections, in that order.
use vstd::prelude::*;
use crate::ingredients::{Ingredients, section_of, section_ok};
use crate::instructions::{Instructions, instructions_of, instructions_ok};
use crate::md_parser::{ASTConsumer, MDError, MDResult, Node, get_heading, next_heading, spec_heading_text};
use crate::amount::Amount;
use crate::metadata::{Metadata, fold_entries, frontmatter_entries, keys_unique, meta_matches, metadata_ok};
use crate::unit::{Nominal, Unit};

verus! {

/// A parsed recipe.
#[derive(Debug, PartialEq)]
pub struct Recipe {
    pub name: String,
    pub metadata: Metadata,
    pub ingredients: Ingredients,
    pub instructions: Instructions,
}

/// Where the title is: after the frontmatter when there is one.
pub open spec fn title_index(nodes: Seq<Node>) -> int {
    if nodes.len() > 0 && nodes[0] is Yaml {
        1
    } else {
        0
    }
}

/// Where the ingredients section ends: at the next depth-2 heading.
pub open spec fn ingredients_end(nodes: Seq<Node>) -> int {
    next_heading(nodes, title_index(nodes) + 2, 2)
}

pub open spec fn ingredients_word() -> Seq<char> {
    seq!['I', 'n', 'g', 'r', 'e', 'd', 'i', 'e', 'n', 't', 's']
}

pub open spec fn instructions_word() -> Seq<char> {
    seq!['I', 'n', 's', 't', 'r', 'u', 'c', 't', 'i', 'o', 'n', 's']
}

/// The document is valid up to the "Instructions" heading: optional valid
/// frontmatter, a depth-1 title, a depth-2 "Ingredients" heading, a valid
/// section up to the next depth-2 heading, and that heading is "Instructions".
pub open spec fn prefix_ok(nodes: Seq<Node>) -> bool {
    let h = title_index(nodes);
    let e = ingredients_end(nodes);
    &&& nodes.len() > 0
    &&& nodes[0] is Yaml || nodes[0] is Heading
    &&& (nodes[0] matches Node::Yaml { frontmatter, .. } ==> metadata_ok(frontmatter))
    &&& h + 1 < nodes.len()
    &&& spec_heading_text(nodes[h], 1) is Some
    &&& spec_heading_text(nodes[h + 1], 2) == Some(ingredients_word())
    &&& section_ok(nodes.subrange(h + 2, e))
    &&& e < nodes.len()
    &&& spec_heading_text(nodes[e], 2) == Some(instructions_word())
}

/// Where the instructions section ends: at the next depth-2 heading.
pub open spec fn instructions_end(nodes: Seq<Node>) -> int {
    next_heading(nodes, ingredients_end(nodes) + 1, 2)
}

/// The document is a valid recipe: a valid prefix, then a valid instructions
/// section to the end, with no further depth-2 heading.
pub open spec fn recipe_ok(nodes: Seq<Node>) -> bool {
    &&& prefix_ok(nodes)
    &&& instructions_end(nodes) == nodes.len()
    &&& instructions_ok(nodes.subrange(ingredients_end(nodes) + 1, nodes.len() as int))
}

/// `r` is what the valid recipe `nodes` reads as. With frontmatter, the metadata
/// is what the frontmatter says; without, it is the neutral metadata.
pub open spec fn recipe_of(r: Recipe, nodes: Seq<Node>) -> bool {
    let h = title_index(nodes);
    let e = ingredients_end(nodes);
    &&& r.name@ == spec_heading_text(nodes[h], 1)->Some_0
    &&& section_of(r.ingredients, nodes.subrange(h + 2, e))
    &&& instructions_of(r.instructions, nodes.subrange(e + 1, nodes.len() as int))
    &&& match nodes[0] {
        Node::Yaml { frontmatter, .. } => {
            &&& meta_matches(r.metadata, fold_entries(frontmatter_entries(frontmatter)))
            &&& keys_unique(r.metadata.sizes@)
            &&& keys_unique(r.metadata.others@)
        },
        _ => {
            &&& r.metadata.tags@.len() == 0
            &&& r.metadata.quantity.unit == Unit::Nominal(Nominal)
            &&& r.metadata.quantity.amount == (Amount { numer: 1, denom: 1 })
            &&& r.metadata.sizes@.len() == 0
            &&& r.metadata.others@.len() == 0
        },
    }
}

/// The frontmatter, when there is one, is valid, and the node where the title
/// belongs exists.
pub open spec fn title_reached(nodes: Seq<Node>) -> bool {
    &&& nodes.len() > title_index(nodes)
    &&& (nodes[0] matches Node::Yaml { frontmatter, .. } ==> metadata_ok(frontmatter))
}

impl Recipe {
    /// Reads a recipe from the top-level nodes of its document.
    #[verifier::rlimit(100)]
    pub fn from_nodes(nodes: &[Node]) -> (r: MDResult<Recipe>)
        ensures
            r is Ok <==> recipe_ok(nodes@),
            r matches Ok(rec) ==> recipe_of(rec, nodes@),
            title_reached(nodes@) && spec_heading_text(nodes@[title_index(nodes@)], 1) is None ==> (r matches Err(
                err,
            ) && err.place == nodes@[title_index(nodes@)].spec_position()),
            title_reached(nodes@) && nodes@.len() > title_index(nodes@) + 1 && spec_heading_text(
                nodes@[title_index(nodes@)],
                1,
            ) is Some && spec_heading_text(nodes@[title_index(nodes@) + 1], 2) is None ==> (r matches Err(
                err,
            ) && err.place == nodes@[title_index(nodes@) + 1].spec_position()),
            title_reached(nodes@) && nodes@.len() > title_index(nodes@) + 1 && spec_heading_text(
                nodes@[title_index(nodes@)],
                1,
            ) is Some && (spec_heading_text(nodes@[title_index(nodes@) + 1], 2) matches Some(t) && t
                != ingredients_word()) ==> (r matches Err(err) && err.place == nodes@[title_index(nodes@)
                + 1].spec_children().unwrap()[0].spec_position()),
            prefix_ok(nodes@) && instructions_end(nodes@) < nodes@.len() && instructions_ok(
                nodes@.subrange(ingredients_end(nodes@) + 1, instructions_end(nodes@)),
            ) ==> (r matches Err(err) && err.place == nodes@[instructions_end(nodes@)].spec_position()),
    {
        let mut cons = ASTConsumer::new(nodes);
        let first = cons.next()?;
        let (metadata, name) = match first {
            Node::Yaml { frontmatter, .. } => {
                let metadata = Metadata::parse(frontmatter)?;
                let name = get_heading(cons.next()?, 1, None)?;
                (metadata, name)
            },
            Node::Heading { .. } => (Metadata::empty(), get_heading(first, 1, None)?),
            _ => return Err(MDError::new("expected YAML frontmatter or heading", Some(first))),
        };
        let ingredients_title = String::from_str("Ingredients");
        let instructions_title = String::from_str("Instructions");
        proof {
            reveal_strlit("Ingredients");
            reveal_strlit("Instructions");
            assert(ingredients_title@ =~= ingredients_word());
            assert(instructions_title@ =~= instructions_word());
        }
        get_heading(cons.next()?, 2, Some(ingredients_title.as_str()))?;
        let ingredients = Ingredients::parse(cons.consume_to_next_heading(2))?;
        get_heading(cons.next()?, 2, Some(instructions_title.as_str()))?;
        let instructions = Instructions::parse(cons.consume_to_next_heading(2))?;
        if let Ok(extra) = cons.next() {
            return Err(MDError::new("unexpected heading after the instructions", Some(extra)));
        }
        Ok(Recipe { name, metadata, ingredients, instructions })
    }
}

} // verus!
