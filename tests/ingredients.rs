use recipe_md::amount::Amount;
use recipe_md::ingredients::{Ingredient, IngredientOptions};
use recipe_md::unit::{Nominal, Quantity, Unit, Volume};

const NAME: &str = "name";

fn quantity(unit: Unit, numer: i128) -> Quantity {
    Quantity { unit, amount: Amount { numer, denom: 1 } }
}

fn one_nominal() -> Quantity {
    quantity(Unit::Nominal(Nominal), 1)
}

fn fifteen_ml() -> Quantity {
    quantity(Unit::Volume(Volume::Milliliter), 15)
}

fn three_tsp() -> Quantity {
    quantity(Unit::Volume(Volume::Teaspoon), 3)
}

fn one_tbsp() -> Quantity {
    quantity(Unit::Volume(Volume::Tablespoon), 1)
}

fn simple_ingredient(quantity: Option<Quantity>, info: Option<&str>) -> Ingredient {
    Ingredient {
        name: NAME.to_string(),
        quantity,
        alt_quantities: None,
        info: info.map(|s| s.to_string()),
    }
}

#[test]
fn ingredients_parse_ingredient() {
    // Parsing should ignore spaces around key elements.
    let ingr = simple_ingredient(Some(fifteen_ml()), None);
    assert_eq!(Ingredient::from_str("name, 15mL").unwrap(), ingr);
    assert_eq!(Ingredient::from_str("name, 15 mL").unwrap(), ingr);
    assert_eq!(Ingredient::from_str("   name   ,  15mL  ").unwrap(), ingr);

    // "Special units": none, nominal, and custom.
    let one_custom = quantity(Unit::Custom("bunch".to_string()), 1);
    assert_eq!(Ingredient::from_str("name").unwrap(), simple_ingredient(None, None));
    assert_eq!(Ingredient::from_str("name, 1").unwrap(), simple_ingredient(Some(one_nominal()), None));
    assert_eq!(Ingredient::from_str("name, 1 bunch").unwrap(), simple_ingredient(Some(one_custom), None));
    // Additional information should still be specifiable when there is no unit.
    assert_eq!(Ingredient::from_str("name (info)").unwrap(), simple_ingredient(None, Some("info")));

    // Additional info (parsing should ignore spaces around and inside parentheses).
    let with_info = || simple_ingredient(Some(one_tbsp()), Some("optional, spicy"));
    assert_eq!(Ingredient::from_str("name, 1 tbsp (optional, spicy)").unwrap(), with_info());
    assert_eq!(Ingredient::from_str("name, 1 tbsp(optional, spicy)").unwrap(), with_info());
    assert_eq!(Ingredient::from_str("name, 1 tbsp    (optional, spicy)   ").unwrap(), with_info());
    assert_eq!(Ingredient::from_str("name, 1 tbsp (  optional, spicy )   ").unwrap(), with_info());

    // Alternative quantities (parsing should ignore spaces around slashes).
    let with_alts = || Ingredient {
        name: NAME.to_string(),
        quantity: Some(fifteen_ml()),
        alt_quantities: Some(vec![three_tsp(), one_tbsp()]),
        info: None,
    };
    assert_eq!(Ingredient::from_str("name, 15mL / 3 tsp / 1tbsp").unwrap(), with_alts());
    assert_eq!(Ingredient::from_str("name, 15mL  /  3 tsp/1tbsp").unwrap(), with_alts());
}

#[test]
fn parse_quantity_failure() {
    // Invalid names is not allowed.
    assert!(Ingredient::from_str("").is_err());
    assert!(Ingredient::from_str("  , 15mL").is_err());
    assert!(Ingredient::from_str("na|me, 15mL").is_err());

    // Invalid quantity (and alternatives).
    assert!(Ingredient::from_str("name, a15mL").is_err());
    assert!(Ingredient::from_str("name, 15mL, 15mL").is_err());
    assert!(Ingredient::from_str("name, 15mL / ").is_err());
    assert!(Ingredient::from_str("name, 15mL//3tsp").is_err());

    // Invalid additional information.
    assert!(Ingredient::from_str("name, 15mL (info").is_err());
    assert!(Ingredient::from_str("name, 15mL info)").is_err());
    assert!(Ingredient::from_str("name, 15mL ((info))").is_err());
}

#[test]
fn parse_ingredient_options() {
    let ingr = || simple_ingredient(Some(fifteen_ml()), Some("info"));
    let alts = vec![simple_ingredient(None, Some("info")), simple_ingredient(Some(one_nominal()), None)];

    // No alternatives.
    assert_eq!(
        IngredientOptions::from_str("name, 15ml (info)").unwrap(),
        IngredientOptions { ingredient: ingr(), alternatives: None }
    );

    // With alternatives (parsing should ignore spaces around bars).
    assert_eq!(
        IngredientOptions::from_str("name, 15ml (info)|name (info)    |   name, 1").unwrap(),
        IngredientOptions { ingredient: ingr(), alternatives: Some(alts) }
    );
}

#[test]
fn parse_ingredient_options_failures() {
    // Invalid single ingredient.
    assert!(IngredientOptions::from_str(", 15ml (info)").is_err());
    // Invalid ingredient with alternatives.
    assert!(IngredientOptions::from_str("name, 15ml (info) | , 15ml (info)").is_err());
    // Missing last alternative.
    assert!(IngredientOptions::from_str("name, 15ml (info) | ").is_err());
}

#[test]
fn ingredient_grammar_examples() {
    assert_eq!(
        Ingredient::from_str("Lemons, 1").unwrap(),
        Ingredient { name: "Lemons".to_string(), quantity: Some(one_nominal()), alt_quantities: None, info: None }
    );
    let milk = || Ingredient {
        name: "Milk".to_string(),
        quantity: Some(quantity(Unit::Volume(Volume::Milliliter), 50)),
        alt_quantities: None,
        info: None,
    };
    assert_eq!(Ingredient::from_str("Milk, 50 mL").unwrap(), milk());
    assert_eq!(Ingredient::from_str("   Milk   ,  50mL  ").unwrap(), milk());
    let paprika = Ingredient::from_str("Paprika powder, 1 tbsp (optional, spicy)").unwrap();
    assert_eq!(paprika.name, "Paprika powder");
    assert_eq!(paprika.quantity, Some(one_tbsp()));
    assert_eq!(paprika.info, Some("optional, spicy".to_string()));
}

#[test]
fn ingredient_grammar_rejections() {
    assert!(Ingredient::from_str(", 15mL").is_err());
    assert!(Ingredient::from_str("na|me").is_err());
    assert!(Ingredient::from_str("na/me, 1").is_err());
    assert!(Ingredient::from_str("name, 1 (in|fo)").is_err());
    assert!(Ingredient::from_str(")").is_err());
    assert!(Ingredient::from_str("name, 1.5.1 g").is_err());
    // Empty info is accepted.
    assert_eq!(Ingredient::from_str("name ()").unwrap(), simple_ingredient(None, Some("")));
    // A trailing empty alternative fails even without spaces.
    assert!(IngredientOptions::from_str("name|").is_err());
    let err = Ingredient::from_str("name, 15mL (info").unwrap_err();
    assert_eq!(err.place, None);
}
