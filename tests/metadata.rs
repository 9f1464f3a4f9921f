use recipe_md::amount::Amount;
use recipe_md::md_parser::{Frontmatter, MDError};
use recipe_md::metadata::{lookup, Metadata, SizeInfo, UnitMod};
use recipe_md::unit::{Distance, Nominal, Quantity, QuantityOf, Unit};
use recipe_md::yaml::{YamlEntry, YamlValue};
use saphyr::LoadableYamlNode;

fn yaml_value(y: &saphyr::Yaml) -> YamlValue {
    if let Some(s) = y.as_str() {
        YamlValue::Str(s.to_string())
    } else if let Some(items) = y.as_sequence() {
        YamlValue::Sequence(items.iter().map(yaml_value).collect())
    } else if let Some(map) = y.as_mapping() {
        YamlValue::Mapping(
            map.iter().map(|(k, v)| YamlEntry { key: yaml_value(k), value: yaml_value(v) }).collect(),
        )
    } else {
        YamlValue::Other
    }
}

fn to_yaml(s: &str) -> YamlValue {
    let docs = saphyr::Yaml::load_from_str(s).unwrap();
    yaml_value(&docs[0])
}

fn str_value(s: &str) -> YamlValue {
    YamlValue::Str(s.to_string())
}

fn entry(key: &str, value: YamlValue) -> YamlEntry {
    YamlEntry { key: str_value(key), value }
}

fn frontmatter(entries: Vec<YamlEntry>) -> Frontmatter {
    Frontmatter { value: String::new(), documents: Ok(vec![YamlValue::Mapping(entries)]) }
}

fn ten_cm(unit_mod: Option<UnitMod>) -> SizeInfo {
    SizeInfo {
        quantity: QuantityOf { unit: Distance::Centimeter, amount: Amount { numer: 10, denom: 1 } },
        unit_mod,
    }
}

#[test]
fn parse_tags() {
    // Basic case.
    let mut tags: Vec<String> = vec![];
    Metadata::parse_tags(&to_yaml("- \"#tag1\"\n- \"#tag2\"\n- \"#tag3\""), &mut tags).unwrap();
    assert_eq!(tags, vec!["tag1", "tag2", "tag3"]);

    // There is no de-duplication.
    tags.clear();
    Metadata::parse_tags(&to_yaml("- \"#tag\"\n- \"#tag\""), &mut tags).unwrap();
    assert_eq!(tags, vec!["tag", "tag"]);

    // Special characters and random spaces.
    tags.clear();
    Metadata::parse_tags(&to_yaml("-   \"#t/a/g\"  \n- \"#t-a_g\" "), &mut tags).unwrap();
    assert_eq!(tags, vec!["t/a/g", "t-a_g"]);
}

#[test]
fn parse_tags_failure() {
    // Missing #.
    assert!(Metadata::get_tag("- \"tag\"").is_err());
    // Double #.
    assert!(Metadata::get_tag("- \"##tag\"").is_err());
    // Invalid character.
    assert!(Metadata::get_tag("- \"#tag.1\"").is_err());
}

#[test]
fn parse_size() {
    let mut sizes: Vec<(String, SizeInfo)> = Vec::new();

    // Basic case.
    Metadata::parse_size("pan", &to_yaml("10cm"), &mut sizes).unwrap();
    assert_eq!(*lookup(&sizes, "pan").unwrap(), ten_cm(None));

    // With radial distance modifier.
    sizes.clear();
    Metadata::parse_size("pan", &to_yaml("10cm°"), &mut sizes).unwrap();
    assert_eq!(*lookup(&sizes, "pan").unwrap(), ten_cm(Some(UnitMod::RadialDistance)));

    // Spaces around modifier do not matter.
    sizes.clear();
    Metadata::parse_size("pan", &to_yaml("10cm  °   "), &mut sizes).unwrap();
    assert_eq!(*lookup(&sizes, "pan").unwrap(), ten_cm(Some(UnitMod::RadialDistance)));
}

#[test]
fn parse_size_failures() {
    // Only distance-typed units are supported.
    assert!(Metadata::parse_size("pan", &to_yaml("10mL°"), &mut Vec::new()).is_err());
}

#[test]
fn parse_others() {
    let mut others: Vec<(String, String)> = Vec::new();

    // Basic case.
    Metadata::parse_others("key", &to_yaml("value"), &mut others).unwrap();
    assert_eq!(*lookup(&others, "key").unwrap(), "value");
}

#[test]
fn parse_others_failures() {
    // The value must be a string.
    assert!(Metadata::parse_others("key", &to_yaml("- value1\n- value2"), &mut Vec::new()).is_err());
}

#[test]
fn tags_with_space_or_without_hash_are_rejected() {
    assert!(Metadata::get_tag("tag").is_err());
    assert!(Metadata::get_tag("#two words").is_err());
    assert!(Metadata::get_tag("").is_err());
    assert_eq!(Metadata::get_tag("#t/a-g_1").unwrap(), "t/a-g_1");
    assert_eq!(Metadata::get_tag("#").unwrap(), "");
    let mut tags = vec!["kept".to_string()];
    assert!(Metadata::parse_tags(&str_value("#tag"), &mut tags).is_err());
    assert!(Metadata::parse_tags(&YamlValue::Sequence(vec![YamlValue::Other]), &mut tags).is_err());
}

#[test]
fn duplicate_unknown_key_is_rejected() {
    let mut others: Vec<(String, String)> = Vec::new();
    Metadata::parse_others("key", &str_value("a"), &mut others).unwrap();
    assert!(Metadata::parse_others("key", &str_value("b"), &mut others).is_err());
    assert_eq!(others, vec![("key".to_string(), "a".to_string())]);

    let fm = frontmatter(vec![entry("key", str_value("a")), entry("key", str_value("b"))]);
    assert!(Metadata::parse(&fm).is_err());
}

#[test]
fn size_redeclared_keeps_the_last() {
    let fm = frontmatter(vec![
        entry("size | pan", str_value("10cm")),
        entry("size | pan", str_value("20 mm °")),
    ]);
    let meta = Metadata::parse(&fm).unwrap();
    assert_eq!(meta.sizes.len(), 1);
    let expected = SizeInfo {
        quantity: QuantityOf { unit: Distance::Millimeter, amount: Amount { numer: 20, denom: 1 } },
        unit_mod: Some(UnitMod::RadialDistance),
    };
    assert_eq!(*lookup(&meta.sizes, "pan").unwrap(), expected);
    assert!(Metadata::parse_size("", &str_value("10cm"), &mut Vec::new()).is_err());
    assert!(Metadata::parse(&frontmatter(vec![entry("size | ", str_value("10cm"))])).is_err());
}

#[test]
fn metadata_structure_errors() {
    let not_loaded = Frontmatter {
        value: "a: [".to_string(),
        documents: Err(MDError { msg: "bad yaml".to_string(), place: None }),
    };
    assert_eq!(Metadata::parse(&not_loaded).unwrap_err().msg, "bad yaml");
    let two_docs = Frontmatter { value: String::new(), documents: Ok(vec![YamlValue::Other, YamlValue::Other]) };
    assert!(Metadata::parse(&two_docs).is_err());
    let not_mapping = Frontmatter { value: String::new(), documents: Ok(vec![str_value("x")]) };
    assert!(Metadata::parse(&not_mapping).is_err());
    let bad_key = frontmatter(vec![YamlEntry { key: YamlValue::Other, value: str_value("x") }]);
    assert!(Metadata::parse(&bad_key).is_err());
    assert!(Metadata::parse(&frontmatter(vec![entry("quantity", YamlValue::Other)])).is_err());
    assert!(Metadata::parse(&frontmatter(vec![entry("quantity", str_value("x5"))])).is_err());
}

#[test]
fn metadata_defaults_and_yield() {
    let meta = Metadata::parse(&frontmatter(vec![])).unwrap();
    assert_eq!(meta, Metadata::empty());
    assert_eq!(meta.quantity, Quantity { unit: Unit::Nominal(Nominal), amount: Amount { numer: 1, denom: 1 } });
    let meta = Metadata::parse(&frontmatter(vec![entry("quantity", str_value("4 pieces"))])).unwrap();
    assert_eq!(
        meta.quantity,
        Quantity { unit: Unit::Custom("pieces".to_string()), amount: Amount { numer: 4, denom: 1 } }
    );
}

#[test]
fn size_white_space_around_degree_sign() {
    let radial = ten_cm(Some(UnitMod::RadialDistance));
    assert_eq!(SizeInfo::from_str("10cm°").unwrap(), radial);
    assert_eq!(SizeInfo::from_str(" \t10cm\t° \n").unwrap(), radial);
    assert_eq!(SizeInfo::from_str("10 cm  °").unwrap(), radial);
    assert_eq!(SizeInfo::from_str("10cm").unwrap(), ten_cm(None));
    assert!(SizeInfo::from_str("10 ml °").is_err());
    assert!(SizeInfo::from_str("°").is_err());
}
