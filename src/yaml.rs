//! The loaded form of a YAML frontmatter document, as far as metadata reads it.
use vstd::prelude::*;

verus! {

/// A YAML node: a string scalar, a sequence, a mapping (its pairs in document
/// order), or any other scalar (numbers, booleans, null).
#[derive(Debug, PartialEq)]
pub enum YamlValue {
    Str(String),
    Sequence(Vec<YamlValue>),
    Mapping(Vec<YamlEntry>),
    Other,
}

/// One key and its value in a mapping.
#[derive(Debug, PartialEq)]
pub struct YamlEntry {
    pub key: YamlValue,
    pub value: YamlValue,
}

} // verus!
