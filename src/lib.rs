//! Typed model of plain-text recipes: a small markdown dialect with a title, an
//! ingredient section, an instruction tree and optional YAML frontmatter.
pub mod amount;
pub mod ingredients;
pub mod instructions;
pub mod md_parser;
pub mod metadata;
pub mod recipe;
pub mod text;
pub mod unit;
pub mod yaml;
