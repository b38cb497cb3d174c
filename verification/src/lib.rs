//! Data model and reporting logic of a scanner that counts `unsafe` usage
//! in a crate and its dependencies.

pub mod counts;
pub mod debug_text;
pub mod entry_map;
pub mod id_order;
pub mod key_set;
pub mod ordering;
pub mod package_id;
pub mod paths;
pub mod pattern;
pub mod report;
pub mod sorting;
pub mod source_repr;
pub mod text;
pub mod url_parts;

