//! The composition frequency analyzer: queries over a collected dataset.

pub mod composition;
pub mod frequency;
pub mod maps;
