//! The page parser: from the text of a fetched page to links and matches.

pub mod document;
pub mod error;
pub mod fragment;
pub mod tab;
