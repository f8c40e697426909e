//! A personal store of shell command snippets with descriptions: keyword
//! search, numbered selection, the JSON file format and the line format used
//! for bulk editing.

pub mod text;
pub mod error;
pub mod store;
pub mod search;
pub mod select;
pub mod codec;
