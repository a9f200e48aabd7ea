//! Locating personal documents by their names and front-matter metadata.
pub mod cfg;
pub mod doc;
pub mod meta;
pub mod pattern;
pub mod preamble;
pub mod query;
pub mod render;
pub mod text;
