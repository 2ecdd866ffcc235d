//! Cuts source trees into syntax-aligned, line-accurate chunks for semantic search.
pub mod dataset;
pub mod languages;
pub mod paths;
pub mod split;
pub mod text;
pub mod walker;
