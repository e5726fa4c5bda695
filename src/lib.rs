//! Flattening a source tree into one annotated text stream: path filtering,
//! language detection, test stripping, directory-tree rendering and the
//! deterministic assembly of per-file blocks.
pub mod text;
pub mod paths;
pub mod strip;
pub mod language;
pub mod filter;
pub mod format;
pub mod order;
pub mod select;
pub mod pipeline;
pub mod tree;
