//! Directory listing core: ignore patterns, version-control status overlay,
//! ordering of entries, tree reconstruction and output shielding.

pub mod text;
pub mod status;
pub mod entry;
pub mod sort;
pub mod pattern;
pub mod tree;
pub mod shield;
pub mod flags;
pub mod meta;
pub mod project;
pub mod escape;
