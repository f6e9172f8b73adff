//! Live progress tree for the conversion of nested blueprint books.
//!
//! The tree is an arena of nodes addressed by stable integer handles. A
//! branch owns its children through their handles, kept in insertion order;
//! the parent link of a node is a back-reference only. Line accounting and
//! rendering are read-only queries over the arena, and a lock-protected
//! wrapper lets many workers share one tree.
//!
//! Around the tree: the blueprint-string codec, file naming, the kind of a
//! blueprint, and the settings of import and export runs.

pub mod status;
pub mod node;
pub mod model;
pub mod tree;
pub mod lines;
pub mod render;
pub mod laws;
pub mod branch;
pub mod shared;
pub mod codec;
pub mod naming;
pub mod blueprint;
pub mod indicator;
pub mod args;
pub mod import;
pub mod export;
