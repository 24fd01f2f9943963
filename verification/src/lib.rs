//! Materialises a foreign scene-node hierarchy as an owned tree.
//!
//! The foreign side is a set of fixed-layout records that point at each
//! other by address; [`foreign`] holds that picture as plain data. [`node`]
//! walks it from the root and builds a tree that owns its children and knows
//! each node's parent only by a handle, so that nothing refers back into
//! foreign memory. [`outline`] says which tree the walk finds, or why it
//! finds none, and [`laws`] states what holds of every tree that it builds.

pub mod error;
pub mod foreign;
pub mod laws;
mod lineage;
pub mod node;
pub mod outline;
