//! Bundles a Python entry file and its local imports into a single script.
use vstd::prelude::*;

pub mod text;
pub mod order;
pub mod names;
pub mod encoding;
pub mod declaration;
pub mod model;
pub mod tokens;
pub mod layout;
pub mod codegen;
pub mod licenses;
pub mod analyzer;
pub mod sys_paths;
pub mod resolver;
pub mod graph;
pub mod bundle;
pub mod module_graph;
pub mod output;
pub mod tree_shaking;
pub mod unused_imports;

verus! {
} // verus!
