//! A verified module-dependency analyzer for a tree of Rust source files.
//!
//! The library locates a conventional source root, indexes the source files
//! under it, extracts top-level import and module declarations from each file,
//! resolves declaration paths to concrete file ids, propagates dependencies
//! through directory-index (`mod.rs`) files, and assembles the resulting
//! file-level dependency graph.

pub mod analyze;
pub mod chars;
pub mod config;
pub mod decl;
pub mod extract;
pub mod graph;
pub mod inter;
pub mod laws;
pub mod lines;
pub mod parse;
pub mod paths;
pub mod propagate;
pub mod resolve;

use vstd::prelude::*;

verus! {

/// True of a file id that names a directory-index file: the file called
/// `mod.rs`, either at the root of the tree or below some directory.
pub open spec fn spec_is_mod_file(id: Seq<char>) -> bool {
    let suffix = "mod.rs"@;
    &&& id.len() >= suffix.len()
    &&& id.subrange(id.len() - suffix.len(), id.len() as int) == suffix
    &&& (id.len() == suffix.len() || id[id.len() - suffix.len() - 1] == '/')
}

} // verus!
