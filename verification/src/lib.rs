//! The Hirð front end's checking logic that stands apart from type
//! inference: a concrete syntax tree and its typed AST view; the checker's
//! declaration bookkeeping (namespaces, the type registry, the scoped value
//! environment, actor and supervisor shapes, match exhaustiveness); the
//! module graph and import resolution; the canonical tool-invocation wire
//! format with its type-directed decoder; strict-sequential replay over
//! decoded logs; and the benchmark harness's pure helpers.
use vstd::prelude::*;

pub mod actors;
pub mod ast;
pub mod bench;
pub mod bodies;
pub mod checker;
pub mod diag;
pub mod env;
pub mod exhaustive;
pub mod graph;
pub mod headers;
pub mod names;
pub mod namespaces;
pub mod program;
pub mod registry;
pub mod replay;
pub mod select;
pub mod supervisors;
pub mod syntax;
pub mod wire;

verus! {

} // verus!
