//! Compiles declarative grammar rules into a graph of resolved item nodes.
//!
//! A grammar is written with composable rule combinators (sequence, choice,
//! terminal) and may refer to rules by name, including recursively.  Building
//! turns a root rule into a graph of `Item` nodes held in a forward-reference
//! arena, resolving each named rule at most once and representing cycles with
//! stable handles rather than unrolling them.

pub mod arena;
pub mod builder;
pub mod grammar;
pub mod laws;
pub mod model;
pub mod refs;
pub mod rule;
