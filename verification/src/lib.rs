//! Semantic core of a small symbolic language in which every expression is a
//! *concept*: an addressable node in a graph that may be atomic, a composition
//! of two other concepts, and/or subject to a rewrite towards another concept.
//!
//! The crate provides the concept data model, a copy-on-write delta overlay
//! over an immutable snapshot of the graph, syntax trees for surface
//! expressions, the term-rewriting engine that searches for normal forms, a
//! comparator derived from the rewriting relation, and the safe-deletion logic
//! that keeps the graph free of dangling fragments.

pub mod ast;
pub mod concepts;
pub mod context_search;
pub mod deltas;
pub mod laws;
pub mod reading;
pub mod removing;
pub mod snapshot;
