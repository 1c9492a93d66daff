//! Rule application for equality saturation.
//!
//! A [`Rewrite`] pairs left-hand patterns with appliers and side conditions.
//! Searching a graph of equivalence classes yields matches; applying them
//! unions every applier result with the class it was matched in.  The graph
//! and the pattern matcher are collaborators, described by the traits
//! [`EGraph`] and [`Pattern`]; everything the rule layer decides is stated
//! over their models and proved.  [`Partition`] and [`ClassRef`] are the
//! smallest such collaborators.

pub mod applier;
pub mod condition;
pub mod graph;
pub mod laws;
pub mod partition;
pub mod pattern;
pub mod rewrite;
pub mod semantics;
pub mod walks;

pub use applier::Applier;
pub use condition::Condition;
pub use graph::{EGraph, Id};
pub use partition::{ClassRef, Partition};
pub use pattern::{ParseError, Pattern, SearchMatches, WildMap};
pub use rewrite::{rw, InvalidRewrite, Rewrite, RewriteBuilder, DEFAULT_APPLICATION_LIMIT};
