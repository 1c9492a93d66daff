//! The graph of equivalence classes, as far as rule application needs it.

use vstd::prelude::*;

verus! {

/// Names an equivalence class of the graph.
pub type Id = u32;

/// A graph of equivalence classes that rules can be applied to.
///
/// The rule layer never looks inside the graph.  It only asks for unions, and
/// hands the graph on to patterns and appliers.  The graph's mathematical
/// model `V` is therefore left to the implementation; what the rule layer
/// relies on is that a union is a total function of the graph and the two
/// ids, which `spec_union` names.  The default bodies of `view` and
/// `spec_union` say nothing about their values: an implementation that is to
/// be verified gives its own.
pub trait EGraph {
    /// The mathematical model of a graph.
    type V;

    /// The model of this graph.
    open spec fn view(&self) -> Self::V {
        arbitrary()
    }

    /// The graph that results from merging the classes of `a` and `b` in `g`,
    /// and the id that leads the merged class.
    open spec fn spec_union(g: Self::V, a: Id, b: Id) -> (Self::V, Id) {
        arbitrary()
    }

    /// Merges the classes of `a` and `b` and returns the leader of the merged
    /// class.
    fn union(&mut self, a: Id, b: Id) -> (leader: Id)
        ensures
            (final(self)@, leader) == Self::spec_union(old(self)@, a, b),
    ;
}

} // verus!
