//! The right-hand side of a rule: an action that yields classes to merge.

use vstd::prelude::*;
use std::rc::Rc;
use crate::graph::{EGraph, Id};
use crate::pattern::{Bindings, Pattern, WildMap};

verus! {

/// An action that, for one match, produces the ids of classes that the
/// matched class is equal to.
///
/// An applier may add terms to the graph.  It is total, and what it does is a
/// function of the graph and the bindings alone, which `spec_apply` names.
/// The default body of `spec_apply` says nothing about its value: an
/// implementation that is to be verified gives its own.
pub trait Applier<G: EGraph> {
    /// The graph after this applier has run on `g` under `mapping`, and the
    /// ids it produced, in order.
    open spec fn spec_apply(&self, g: G::V, mapping: Bindings) -> (G::V, Seq<Id>) {
        arbitrary()
    }

    /// Runs the applier for one match.
    fn apply(&self, egraph: &mut G, mapping: &WildMap) -> (applied: Vec<Id>)
        ensures
            (final(egraph)@, applied@) == self.spec_apply(old(egraph)@, mapping@),
    ;
}

/// An applier as a rule holds it: shared, and of any type.
pub type SharedApplier<G> = Rc<Box<dyn Applier<G>>>;

/// What a pattern does as an applier: it is instantiated, and the id of the
/// instance is the one result.
pub open spec fn instance<G: EGraph, P: Pattern<G>>(pattern: P::V, g: G::V, mapping: Bindings) -> (
    G::V,
    Seq<Id>,
) {
    let (after, id) = P::spec_subst_and_find(pattern, g, mapping);
    (after, seq![id])
}

/// A pattern is an applier: it instantiates itself under the bindings and
/// produces the one id of its instance.
impl<G: EGraph, P: Pattern<G>> Applier<G> for P {
    open spec fn spec_apply(&self, g: G::V, mapping: Bindings) -> (G::V, Seq<Id>) {
        instance::<G, P>(self@, g, mapping)
    }

    fn apply(&self, egraph: &mut G, mapping: &WildMap) -> (applied: Vec<Id>) {
        let id = self.subst_and_find(egraph, mapping);
        let mut applied = Vec::new();
        applied.push(id);
        applied
    }
}

} // verus!
