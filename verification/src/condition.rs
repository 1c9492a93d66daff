//! Side conditions of a rule.

use vstd::prelude::*;
use crate::graph::EGraph;
use crate::pattern::{Bindings, Pattern, WildMap};

verus! {

/// A side condition: two patterns that must name the same class.
#[derive(Debug, PartialEq, Clone)]
pub struct Condition<P> {
    pub lhs: P,
    pub rhs: P,
}

/// The model of a [`Condition`]: the models of its two patterns.
pub struct ConditionView<V> {
    pub lhs: V,
    pub rhs: V,
}

/// The graph after both sides of `condition` have been instantiated in `g`
/// under `mapping`, left side first, and whether they landed in the same
/// class.
pub open spec fn spec_check<G: EGraph, P: Pattern<G>>(
    condition: ConditionView<P::V>,
    g: G::V,
    mapping: Bindings,
) -> (G::V, bool) {
    let (after_lhs, lhs_id) = P::spec_subst_and_find(condition.lhs, g, mapping);
    let (after_rhs, rhs_id) = P::spec_subst_and_find(condition.rhs, after_lhs, mapping);
    (after_rhs, lhs_id == rhs_id)
}

impl<P> Condition<P> {
    /// The model of this condition.
    pub open spec fn model<G: EGraph>(&self) -> ConditionView<P::V> where P: Pattern<G> {
        ConditionView { lhs: self.lhs@, rhs: self.rhs@ }
    }

    /// Instantiates both sides under `mapping` and tells whether their
    /// canonical ids coincide.  Both instances stay in the graph whatever the
    /// answer is.
    pub fn check<G: EGraph>(&self, egraph: &mut G, mapping: &WildMap) -> (holds: bool) where
        P: Pattern<G>,
        ensures
            (final(egraph)@, holds) == spec_check::<G, P>(
                self.model::<G>(),
                old(egraph)@,
                mapping@,
            ),
    {
        let lhs_id = self.lhs.subst_and_find(egraph, mapping);
        let rhs_id = self.rhs.subst_and_find(egraph, mapping);
        lhs_id == rhs_id
    }
}

/// The models of a list of conditions, in order.
pub open spec fn conditions_view<G: EGraph, P: Pattern<G>>(conditions: Seq<Condition<P>>) -> Seq<
    ConditionView<P::V>,
> {
    conditions.map_values(|condition: Condition<P>| condition.model::<G>())
}

/// The graph after the conditions have been checked in order under
/// `mapping`, stopping at the first that fails, and whether all of them hold.
pub open spec fn check_all<G: EGraph, P: Pattern<G>>(
    conditions: Seq<ConditionView<P::V>>,
    g: G::V,
    mapping: Bindings,
) -> (G::V, bool)
    decreases conditions.len(),
{
    if conditions.len() == 0 {
        (g, true)
    } else {
        let (after, holds) = spec_check::<G, P>(conditions[0], g, mapping);
        if holds {
            check_all::<G, P>(conditions.drop_first(), after, mapping)
        } else {
            (after, false)
        }
    }
}

} // verus!
