//! What applying a rule means, as functions on the models of the graph and
//! of the matches.
//!
//! An application walks the matches, their mappings, the rule's appliers and
//! each applier's results, in that order.  [`Progress`] is the state it
//! carries; every function here takes the state before a part of the walk
//! and gives the state after it.  Once the walk has stopped, nothing changes
//! the state any more.

use vstd::prelude::*;
use crate::applier::SharedApplier;
use crate::condition::{check_all, ConditionView};
use crate::graph::{EGraph, Id};
use crate::pattern::{Bindings, Pattern, SearchMatchesView};

verus! {

/// How far one application of a rule has come.
pub struct Progress<V> {
    /// The graph as it stands.
    pub graph: V,
    /// The leaders of the unions made so far, oldest first.
    pub applications: Seq<Id>,
    /// Whether the unions have outnumbered the rule's limit.
    pub stopped: bool,
}

/// The state with the given parts.
pub open spec fn progress<V>(graph: V, applications: Seq<Id>, stopped: bool) -> Progress<V> {
    Progress { graph, applications, stopped }
}

/// The state in which an application begins on the graph `g`.
pub open spec fn start<V>(g: V) -> Progress<V> {
    Progress { graph: g, applications: Seq::empty(), stopped: false }
}

/// The state `s` with its graph replaced by `g`.
pub open spec fn on_graph<V>(s: Progress<V>, g: V) -> Progress<V> {
    Progress { graph: g, applications: s.applications, stopped: s.stopped }
}

/// A walk over `items` from the state `s`: each item in turn takes the
/// state one step further, until the items run out or the walk has stopped.
pub open spec fn walk<V, T>(
    s: Progress<V>,
    items: Seq<T>,
    step: spec_fn(Progress<V>, T) -> Progress<V>,
) -> Progress<V>
    decreases items.len(),
{
    if items.len() == 0 || s.stopped {
        s
    } else {
        walk(step(s, items[0]), items.drop_first(), step)
    }
}

/// One applier result: an id other than the matched class is unioned with
/// it and the leader recorded; the walk stops when that makes more unions
/// than `limit`.  The matched class itself teaches nothing and changes
/// nothing.
pub open spec fn record<G: EGraph>(s: Progress<G::V>, eclass: Id, applied: Id, limit: usize)
    -> Progress<G::V> {
    if applied == eclass {
        s
    } else {
        let (merged, leader) = G::spec_union(s.graph, eclass, applied);
        let applications = s.applications.push(leader);
        Progress { graph: merged, applications, stopped: applications.len() > limit }
    }
}

/// All results of one applier call, in order.
pub open spec fn record_all<G: EGraph>(
    s: Progress<G::V>,
    eclass: Id,
    applied: Seq<Id>,
    limit: usize,
) -> Progress<G::V> {
    walk(s, applied, |at: Progress<G::V>, id: Id| record::<G>(at, eclass, id, limit))
}

/// One applier on one mapping: it runs on the graph as it stands, then each
/// of its results is recorded.
pub open spec fn run_applier<G: EGraph>(
    s: Progress<G::V>,
    applier: SharedApplier<G>,
    eclass: Id,
    mapping: Bindings,
    limit: usize,
) -> Progress<G::V> {
    let (grown, applied) = applier.spec_apply(s.graph, mapping);
    record_all::<G>(on_graph(s, grown), eclass, applied, limit)
}

/// The appliers on one mapping, in order.
pub open spec fn run_appliers<G: EGraph>(
    s: Progress<G::V>,
    appliers: Seq<SharedApplier<G>>,
    eclass: Id,
    mapping: Bindings,
    limit: usize,
) -> Progress<G::V> {
    walk(
        s,
        appliers,
        |at: Progress<G::V>, applier: SharedApplier<G>|
            run_applier::<G>(at, applier, eclass, mapping, limit),
    )
}

/// One mapping: the conditions are checked, which may grow the graph, and
/// if all hold the appliers run.
pub open spec fn run_mapping<G: EGraph, P: Pattern<G>>(
    s: Progress<G::V>,
    conditions: Seq<ConditionView<P::V>>,
    appliers: Seq<SharedApplier<G>>,
    eclass: Id,
    mapping: Bindings,
    limit: usize,
) -> Progress<G::V> {
    let (checked, hold) = check_all::<G, P>(conditions, s.graph, mapping);
    if hold {
        run_appliers::<G>(on_graph(s, checked), appliers, eclass, mapping, limit)
    } else {
        on_graph(s, checked)
    }
}

/// The mappings of one matched class, in order.
pub open spec fn run_mappings<G: EGraph, P: Pattern<G>>(
    s: Progress<G::V>,
    conditions: Seq<ConditionView<P::V>>,
    appliers: Seq<SharedApplier<G>>,
    eclass: Id,
    mappings: Seq<Bindings>,
    limit: usize,
) -> Progress<G::V> {
    walk(
        s,
        mappings,
        |at: Progress<G::V>, mapping: Bindings|
            run_mapping::<G, P>(at, conditions, appliers, eclass, mapping, limit),
    )
}

/// One match: all its mappings, for its class.
pub open spec fn run_match<G: EGraph, P: Pattern<G>>(
    s: Progress<G::V>,
    conditions: Seq<ConditionView<P::V>>,
    appliers: Seq<SharedApplier<G>>,
    ematch: SearchMatchesView,
    limit: usize,
) -> Progress<G::V> {
    run_mappings::<G, P>(s, conditions, appliers, ematch.eclass, ematch.mappings, limit)
}

/// The matches, in order.
pub open spec fn run_matches<G: EGraph, P: Pattern<G>>(
    s: Progress<G::V>,
    conditions: Seq<ConditionView<P::V>>,
    appliers: Seq<SharedApplier<G>>,
    ematches: Seq<SearchMatchesView>,
    limit: usize,
) -> Progress<G::V> {
    walk(
        s,
        ematches,
        |at: Progress<G::V>, ematch: SearchMatchesView|
            run_match::<G, P>(at, conditions, appliers, ematch, limit),
    )
}

/// The matches that a list of patterns finds in the graph `g`: those of the
/// first pattern, then those of the second, and so on.
pub open spec fn search_all<G: EGraph, P: Pattern<G>>(patterns: Seq<P::V>, g: G::V) -> Seq<
    SearchMatchesView,
>
    decreases patterns.len(),
{
    if patterns.len() == 0 {
        Seq::empty()
    } else {
        search_all::<G, P>(patterns.drop_last(), g) + P::spec_search(patterns.last(), g)
    }
}

} // verus!
