//! What holds of every application of a rule: the laws of
//! [`RuleView::apply`](crate::rewrite::RuleView::apply) and
//! [`RuleView::search`](crate::rewrite::RuleView::search).

use vstd::prelude::*;
use crate::applier::SharedApplier;
use crate::condition::{check_all, spec_check, ConditionView};
use crate::graph::{EGraph, Id};
use crate::pattern::{Bindings, Pattern, SearchMatchesView};
use crate::rewrite::RuleView;
use crate::semantics::{
    on_graph, record, record_all, run_applier, run_appliers, run_mapping, run_mappings, run_match,
    run_matches, search_all, start, Progress,
};
use crate::walks::{
    lemma_walk_concat, lemma_walk_keeps, lemma_walk_one, lemma_walk_relates, stepped,
};

verus! {

/// Whether recording any of `ids` for a match in `eclass` keeps `kept`.
pub open spec fn results_keep<G: EGraph>(
    kept: spec_fn(Progress<G::V>) -> bool,
    eclass: Id,
    ids: Seq<Id>,
    limit: usize,
) -> bool {
    forall|at: Progress<G::V>, r: int|
        0 <= r < ids.len() && kept(at) && !at.stopped ==> kept(
            #[trigger] record::<G>(at, eclass, ids[r], limit),
        )
}

/// Whether running `applier` on `mapping` keeps `kept`, and recording any of
/// its results does.
pub open spec fn applier_keeps<G: EGraph>(
    kept: spec_fn(Progress<G::V>) -> bool,
    applier: SharedApplier<G>,
    eclass: Id,
    mapping: Bindings,
    limit: usize,
) -> bool {
    forall|at: Progress<G::V>|
        kept(at) && !at.stopped ==> {
            let (grown, ids) = #[trigger] applier.spec_apply(at.graph, mapping);
            kept(on_graph(at, grown)) && results_keep::<G>(kept, eclass, ids, limit)
        }
}

/// Whether everything a rule does for one mapping keeps `kept`: checking the
/// conditions, running each applier, recording each result.
pub open spec fn mapping_keeps<G: EGraph, P: Pattern<G>>(
    kept: spec_fn(Progress<G::V>) -> bool,
    conditions: Seq<ConditionView<P::V>>,
    appliers: Seq<SharedApplier<G>>,
    eclass: Id,
    mapping: Bindings,
    limit: usize,
) -> bool {
    &&& forall|at: Progress<G::V>|
        kept(at) && !at.stopped ==> kept(
            on_graph(at, (#[trigger] check_all::<G, P>(conditions, at.graph, mapping)).0),
        )
    &&& forall|k: int|
        0 <= k < appliers.len() ==> applier_keeps::<G>(
            kept,
            #[trigger] appliers[k],
            eclass,
            mapping,
            limit,
        )
}

/// Whether everything a rule does for the given matches keeps `kept`.
pub open spec fn matches_keep<G: EGraph, P: Pattern<G>>(
    kept: spec_fn(Progress<G::V>) -> bool,
    conditions: Seq<ConditionView<P::V>>,
    appliers: Seq<SharedApplier<G>>,
    ematches: Seq<SearchMatchesView>,
    limit: usize,
) -> bool {
    forall|i: int, j: int|
        0 <= i < ematches.len() && 0 <= j < ematches[i].mappings.len() ==> mapping_keeps::<G, P>(
            kept,
            conditions,
            appliers,
            ematches[i].eclass,
            #[trigger] ematches[i].mappings[j],
            limit,
        )
}

/// What the recording of each result keeps, the recording of all keeps.
proof fn lemma_record_all_keeps<G: EGraph>(
    s: Progress<G::V>,
    eclass: Id,
    ids: Seq<Id>,
    limit: usize,
    kept: spec_fn(Progress<G::V>) -> bool,
)
    requires
        kept(s),
        results_keep::<G>(kept, eclass, ids, limit),
    ensures
        kept(record_all::<G>(s, eclass, ids, limit)),
{
    let step = |at: Progress<G::V>, id: Id| record::<G>(at, eclass, id, limit);
    lemma_walk_keeps(s, ids, step, kept);
}

/// What each applier keeps, the appliers one after the other keep.
proof fn lemma_run_appliers_keeps<G: EGraph>(
    s: Progress<G::V>,
    appliers: Seq<SharedApplier<G>>,
    eclass: Id,
    mapping: Bindings,
    limit: usize,
    kept: spec_fn(Progress<G::V>) -> bool,
)
    requires
        kept(s),
        forall|k: int|
            0 <= k < appliers.len() ==> applier_keeps::<G>(
                kept,
                #[trigger] appliers[k],
                eclass,
                mapping,
                limit,
            ),
    ensures
        kept(run_appliers::<G>(s, appliers, eclass, mapping, limit)),
{
    let step = |at: Progress<G::V>, applier: SharedApplier<G>|
        run_applier::<G>(at, applier, eclass, mapping, limit);
    assert forall|at: Progress<G::V>, k: int|
        0 <= k < appliers.len() && kept(at) && !at.stopped implies kept(
        #[trigger] step(at, appliers[k]),
    ) by {
        let (grown, ids) = appliers[k].spec_apply(at.graph, mapping);
        lemma_record_all_keeps::<G>(on_graph(at, grown), eclass, ids, limit, kept);
    }
    lemma_walk_keeps(s, appliers, step, kept);
}

/// What everything done for a mapping keeps, the work on the mapping
/// keeps.
proof fn lemma_run_mapping_keeps<G: EGraph, P: Pattern<G>>(
    s: Progress<G::V>,
    conditions: Seq<ConditionView<P::V>>,
    appliers: Seq<SharedApplier<G>>,
    eclass: Id,
    mapping: Bindings,
    limit: usize,
    kept: spec_fn(Progress<G::V>) -> bool,
)
    requires
        kept(s),
        !s.stopped,
        mapping_keeps::<G, P>(kept, conditions, appliers, eclass, mapping, limit),
    ensures
        kept(run_mapping::<G, P>(s, conditions, appliers, eclass, mapping, limit)),
{
    let (checked, hold) = check_all::<G, P>(conditions, s.graph, mapping);
    if hold {
        lemma_run_appliers_keeps::<G>(on_graph(s, checked), appliers, eclass, mapping, limit, kept);
    }
}

/// If everything a rule does for the given matches keeps `kept`, then so
/// does the whole application.
pub proof fn lemma_run_matches_keeps<G: EGraph, P: Pattern<G>>(
    s: Progress<G::V>,
    conditions: Seq<ConditionView<P::V>>,
    appliers: Seq<SharedApplier<G>>,
    ematches: Seq<SearchMatchesView>,
    limit: usize,
    kept: spec_fn(Progress<G::V>) -> bool,
)
    requires
        kept(s),
        matches_keep::<G, P>(kept, conditions, appliers, ematches, limit),
    ensures
        kept(run_matches::<G, P>(s, conditions, appliers, ematches, limit)),
{
    let step = |at: Progress<G::V>, ematch: SearchMatchesView|
        run_match::<G, P>(at, conditions, appliers, ematch, limit);
    assert forall|at: Progress<G::V>, i: int|
        0 <= i < ematches.len() && kept(at) && !at.stopped implies kept(
        #[trigger] step(at, ematches[i]),
    ) by {
        let eclass = ematches[i].eclass;
        let mappings = ematches[i].mappings;
        let inner = |at: Progress<G::V>, mapping: Bindings|
            run_mapping::<G, P>(at, conditions, appliers, eclass, mapping, limit);
        assert forall|at: Progress<G::V>, j: int|
            0 <= j < mappings.len() && kept(at) && !at.stopped implies kept(
            #[trigger] inner(at, mappings[j]),
        ) by {
            lemma_run_mapping_keeps::<G, P>(
                at,
                conditions,
                appliers,
                eclass,
                mappings[j],
                limit,
                kept,
            );
        }
        lemma_walk_keeps(at, mappings, inner, kept);
    }
    lemma_walk_keeps(s, ematches, step, kept);
}

/// A predicate that neither a change of graph nor the recording of any
/// result undoes is kept by everything a rule does.
proof fn lemma_matches_keep_counts<G: EGraph, P: Pattern<G>>(
    kept: spec_fn(Progress<G::V>) -> bool,
    conditions: Seq<ConditionView<P::V>>,
    appliers: Seq<SharedApplier<G>>,
    ematches: Seq<SearchMatchesView>,
    limit: usize,
)
    requires
        forall|at: Progress<G::V>, g: G::V| kept(at) ==> kept(#[trigger] on_graph(at, g)),
        forall|at: Progress<G::V>, eclass: Id, id: Id|
            kept(at) && !at.stopped ==> kept(#[trigger] record::<G>(at, eclass, id, limit)),
    ensures
        matches_keep::<G, P>(kept, conditions, appliers, ematches, limit),
{
}

/// Whether the state respects the limit: a walk that goes on has made at
/// most `limit` unions, and one that stopped has made exactly one more.
pub open spec fn within_limit<V>(s: Progress<V>, limit: usize) -> bool {
    if s.stopped {
        s.applications.len() == limit + 1
    } else {
        s.applications.len() <= limit
    }
}

/// The application limit caps the result: an application returns at most
/// one leader more than the rule's limit, and exactly that many if and only
/// if it stopped early.
pub proof fn law_limit_caps_applications<G: EGraph, P: Pattern<G>>(
    rule: RuleView<G, P>,
    g: G::V,
    ematches: Seq<SearchMatchesView>,
)
    ensures
        within_limit(rule.apply(g, ematches), rule.application_limit),
        rule.apply(g, ematches).applications.len() <= rule.application_limit + 1,
        rule.apply(g, ematches).stopped <==> rule.apply(g, ematches).applications.len()
            > rule.application_limit,
{
    let limit = rule.application_limit;
    let kept = |at: Progress<G::V>| within_limit(at, limit);
    lemma_matches_keep_counts::<G, P>(kept, rule.conditions, rule.appliers, ematches, limit);
    lemma_run_matches_keeps::<G, P>(
        start(g),
        rule.conditions,
        rule.appliers,
        ematches,
        limit,
        kept,
    );
}

/// An application only ever appends to the leaders it has recorded.
pub proof fn lemma_run_matches_appends<G: EGraph, P: Pattern<G>>(
    s: Progress<G::V>,
    conditions: Seq<ConditionView<P::V>>,
    appliers: Seq<SharedApplier<G>>,
    ematches: Seq<SearchMatchesView>,
    limit: usize,
)
    ensures
        s.applications.is_prefix_of(
            run_matches::<G, P>(s, conditions, appliers, ematches, limit).applications,
        ),
{
    let kept = |at: Progress<G::V>| s.applications.is_prefix_of(at.applications);
    lemma_matches_keep_counts::<G, P>(kept, conditions, appliers, ematches, limit);
    lemma_run_matches_keeps::<G, P>(s, conditions, appliers, ematches, limit, kept);
}

/// Matches are applied one after the other: applying `first + second` is
/// applying `second` from where the application of `first` ended.
pub proof fn law_apply_in_sequence<G: EGraph, P: Pattern<G>>(
    rule: RuleView<G, P>,
    g: G::V,
    first: Seq<SearchMatchesView>,
    second: Seq<SearchMatchesView>,
)
    ensures
        rule.apply(g, first + second) == run_matches::<G, P>(
            rule.apply(g, first),
            rule.conditions,
            rule.appliers,
            second,
            rule.application_limit,
        ),
{
    let step = |at: Progress<G::V>, ematch: SearchMatchesView|
        run_match::<G, P>(at, rule.conditions, rule.appliers, ematch, rule.application_limit);
    lemma_walk_concat(start(g), first, second, step);
}

/// More matches only add leaders: the leaders returned for `first` are the
/// beginning of the leaders returned for `first + more`.
pub proof fn law_more_matches_only_append<G: EGraph, P: Pattern<G>>(
    rule: RuleView<G, P>,
    g: G::V,
    first: Seq<SearchMatchesView>,
    more: Seq<SearchMatchesView>,
)
    ensures
        rule.apply(g, first).applications.is_prefix_of(rule.apply(g, first + more).applications),
{
    law_apply_in_sequence(rule, g, first, more);
    lemma_run_matches_appends::<G, P>(
        rule.apply(g, first),
        rule.conditions,
        rule.appliers,
        more,
        rule.application_limit,
    );
}

/// Once the limit is exceeded, the matches that remain are left alone: if
/// the application of `first` stopped early, then whatever follows `first`
/// changes neither the graph nor the result.
pub proof fn law_stopped_leaves_the_rest<G: EGraph, P: Pattern<G>>(
    rule: RuleView<G, P>,
    g: G::V,
    first: Seq<SearchMatchesView>,
    rest: Seq<SearchMatchesView>,
)
    requires
        rule.apply(g, first).stopped,
    ensures
        rule.apply(g, first + rest) == rule.apply(g, first),
{
    law_apply_in_sequence(rule, g, first, rest);
}

/// How the state `x` of an application under the limit `low` stands to the
/// state `y` of the same application under a higher limit: they are the same
/// until `x` stops, and from then on `x` holds the first `low + 1` leaders
/// of `y`.
pub open spec fn cut_short<V>(x: Progress<V>, y: Progress<V>, low: usize) -> bool {
    if x.stopped {
        &&& x.applications.len() == low + 1
        &&& y.applications.len() >= low + 1
        &&& x.applications == y.applications.take(low + 1)
    } else {
        x == y && x.applications.len() <= low
    }
}

/// A state that was cut short stays so when the other walk appends.
proof fn lemma_cut_short_appends<V>(x: Progress<V>, y: Progress<V>, later: Progress<V>, low: usize)
    requires
        x.stopped,
        cut_short(x, y, low),
        y.applications.is_prefix_of(later.applications),
    ensures
        cut_short(x, later, low),
{
    assert(later.applications.take(low + 1) =~= y.applications.take(low + 1));
}

/// Recording one result under both limits keeps one state cut short
/// against the other.
proof fn lemma_record_cut_short<G: EGraph>(
    x: Progress<G::V>,
    y: Progress<G::V>,
    eclass: Id,
    id: Id,
    low: usize,
    high: usize,
)
    requires
        low <= high,
        cut_short(x, y, low),
    ensures
        cut_short(
            stepped(x, id, |at: Progress<G::V>, id: Id| record::<G>(at, eclass, id, low)),
            stepped(y, id, |at: Progress<G::V>, id: Id| record::<G>(at, eclass, id, high)),
            low,
        ),
{
    let after = stepped(y, id, |at: Progress<G::V>, id: Id| record::<G>(at, eclass, id, high));
    if x.stopped {
        lemma_cut_short_appends(x, y, after, low);
    } else {
        assert(after.applications.take(after.applications.len() as int) =~= after.applications);
    }
}

/// Recording all results under both limits keeps one state cut short
/// against the other.
proof fn lemma_record_all_cut_short<G: EGraph>(
    x: Progress<G::V>,
    y: Progress<G::V>,
    eclass: Id,
    ids: Seq<Id>,
    low: usize,
    high: usize,
)
    requires
        low <= high,
        cut_short(x, y, low),
    ensures
        cut_short(
            record_all::<G>(x, eclass, ids, low),
            record_all::<G>(y, eclass, ids, high),
            low,
        ),
{
    let step_low = |at: Progress<G::V>, id: Id| record::<G>(at, eclass, id, low);
    let step_high = |at: Progress<G::V>, id: Id| record::<G>(at, eclass, id, high);
    let related = |a: Progress<G::V>, b: Progress<G::V>| cut_short(a, b, low);
    assert forall|a: Progress<G::V>, b: Progress<G::V>, r: int|
        0 <= r < ids.len() && related(a, b) implies related(
        #[trigger] stepped(a, ids[r], step_low),
        #[trigger] stepped(b, ids[r], step_high),
    ) by {
        lemma_record_cut_short::<G>(a, b, eclass, ids[r], low, high);
    }
    lemma_walk_relates(x, y, ids, step_low, step_high, related);
}

/// Recording results only appends leaders.
proof fn lemma_record_all_appends<G: EGraph>(
    s: Progress<G::V>,
    eclass: Id,
    ids: Seq<Id>,
    limit: usize,
)
    ensures
        s.applications.is_prefix_of(record_all::<G>(s, eclass, ids, limit).applications),
{
    let kept = |at: Progress<G::V>| s.applications.is_prefix_of(at.applications);
    lemma_record_all_keeps::<G>(s, eclass, ids, limit, kept);
}

/// Running appliers only appends leaders.
proof fn lemma_run_appliers_appends<G: EGraph>(
    s: Progress<G::V>,
    appliers: Seq<SharedApplier<G>>,
    eclass: Id,
    mapping: Bindings,
    limit: usize,
)
    ensures
        s.applications.is_prefix_of(
            run_appliers::<G>(s, appliers, eclass, mapping, limit).applications,
        ),
{
    let kept = |at: Progress<G::V>| s.applications.is_prefix_of(at.applications);
    lemma_run_appliers_keeps::<G>(s, appliers, eclass, mapping, limit, kept);
}

/// Working on a mapping only appends leaders.
proof fn lemma_run_mapping_appends<G: EGraph, P: Pattern<G>>(
    s: Progress<G::V>,
    conditions: Seq<ConditionView<P::V>>,
    appliers: Seq<SharedApplier<G>>,
    eclass: Id,
    mapping: Bindings,
    limit: usize,
)
    ensures
        s.applications.is_prefix_of(
            run_mapping::<G, P>(s, conditions, appliers, eclass, mapping, limit).applications,
        ),
{
    let checked = check_all::<G, P>(conditions, s.graph, mapping).0;
    lemma_run_appliers_appends::<G>(on_graph(s, checked), appliers, eclass, mapping, limit);
}

/// Running the appliers under both limits keeps one state cut short
/// against the other.
proof fn lemma_run_appliers_cut_short<G: EGraph>(
    x: Progress<G::V>,
    y: Progress<G::V>,
    appliers: Seq<SharedApplier<G>>,
    eclass: Id,
    mapping: Bindings,
    low: usize,
    high: usize,
)
    requires
        low <= high,
        cut_short(x, y, low),
    ensures
        cut_short(
            run_appliers::<G>(x, appliers, eclass, mapping, low),
            run_appliers::<G>(y, appliers, eclass, mapping, high),
            low,
        ),
{
    let step_low = |at: Progress<G::V>, applier: SharedApplier<G>|
        run_applier::<G>(at, applier, eclass, mapping, low);
    let step_high = |at: Progress<G::V>, applier: SharedApplier<G>|
        run_applier::<G>(at, applier, eclass, mapping, high);
    let related = |a: Progress<G::V>, b: Progress<G::V>| cut_short(a, b, low);
    assert forall|a: Progress<G::V>, b: Progress<G::V>, k: int|
        0 <= k < appliers.len() && related(a, b) implies related(
        #[trigger] stepped(a, appliers[k], step_low),
        #[trigger] stepped(b, appliers[k], step_high),
    ) by {
        let (grown, ids) = appliers[k].spec_apply(b.graph, mapping);
        if a.stopped {
            if !b.stopped {
                lemma_record_all_appends::<G>(on_graph(b, grown), eclass, ids, high);
            }
            lemma_cut_short_appends(a, b, stepped(b, appliers[k], step_high), low);
        } else {
            lemma_record_all_cut_short::<G>(
                on_graph(a, grown),
                on_graph(b, grown),
                eclass,
                ids,
                low,
                high,
            );
        }
    }
    lemma_walk_relates(x, y, appliers, step_low, step_high, related);
}

/// Working on the mappings of a match under both limits keeps one state cut
/// short against the other.
proof fn lemma_run_mappings_cut_short<G: EGraph, P: Pattern<G>>(
    x: Progress<G::V>,
    y: Progress<G::V>,
    conditions: Seq<ConditionView<P::V>>,
    appliers: Seq<SharedApplier<G>>,
    eclass: Id,
    mappings: Seq<Bindings>,
    low: usize,
    high: usize,
)
    requires
        low <= high,
        cut_short(x, y, low),
    ensures
        cut_short(
            run_mappings::<G, P>(x, conditions, appliers, eclass, mappings, low),
            run_mappings::<G, P>(y, conditions, appliers, eclass, mappings, high),
            low,
        ),
{
    let step_low = |at: Progress<G::V>, mapping: Bindings|
        run_mapping::<G, P>(at, conditions, appliers, eclass, mapping, low);
    let step_high = |at: Progress<G::V>, mapping: Bindings|
        run_mapping::<G, P>(at, conditions, appliers, eclass, mapping, high);
    let related = |a: Progress<G::V>, b: Progress<G::V>| cut_short(a, b, low);
    assert forall|a: Progress<G::V>, b: Progress<G::V>, j: int|
        0 <= j < mappings.len() && related(a, b) implies related(
        #[trigger] stepped(a, mappings[j], step_low),
        #[trigger] stepped(b, mappings[j], step_high),
    ) by {
        let (checked, hold) = check_all::<G, P>(conditions, b.graph, mappings[j]);
        if a.stopped {
            if !b.stopped {
                lemma_run_mapping_appends::<G, P>(
                    b,
                    conditions,
                    appliers,
                    eclass,
                    mappings[j],
                    high,
                );
            }
            lemma_cut_short_appends(a, b, stepped(b, mappings[j], step_high), low);
        } else if hold {
            lemma_run_appliers_cut_short::<G>(
                on_graph(a, checked),
                on_graph(b, checked),
                appliers,
                eclass,
                mappings[j],
                low,
                high,
            );
        }
    }
    lemma_walk_relates(x, y, mappings, step_low, step_high, related);
}

/// Working on the matches under both limits keeps one state cut short
/// against the other.
proof fn lemma_run_matches_cut_short<G: EGraph, P: Pattern<G>>(
    x: Progress<G::V>,
    y: Progress<G::V>,
    conditions: Seq<ConditionView<P::V>>,
    appliers: Seq<SharedApplier<G>>,
    ematches: Seq<SearchMatchesView>,
    low: usize,
    high: usize,
)
    requires
        low <= high,
        cut_short(x, y, low),
    ensures
        cut_short(
            run_matches::<G, P>(x, conditions, appliers, ematches, low),
            run_matches::<G, P>(y, conditions, appliers, ematches, high),
            low,
        ),
{
    let step_low = |at: Progress<G::V>, ematch: SearchMatchesView|
        run_match::<G, P>(at, conditions, appliers, ematch, low);
    let step_high = |at: Progress<G::V>, ematch: SearchMatchesView|
        run_match::<G, P>(at, conditions, appliers, ematch, high);
    let related = |a: Progress<G::V>, b: Progress<G::V>| cut_short(a, b, low);
    assert forall|a: Progress<G::V>, b: Progress<G::V>, i: int|
        0 <= i < ematches.len() && related(a, b) implies related(
        #[trigger] stepped(a, ematches[i], step_low),
        #[trigger] stepped(b, ematches[i], step_high),
    ) by {
        lemma_run_mappings_cut_short::<G, P>(
            a,
            b,
            conditions,
            appliers,
            ematches[i].eclass,
            ematches[i].mappings,
            low,
            high,
        );
    }
    lemma_walk_relates(x, y, ematches, step_low, step_high, related);
}

/// The limit only cuts the result short.  Take two rules that differ in
/// nothing but their limit.  If the rule with the higher limit makes no more
/// unions than the lower limit allows, the rule with the lower limit does
/// exactly the same.  Otherwise the rule with the lower limit stops early,
/// and returns the first `low + 1` leaders of the other: one more than its
/// limit.
pub proof fn law_limit_cuts_short<G: EGraph, P: Pattern<G>>(
    low: RuleView<G, P>,
    high: RuleView<G, P>,
    g: G::V,
    ematches: Seq<SearchMatchesView>,
)
    requires
        low.conditions == high.conditions,
        low.appliers == high.appliers,
        low.application_limit <= high.application_limit,
    ensures
        high.apply(g, ematches).applications.len() <= low.application_limit ==> low.apply(
            g,
            ematches,
        ) == high.apply(g, ematches),
        high.apply(g, ematches).applications.len() > low.application_limit ==> {
            &&& low.apply(g, ematches).stopped
            &&& low.apply(g, ematches).applications.len() == low.application_limit + 1
            &&& low.apply(g, ematches).applications == high.apply(g, ematches).applications.take(
                low.application_limit + 1,
            )
        },
{
    lemma_run_matches_cut_short::<G, P>(
        start(g),
        start(g),
        low.conditions,
        low.appliers,
        ematches,
        low.application_limit,
        high.application_limit,
    );
}

/// One leader per match.  Take a rule without conditions whose only applier
/// produces a single id for the single mapping of a match.  Unless the limit
/// was exceeded before, applying one more match adds exactly the leader of
/// the union of the matched class with that id, if the two differ; if the
/// applier produces the matched class itself, the match adds nothing.
pub proof fn law_sole_applier_one_leader_per_match<G: EGraph, P: Pattern<G>>(
    rule: RuleView<G, P>,
    g: G::V,
    before: Seq<SearchMatchesView>,
    ematch: SearchMatchesView,
)
    requires
        rule.conditions.len() == 0,
        rule.appliers.len() == 1,
        ematch.mappings.len() == 1,
        !rule.apply(g, before).stopped,
        rule.appliers[0].spec_apply(rule.apply(g, before).graph, ematch.mappings[0]).1.len() == 1,
    ensures
        ({
            let s = rule.apply(g, before);
            let (grown, ids) = rule.appliers[0].spec_apply(s.graph, ematch.mappings[0]);
            let (merged, leader) = G::spec_union(grown, ematch.eclass, ids[0]);
            let after = rule.apply(g, before.push(ematch));
            if ids[0] == ematch.eclass {
                after.graph == grown && after.applications == s.applications
            } else {
                after.graph == merged && after.applications == s.applications.push(leader)
            }
        }),
{
    let limit = rule.application_limit;
    let s = rule.apply(g, before);
    let mapping = ematch.mappings[0];
    let applier = rule.appliers[0];
    let (grown, ids) = applier.spec_apply(s.graph, mapping);
    assert(before.push(ematch) =~= before + seq![ematch]);
    law_apply_in_sequence(rule, g, before, seq![ematch]);
    lemma_walk_one(
        s,
        ematch,
        |at: Progress<G::V>, ematch: SearchMatchesView|
            run_match::<G, P>(at, rule.conditions, rule.appliers, ematch, limit),
    );
    assert(ematch.mappings =~= seq![mapping]);
    lemma_walk_one(
        s,
        mapping,
        |at: Progress<G::V>, mapping: Bindings|
            run_mapping::<G, P>(at, rule.conditions, rule.appliers, ematch.eclass, mapping, limit),
    );
    assert(rule.appliers =~= seq![applier]);
    lemma_walk_one(
        s,
        applier,
        |at: Progress<G::V>, applier: SharedApplier<G>|
            run_applier::<G>(at, applier, ematch.eclass, mapping, limit),
    );
    assert(ids =~= seq![ids[0]]);
    lemma_walk_one(
        on_graph(s, grown),
        ids[0],
        |at: Progress<G::V>, id: Id| record::<G>(at, ematch.eclass, id, limit),
    );
}

/// One leader per match, counted.  Take a rule without conditions whose
/// only applier, on whatever graph, produces for the single mapping of each
/// match a single id other than the matched class.  Then the application
/// returns one leader for each match, until one more than the limit has been
/// returned.
pub proof fn law_sole_applier_counts_matches<G: EGraph, P: Pattern<G>>(
    rule: RuleView<G, P>,
    g: G::V,
    ematches: Seq<SearchMatchesView>,
)
    requires
        rule.conditions.len() == 0,
        rule.appliers.len() == 1,
        forall|i: int| 0 <= i < ematches.len() ==> (#[trigger] ematches[i]).mappings.len() == 1,
        forall|at: G::V, i: int|
            0 <= i < ematches.len() ==> {
                let ids = (#[trigger] rule.appliers[0].spec_apply(at, ematches[i].mappings[0])).1;
                ids.len() == 1 && ids[0] != ematches[i].eclass
            },
    ensures
        ematches.len() <= rule.application_limit ==> rule.apply(g, ematches).applications.len()
            == ematches.len(),
        ematches.len() > rule.application_limit ==> rule.apply(g, ematches).applications.len()
            == rule.application_limit + 1,
    decreases ematches.len(),
{
    law_limit_caps_applications(rule, g, ematches);
    if ematches.len() > 0 {
        let before = ematches.drop_last();
        let last = ematches.last();
        assert(before.push(last) =~= ematches);
        assert(before + seq![last] =~= ematches);
        law_sole_applier_counts_matches(rule, g, before);
        law_limit_caps_applications(rule, g, before);
        if rule.apply(g, before).stopped {
            law_stopped_leaves_the_rest(rule, g, before, seq![last]);
        } else {
            law_sole_applier_one_leader_per_match(rule, g, before, last);
        }
    }
}

/// Searching for several patterns lists the matches pattern by pattern:
/// the matches of the patterns `first + second` are those of `first`
/// followed by those of `second`, with nothing merged and nothing dropped.
pub proof fn law_search_concatenates<G: EGraph, P: Pattern<G>>(
    first: Seq<P::V>,
    second: Seq<P::V>,
    g: G::V,
)
    ensures
        search_all::<G, P>(first + second, g) == search_all::<G, P>(first, g) + search_all::<G, P>(
            second,
            g,
        ),
    decreases second.len(),
{
    if second.len() == 0 {
        assert(first + second =~= first);
        assert(search_all::<G, P>(first, g) + search_all::<G, P>(second, g) =~= search_all::<G, P>(
            first,
            g,
        ));
    } else {
        assert((first + second).drop_last() =~= first + second.drop_last());
        law_search_concatenates::<G, P>(first, second.drop_last(), g);
        let found = P::spec_search(second.last(), g);
        assert(search_all::<G, P>(first, g) + (search_all::<G, P>(second.drop_last(), g) + found)
            =~= (search_all::<G, P>(first, g) + search_all::<G, P>(second.drop_last(), g)) + found);
    }
}

/// Checking conditions changes the graph only by instantiating their
/// patterns.
proof fn lemma_check_all_keeps<G: EGraph, P: Pattern<G>>(
    conditions: Seq<ConditionView<P::V>>,
    g: G::V,
    mapping: Bindings,
    keeps: spec_fn(G::V, G::V) -> bool,
)
    requires
        forall|a: G::V| #[trigger] keeps(a, a),
        forall|a: G::V, b: G::V, c: G::V|
            #[trigger] keeps(a, b) && #[trigger] keeps(b, c) ==> keeps(a, c),
        forall|at: G::V, c: int|
            0 <= c < conditions.len() ==> keeps(
                at,
                (#[trigger] P::spec_subst_and_find(conditions[c].lhs, at, mapping)).0,
            ),
        forall|at: G::V, c: int|
            0 <= c < conditions.len() ==> keeps(
                at,
                (#[trigger] P::spec_subst_and_find(conditions[c].rhs, at, mapping)).0,
            ),
    ensures
        keeps(g, check_all::<G, P>(conditions, g, mapping).0),
    decreases conditions.len(),
{
    if conditions.len() > 0 {
        let (after, holds) = spec_check::<G, P>(conditions[0], g, mapping);
        if holds {
            lemma_check_all_keeps::<G, P>(conditions.drop_first(), after, mapping, keeps);
        }
    }
}

/// Monotonicity.  Applying a rule changes the graph by nothing but unions,
/// the rule's appliers and the instantiation of its conditions' patterns.
/// So whatever none of these undoes, such as the presence of a class or the
/// equivalence of two ids, the application does not undo either: every
/// reflexive and transitive relation `keeps` that holds between a graph and
/// what any of the three makes of it holds between the graph before the
/// application and the graph after it.
pub proof fn law_apply_keeps_what_its_parts_keep<G: EGraph, P: Pattern<G>>(
    rule: RuleView<G, P>,
    g: G::V,
    ematches: Seq<SearchMatchesView>,
    keeps: spec_fn(G::V, G::V) -> bool,
)
    requires
        forall|a: G::V| #[trigger] keeps(a, a),
        forall|a: G::V, b: G::V, c: G::V|
            #[trigger] keeps(a, b) && #[trigger] keeps(b, c) ==> keeps(a, c),
        forall|at: G::V, a: Id, b: Id| keeps(at, (#[trigger] G::spec_union(at, a, b)).0),
        forall|at: G::V, k: int, mapping: Bindings|
            0 <= k < rule.appliers.len() ==> keeps(
                at,
                (#[trigger] rule.appliers[k].spec_apply(at, mapping)).0,
            ),
        forall|at: G::V, c: int, mapping: Bindings|
            0 <= c < rule.conditions.len() ==> keeps(
                at,
                (#[trigger] P::spec_subst_and_find(rule.conditions[c].lhs, at, mapping)).0,
            ),
        forall|at: G::V, c: int, mapping: Bindings|
            0 <= c < rule.conditions.len() ==> keeps(
                at,
                (#[trigger] P::spec_subst_and_find(rule.conditions[c].rhs, at, mapping)).0,
            ),
    ensures
        keeps(g, rule.apply(g, ematches).graph),
{
    let limit = rule.application_limit;
    let kept = |at: Progress<G::V>| keeps(g, at.graph);
    assert forall|i: int, j: int|
        0 <= i < ematches.len() && 0 <= j < ematches[i].mappings.len() implies mapping_keeps::<
        G,
        P,
    >(
        kept,
        rule.conditions,
        rule.appliers,
        ematches[i].eclass,
        #[trigger] ematches[i].mappings[j],
        limit,
    ) by {
        let mapping = ematches[i].mappings[j];
        assert forall|at: Progress<G::V>| kept(at) && !at.stopped implies kept(
            on_graph(at, (#[trigger] check_all::<G, P>(rule.conditions, at.graph, mapping)).0),
        ) by {
            lemma_check_all_keeps::<G, P>(rule.conditions, at.graph, mapping, keeps);
        }
    }
    lemma_run_matches_keeps::<G, P>(
        start(g),
        rule.conditions,
        rule.appliers,
        ematches,
        limit,
        kept,
    );
}

/// Re-application.  Call a graph saturated if, on it, checking the rule's
/// conditions for any of the given mappings leaves a saturated graph, and
/// each applier leaves a saturated graph and produces nothing but the class
/// the mapping was matched in.  Applying the rule to those matches on a
/// saturated graph makes no union and so returns no leader, and the graph
/// stays saturated.
pub proof fn law_saturated_graph_yields_nothing<G: EGraph, P: Pattern<G>>(
    rule: RuleView<G, P>,
    g: G::V,
    ematches: Seq<SearchMatchesView>,
    saturated: spec_fn(G::V) -> bool,
)
    requires
        saturated(g),
        forall|at: G::V, i: int, j: int|
            0 <= i < ematches.len() && 0 <= j < ematches[i].mappings.len() && saturated(at)
                ==> saturated(
                (#[trigger] check_all::<G, P>(rule.conditions, at, ematches[i].mappings[j])).0,
            ),
        forall|at: G::V, i: int, j: int, k: int|
            0 <= i < ematches.len() && 0 <= j < ematches[i].mappings.len() && 0 <= k
                < rule.appliers.len() && saturated(at) ==> {
                let (grown, ids) = #[trigger] rule.appliers[k].spec_apply(
                    at,
                    ematches[i].mappings[j],
                );
                &&& saturated(grown)
                &&& forall|r: int| 0 <= r < ids.len() ==> ids[r] == ematches[i].eclass
            },
    ensures
        rule.apply(g, ematches).applications.len() == 0,
        !rule.apply(g, ematches).stopped,
        saturated(rule.apply(g, ematches).graph),
{
    let limit = rule.application_limit;
    let kept = |at: Progress<G::V>|
        saturated(at.graph) && at.applications.len() == 0 && !at.stopped;
    lemma_run_matches_keeps::<G, P>(
        start(g),
        rule.conditions,
        rule.appliers,
        ematches,
        limit,
        kept,
    );
}

} // verus!
