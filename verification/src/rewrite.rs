//! Rewrite rules: how they are built, searched for and applied.

use vstd::prelude::*;
use vstd::string::StringExecFns;
use std::rc::Rc;
use crate::applier::{instance, Applier, SharedApplier};
use crate::condition::{check_all, conditions_view, Condition, ConditionView};
use crate::graph::{EGraph, Id};
use crate::laws::law_limit_caps_applications;
use crate::pattern::{
    matches_view, Bindings, ParseError, Pattern, SearchMatches, SearchMatchesView, WildMap,
};
use crate::semantics::{
    progress, record_all, run_appliers, run_mapping, run_mappings, run_match, run_matches,
    search_all, start, Progress,
};

verus! {

/// The application limit of a rule that was given none.
pub const DEFAULT_APPLICATION_LIMIT: usize = 10_000;

/// The model of a rule, finished or under construction.
#[verifier::reject_recursive_types(G)]
#[verifier::reject_recursive_types(P)]
pub struct RuleView<G: EGraph, P: Pattern<G>> {
    /// The rule's name, for diagnostics.
    pub name: Seq<char>,
    /// The left-hand sides; a match of any of them is a match of the rule.
    pub patterns: Seq<P::V>,
    /// The right-hand sides; all of them run on every match.
    pub appliers: Seq<SharedApplier<G>>,
    /// The side conditions; all of them must hold.
    pub conditions: Seq<ConditionView<P::V>>,
    /// The limit on unions: an application stops as soon as it has made
    /// more unions than this.
    pub application_limit: usize,
}

/// The models of a list of patterns, in order.
pub open spec fn patterns_view<G: EGraph, P: Pattern<G>>(patterns: Seq<P>) -> Seq<P::V> {
    patterns.map_values(|pattern: P| pattern@)
}

impl<G: EGraph, P: Pattern<G>> RuleView<G, P> {
    /// A rule that has only its name: no patterns, appliers or conditions,
    /// and the default application limit.
    pub open spec fn named(name: Seq<char>) -> Self {
        RuleView {
            name,
            patterns: Seq::empty(),
            appliers: Seq::empty(),
            conditions: Seq::empty(),
            application_limit: DEFAULT_APPLICATION_LIMIT,
        }
    }

    /// Whether a rule may be built from this: it needs something to search
    /// for and something to do.
    pub open spec fn buildable(self) -> bool {
        self.patterns.len() > 0 && self.appliers.len() > 0
    }

    /// What holds of every finished rule: it has a pattern and an applier,
    /// and its application limit is positive.
    pub open spec fn well_formed(self) -> bool {
        self.buildable() && self.application_limit > 0
    }

    /// This rule with one more pattern at the end.
    pub open spec fn with_pattern(self, pattern: P::V) -> Self {
        RuleView { patterns: self.patterns.push(pattern), ..self }
    }

    /// This rule with one more condition at the end.
    pub open spec fn with_condition(self, condition: ConditionView<P::V>) -> Self {
        RuleView { conditions: self.conditions.push(condition), ..self }
    }

    /// This rule with another application limit.
    pub open spec fn with_application_limit(self, application_limit: usize) -> Self {
        RuleView { application_limit, ..self }
    }

    /// Whether `self` is `before` with one more applier at the end, which
    /// does what `action` says: on every graph and mapping it leaves the
    /// graph and produces the ids that `action` gives.
    pub open spec fn adds_applier(
        self,
        before: Self,
        action: spec_fn(G::V, Bindings) -> (G::V, Seq<Id>),
    ) -> bool {
        &&& self.name == before.name
        &&& self.patterns == before.patterns
        &&& self.conditions == before.conditions
        &&& self.application_limit == before.application_limit
        &&& self.appliers.len() == before.appliers.len() + 1
        &&& self.appliers.drop_last() == before.appliers
        &&& forall|g: G::V, mapping: Bindings| #[trigger]
            self.appliers.last().spec_apply(g, mapping) == action(g, mapping)
    }

    /// The matches of the rule in the graph `g`: those of its first pattern,
    /// then those of the second, and so on.
    pub open spec fn search(self, g: G::V) -> Seq<SearchMatchesView> {
        search_all::<G, P>(self.patterns, g)
    }

    /// Where applying the rule to `ematches` takes the graph `g`, and which
    /// leaders it returns.
    pub open spec fn apply(self, g: G::V, ematches: Seq<SearchMatchesView>) -> Progress<G::V> {
        run_matches::<G, P>(
            start(g),
            self.conditions,
            self.appliers,
            ematches,
            self.application_limit,
        )
    }
}

/// Why a rule could not be built: it had no pattern, or no applier.
#[derive(Debug, Clone, Copy, PartialEq, Eq)]
pub struct InvalidRewrite;

/// Collects the parts of a rule.
#[verifier::reject_recursive_types(G)]
pub struct RewriteBuilder<G: EGraph, P> {
    name: String,
    patterns: Vec<P>,
    appliers: Vec<SharedApplier<G>>,
    conditions: Vec<Condition<P>>,
    application_limit: usize,
}

/// A rewrite rule.  Rules come out of a [`RewriteBuilder`] and do not change.
#[derive(Clone)]
#[non_exhaustive]
#[verifier::reject_recursive_types(G)]
pub struct Rewrite<G: EGraph, P> {
    /// The rule's name, for diagnostics.
    pub name: String,
    /// The left-hand sides; a match of any of them is a match of the rule.
    pub patterns: Vec<P>,
    /// The right-hand sides; all of them run on every match.
    pub appliers: Vec<SharedApplier<G>>,
    /// The side conditions; all of them must hold.
    pub conditions: Vec<Condition<P>>,
    /// The limit on unions: an application stops as soon as it has made
    /// more unions than this.
    pub application_limit: usize,
}

/// Begins a rule called `name`.
pub fn rw<G: EGraph, P: Pattern<G>>(name: &str) -> (builder: RewriteBuilder<G, P>)
    ensures
        builder@ == RuleView::<G, P>::named(name@),
{
    RewriteBuilder::new(name)
}

impl<G: EGraph, P: Pattern<G>> View for RewriteBuilder<G, P> {
    type V = RuleView<G, P>;

    closed spec fn view(&self) -> RuleView<G, P> {
        RuleView {
            name: self.name@,
            patterns: patterns_view::<G, P>(self.patterns@),
            appliers: self.appliers@,
            conditions: conditions_view::<G, P>(self.conditions@),
            application_limit: self.application_limit,
        }
    }
}

impl<G: EGraph, P: Pattern<G>> View for Rewrite<G, P> {
    type V = RuleView<G, P>;

    open spec fn view(&self) -> RuleView<G, P> {
        RuleView {
            name: self.name@,
            patterns: patterns_view::<G, P>(self.patterns@),
            appliers: self.appliers@,
            conditions: conditions_view::<G, P>(self.conditions@),
            application_limit: self.application_limit,
        }
    }
}

impl<G: EGraph, P> RewriteBuilder<G, P> {
    /// A builder never holds a limit of zero.
    #[verifier::type_invariant]
    spec fn positive_limit(self) -> bool {
        self.application_limit > 0
    }
}

impl<G: EGraph, P: Pattern<G>> RewriteBuilder<G, P> {
    /// Begins a rule called `name`, with the default application limit and
    /// nothing else.
    pub fn new(name: &str) -> (builder: Self)
        ensures
            builder@ == RuleView::<G, P>::named(name@),
    {
        let builder = Self {
            name: String::from_str(name),
            patterns: Vec::new(),
            appliers: Vec::new(),
            conditions: Vec::new(),
            application_limit: DEFAULT_APPLICATION_LIMIT,
        };
        assert(builder@.patterns =~= Seq::empty());
        assert(builder@.conditions =~= Seq::empty());
        builder
    }

    /// Adds a left-hand side.
    pub fn with_pattern(self, pattern: P) -> (builder: Self)
        ensures
            builder@ == self@.with_pattern(pattern@),
    {
        proof {
            use_type_invariant(&self);
        }
        let RewriteBuilder { name, mut patterns, appliers, conditions, application_limit } = self;
        patterns.push(pattern);
        let builder = RewriteBuilder { name, patterns, appliers, conditions, application_limit };
        assert(builder@.patterns =~= self@.patterns.push(pattern@));
        builder
    }

    /// Adds a right-hand side.
    pub fn with_applier<A: Applier<G> + 'static>(self, applier: A) -> (builder: Self)
        ensures
            builder@.adds_applier(
                self@,
                |g: G::V, mapping: Bindings| applier.spec_apply(g, mapping),
            ),
    {
        proof {
            use_type_invariant(&self);
        }
        let RewriteBuilder { name, patterns, mut appliers, conditions, application_limit } = self;
        let boxed: Box<dyn Applier<G>> = Box::new(applier);
        appliers.push(Rc::new(boxed));
        let builder = RewriteBuilder { name, patterns, appliers, conditions, application_limit };
        assert(builder@.appliers.drop_last() =~= self@.appliers);
        builder
    }

    /// Adds a side condition.
    pub fn with_condition(self, condition: Condition<P>) -> (builder: Self)
        ensures
            builder@ == self@.with_condition(condition.model::<G>()),
    {
        proof {
            use_type_invariant(&self);
        }
        let RewriteBuilder { name, patterns, appliers, mut conditions, application_limit } = self;
        conditions.push(condition);
        let builder = RewriteBuilder { name, patterns, appliers, conditions, application_limit };
        assert(builder@.conditions =~= self@.conditions.push(condition.model::<G>()));
        builder
    }

    /// Replaces the application limit, which is 10,000 unless replaced.
    pub fn with_application_limit(self, application_limit: usize) -> (builder: Self)
        requires
            application_limit > 0,
        ensures
            builder@ == self@.with_application_limit(application_limit),
    {
        RewriteBuilder {
            name: self.name,
            patterns: self.patterns,
            appliers: self.appliers,
            conditions: self.conditions,
            application_limit,
        }
    }

    /// Finishes the rule.  A rule needs at least one pattern and at least
    /// one applier; without either there is no rule.
    pub fn build(self) -> (built: Result<Rewrite<G, P>, InvalidRewrite>)
        ensures
            match built {
                Ok(rule) => self@.buildable() && rule@ == self@ && rule@.well_formed(),
                Err(_) => !self@.buildable(),
            },
    {
        proof {
            use_type_invariant(&self);
        }
        if self.patterns.len() == 0 || self.appliers.len() == 0 {
            return Err(InvalidRewrite);
        }
        Ok(
            Rewrite {
                name: self.name,
                patterns: self.patterns,
                appliers: self.appliers,
                conditions: self.conditions,
                application_limit: self.application_limit,
            },
        )
    }

    /// Finishes a rule that is known to have a pattern and an applier.
    pub fn mk(self) -> (rule: Rewrite<G, P>)
        requires
            self@.buildable(),
        ensures
            rule@ == self@,
            rule@.well_formed(),
    {
        match self.build() {
            Ok(rule) => rule,
            Err(_) => unreached(),
        }
    }
}

impl<G: EGraph, P: Pattern<G> + 'static> RewriteBuilder<G, P> {
    /// Adds the left-hand side that `pattern_str` spells, or hands on the
    /// parser's complaint.
    pub fn with_pattern_str(self, pattern_str: &str) -> (extended: Result<Self, ParseError>)
        ensures
            match P::spec_parse(pattern_str@) {
                Ok(pattern) => extended is Ok && extended->Ok_0@ == self@.with_pattern(pattern),
                Err(complaint) => extended is Err && extended->Err_0@ == complaint,
            },
    {
        match P::parse(pattern_str) {
            Ok(pattern) => Ok(self.with_pattern(pattern)),
            Err(complaint) => Err(complaint),
        }
    }

    /// Adds the pattern that `applier_str` spells as a right-hand side, or
    /// hands on the parser's complaint.
    pub fn with_applier_str(self, applier_str: &str) -> (extended: Result<Self, ParseError>)
        ensures
            match P::spec_parse(applier_str@) {
                Ok(pattern) => extended is Ok && extended->Ok_0@.adds_applier(
                    self@,
                    |g: G::V, mapping: Bindings| instance::<G, P>(pattern, g, mapping),
                ),
                Err(complaint) => extended is Err && extended->Err_0@ == complaint,
            },
    {
        match P::parse(applier_str) {
            Ok(pattern) => Ok(self.with_applier(pattern)),
            Err(complaint) => Err(complaint),
        }
    }

    /// Adds the left-hand side that `pattern_str` spells, which must be a
    /// pattern.
    pub fn p(self, pattern_str: &str) -> (builder: Self)
        requires
            P::spec_parse(pattern_str@) is Ok,
        ensures
            builder@ == self@.with_pattern(P::spec_parse(pattern_str@)->Ok_0),
    {
        match self.with_pattern_str(pattern_str) {
            Ok(builder) => builder,
            Err(_) => unreached(),
        }
    }

    /// Adds the pattern that `applier_str` spells as a right-hand side; it
    /// must be a pattern.
    pub fn a(self, applier_str: &str) -> (builder: Self)
        requires
            P::spec_parse(applier_str@) is Ok,
        ensures
            builder@.adds_applier(
                self@,
                |g: G::V, mapping: Bindings|
                    instance::<G, P>(P::spec_parse(applier_str@)->Ok_0, g, mapping),
            ),
    {
        match self.with_applier_str(applier_str) {
            Ok(builder) => builder,
            Err(_) => unreached(),
        }
    }
}

/// Unions each of an applier's results with the matched class, unless it is
/// that class, and records the leaders.  Says whether the unions have come to
/// outnumber `limit`, at which point it leaves the remaining results alone.
#[verifier::loop_isolation(false)]
fn union_results<G: EGraph>(
    egraph: &mut G,
    applications: &mut Vec<Id>,
    eclass: Id,
    applied: &Vec<Id>,
    limit: usize,
) -> (stopped: bool)
    ensures
        progress(final(egraph)@, final(applications)@, stopped) == record_all::<G>(
            progress(old(egraph)@, old(applications)@, false),
            eclass,
            applied@,
            limit,
        ),
{
    let ghost begun = progress(egraph@, applications@, false);
    let mut i: usize = 0;
    assert(applied@.skip(0) =~= applied@);
    while i < applied.len()
        invariant
            i <= applied.len(),
            record_all::<G>(begun, eclass, applied@, limit) == record_all::<G>(
                progress(egraph@, applications@, false),
                eclass,
                applied@.skip(i as int),
                limit,
            ),
        decreases applied.len() - i,
    {
        let id = applied[i];
        let ghost rest = applied@.skip(i + 1);
        assert(applied@.skip(i as int).drop_first() =~= rest);
        if id != eclass {
            let leader = egraph.union(eclass, id);
            applications.push(leader);
            if applications.len() > limit {
                assert(record_all::<G>(
                    progress(egraph@, applications@, true),
                    eclass,
                    rest,
                    limit,
                ) == progress(egraph@, applications@, true));
                return true;
            }
        }
        i += 1;
    }
    false
}

impl<G: EGraph, P: Pattern<G>> Rewrite<G, P> {
    /// Checks the side conditions in order under `mapping`, up to the first
    /// that fails.
    #[verifier::loop_isolation(false)]
    fn check_conditions(&self, egraph: &mut G, mapping: &WildMap) -> (hold: bool)
        ensures
            (final(egraph)@, hold) == check_all::<G, P>(self@.conditions, old(egraph)@, mapping@),
    {
        let ghost begun = egraph@;
        let ghost all = self@.conditions;
        let mut i: usize = 0;
        assert(all.skip(0) =~= all);
        while i < self.conditions.len()
            invariant
                i <= self.conditions.len(),
                check_all::<G, P>(all, begun, mapping@) == check_all::<G, P>(
                    all.skip(i as int),
                    egraph@,
                    mapping@,
                ),
            decreases self.conditions.len() - i,
        {
            assert(all.skip(i as int).drop_first() =~= all.skip(i + 1));
            if !self.conditions[i].check(egraph, mapping) {
                return false;
            }
            i += 1;
        }
        true
    }

    /// Applies the rule to one mapping of a match in `eclass`: if the side
    /// conditions hold, every applier runs and its results are unioned with
    /// `eclass`.  Says whether the unions have come to outnumber the limit.
    #[verifier::loop_isolation(false)]
    fn apply_mapping(
        &self,
        egraph: &mut G,
        applications: &mut Vec<Id>,
        eclass: Id,
        mapping: &WildMap,
    ) -> (stopped: bool)
        ensures
            progress(final(egraph)@, final(applications)@, stopped) == run_mapping::<G, P>(
                progress(old(egraph)@, old(applications)@, false),
                self@.conditions,
                self@.appliers,
                eclass,
                mapping@,
                self.application_limit,
            ),
    {
        if !self.check_conditions(egraph, mapping) {
            return false;
        }
        let ghost checked = progress(egraph@, applications@, false);
        let ghost limit = self.application_limit;
        let mut i: usize = 0;
        assert(self.appliers@.skip(0) =~= self.appliers@);
        while i < self.appliers.len()
            invariant
                i <= self.appliers.len(),
                run_appliers::<G>(checked, self.appliers@, eclass, mapping@, limit)
                    == run_appliers::<G>(
                    progress(egraph@, applications@, false),
                    self.appliers@.skip(i as int),
                    eclass,
                    mapping@,
                    limit,
                ),
            decreases self.appliers.len() - i,
        {
            let ghost rest = self.appliers@.skip(i + 1);
            assert(self.appliers@.skip(i as int).drop_first() =~= rest);
            let applied = self.appliers[i].apply(egraph, mapping);
            if union_results(egraph, applications, eclass, &applied, self.application_limit) {
                assert(run_appliers::<G>(
                    progress(egraph@, applications@, true),
                    rest,
                    eclass,
                    mapping@,
                    limit,
                ) == progress(egraph@, applications@, true));
                return true;
            }
            i += 1;
        }
        false
    }

    /// Applies the rule to every mapping of one match, in order.  Says
    /// whether the unions have come to outnumber the limit.
    #[verifier::loop_isolation(false)]
    fn apply_match(
        &self,
        egraph: &mut G,
        applications: &mut Vec<Id>,
        ematch: &SearchMatches,
    ) -> (stopped: bool)
        ensures
            progress(final(egraph)@, final(applications)@, stopped) == run_match::<G, P>(
                progress(old(egraph)@, old(applications)@, false),
                self@.conditions,
                self@.appliers,
                ematch@,
                self.application_limit,
            ),
    {
        let ghost begun = progress(egraph@, applications@, false);
        let ghost limit = self.application_limit;
        let ghost eclass = ematch.eclass;
        let ghost mappings = ematch@.mappings;
        let mut i: usize = 0;
        assert(mappings.skip(0) =~= mappings);
        while i < ematch.mappings.len()
            invariant
                i <= ematch.mappings.len(),
                run_mappings::<G, P>(
                    begun,
                    self@.conditions,
                    self@.appliers,
                    eclass,
                    mappings,
                    limit,
                ) == run_mappings::<G, P>(
                    progress(egraph@, applications@, false),
                    self@.conditions,
                    self@.appliers,
                    eclass,
                    mappings.skip(i as int),
                    limit,
                ),
            decreases ematch.mappings.len() - i,
        {
            let ghost rest = mappings.skip(i + 1);
            assert(mappings.skip(i as int).drop_first() =~= rest);
            if self.apply_mapping(egraph, applications, ematch.eclass, &ematch.mappings[i]) {
                assert(run_mappings::<G, P>(
                    progress(egraph@, applications@, true),
                    self@.conditions,
                    self@.appliers,
                    eclass,
                    rest,
                    limit,
                ) == progress(egraph@, applications@, true));
                return true;
            }
            i += 1;
        }
        false
    }

    /// Searches the graph for every pattern of the rule, in order, and
    /// returns all matches: those of the first pattern, then those of the
    /// second, and so on.  A class that several patterns match appears once
    /// for each.
    #[verifier::loop_isolation(false)]
    pub fn search(&self, egraph: &G) -> (found: Vec<SearchMatches>)
        ensures
            matches_view(found@) == self@.search(egraph@),
    {
        let ghost all = self@.patterns;
        let mut found: Vec<SearchMatches> = Vec::new();
        let mut i: usize = 0;
        while i < self.patterns.len()
            invariant
                i <= self.patterns.len(),
                matches_view(found@) == search_all::<G, P>(all.take(i as int), egraph@),
            decreases self.patterns.len() - i,
        {
            let mut more = self.patterns[i].search(egraph);
            assert(all.take(i + 1).drop_last() =~= all.take(i as int));
            found.append(&mut more);
            i += 1;
        }
        assert(all.take(i as int) =~= all);
        found
    }

    /// Applies the rule to the matches, in order, and returns the leaders of
    /// the unions it made.
    ///
    /// For every mapping of every match whose side conditions hold, each
    /// applier runs, and each id it produces that is not the matched class
    /// is unioned with that class.  As soon as the unions outnumber the
    /// rule's application limit the call returns, so the result holds at most
    /// one leader more than the limit.
    #[verifier::loop_isolation(false)]
    pub fn apply(&self, egraph: &mut G, ematches: &[SearchMatches]) -> (applications: Vec<Id>)
        ensures
            final(egraph)@ == self@.apply(old(egraph)@, matches_view(ematches@)).graph,
            applications@ == self@.apply(old(egraph)@, matches_view(ematches@)).applications,
            applications@.len() <= self.application_limit + 1,
    {
        let ghost all = matches_view(ematches@);
        let ghost begun = egraph@;
        let ghost limit = self.application_limit;
        proof {
            law_limit_caps_applications(self@, begun, all);
        }
        let mut applications: Vec<Id> = Vec::new();
        let mut i: usize = 0;
        assert(all.skip(0) =~= all);
        while i < ematches.len()
            invariant
                i <= ematches.len(),
                self@.apply(begun, all) == run_matches::<G, P>(
                    progress(egraph@, applications@, false),
                    self@.conditions,
                    self@.appliers,
                    all.skip(i as int),
                    limit,
                ),
            decreases ematches.len() - i,
        {
            let ghost rest = all.skip(i + 1);
            assert(all.skip(i as int).drop_first() =~= rest);
            if self.apply_match(egraph, &mut applications, &ematches[i]) {
                assert(run_matches::<G, P>(
                    progress(egraph@, applications@, true),
                    self@.conditions,
                    self@.appliers,
                    rest,
                    limit,
                ) == progress(egraph@, applications@, true));
                return applications;
            }
            i += 1;
        }
        applications
    }

    /// Searches the graph and applies the rule to what was found.
    pub fn run(&self, egraph: &mut G) -> (applications: Vec<Id>)
        ensures
            final(egraph)@ == self@.apply(old(egraph)@, self@.search(old(egraph)@)).graph,
            applications@ == self@.apply(old(egraph)@, self@.search(old(egraph)@)).applications,
            applications@.len() <= self.application_limit + 1,
    {
        let found = self.search(egraph);
        self.apply(egraph, found.as_slice())
    }
}

} // verus!
