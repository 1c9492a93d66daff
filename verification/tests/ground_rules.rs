//! Rules between classes of a partition: ground equations.

use eqsat_rewrite::{
    rw, Applier, ClassRef, Condition, EGraph, Id, Partition, Pattern, Rewrite, SearchMatches,
    WildMap,
};

fn class(id: Id) -> ClassRef {
    ClassRef { id }
}

fn partition(count: usize) -> Partition {
    let mut classes = Partition::new();
    for _ in 0..count {
        classes.fresh();
    }
    classes
}

fn leaders(classes: &Partition) -> Vec<Id> {
    (0..classes.len() as Id).map(|id| classes.find(id)).collect()
}

fn matched(eclass: Id) -> SearchMatches {
    SearchMatches { eclass, mappings: vec![WildMap::new()] }
}

struct Constant(Vec<Id>);

impl Applier<Partition> for Constant {
    fn apply(&self, _egraph: &mut Partition, _mapping: &WildMap) -> Vec<Id> {
        self.0.clone()
    }
}

/// Opens a new class on every call and produces it.
struct Fresh;

impl Applier<Partition> for Fresh {
    fn apply(&self, egraph: &mut Partition, _mapping: &WildMap) -> Vec<Id> {
        vec![egraph.fresh().unwrap()]
    }
}

#[test]
fn new_partition_has_no_classes() {
    let classes = Partition::new();
    assert_eq!(classes.len(), 0);
    assert_eq!(classes.find(0), 0);
    assert_eq!(classes.find(9), 9);
}

#[test]
fn fresh_classes_lead_themselves() {
    let mut classes = Partition::new();
    assert_eq!(classes.fresh(), Some(0));
    assert_eq!(classes.fresh(), Some(1));
    assert_eq!(classes.fresh(), Some(2));
    assert_eq!(classes.len(), 3);
    assert_eq!(leaders(&classes), vec![0, 1, 2]);
}

#[test]
fn union_is_led_by_the_smaller_leader() {
    let mut classes = partition(5);
    assert_eq!(classes.union(3, 1), 1);
    assert_eq!(leaders(&classes), vec![0, 1, 2, 1, 4]);
    assert_eq!(classes.union(4, 3), 1);
    assert_eq!(leaders(&classes), vec![0, 1, 2, 1, 1]);
    assert_eq!(classes.union(0, 4), 0);
    assert_eq!(leaders(&classes), vec![0, 0, 2, 0, 0]);
    assert_eq!(classes.union(2, 2), 2);
    assert_eq!(leaders(&classes), vec![0, 0, 2, 0, 0]);
}

#[test]
fn union_within_a_class_changes_nothing() {
    let mut classes = partition(3);
    classes.union(1, 2);
    let before = leaders(&classes);
    assert_eq!(classes.union(2, 1), 1);
    assert_eq!(leaders(&classes), before);
}

#[test]
fn union_with_an_unknown_id_changes_nothing() {
    let mut classes = partition(3);
    assert_eq!(classes.union(7, 1), 7);
    assert_eq!(classes.union(1, 7), 1);
    assert_eq!(classes.union(8, 9), 8);
    assert_eq!(leaders(&classes), vec![0, 1, 2]);
}

#[test]
fn class_pattern_matches_its_class() {
    let mut classes = partition(4);
    classes.union(1, 3);

    let found = class(3).search(&classes);
    assert_eq!(found.len(), 1);
    assert_eq!(found[0].eclass, 1);
    assert_eq!(found[0].mappings.len(), 1);
    assert_eq!(found[0].mappings[0].get("?a"), None);

    assert!(class(4).search(&classes).is_empty());
}

#[test]
fn class_pattern_instantiates_to_the_leader() {
    let mut classes = partition(4);
    classes.union(1, 3);
    let before = leaders(&classes);
    assert_eq!(class(3).subst_and_find(&mut classes, &WildMap::new()), 1);
    assert_eq!(class(2).subst_and_find(&mut classes, &WildMap::new()), 2);
    assert_eq!(class(9).subst_and_find(&mut classes, &WildMap::new()), 9);
    assert_eq!(leaders(&classes), before);
}

#[test]
fn pattern_as_applier_yields_its_instance() {
    let mut classes = partition(4);
    classes.union(1, 3);
    assert_eq!(Applier::apply(&class(3), &mut classes, &WildMap::new()), vec![1]);
}

#[test]
fn condition_compares_leaders() {
    let mut classes = partition(4);
    classes.union(1, 3);
    let bindings = WildMap::new();
    assert!(Condition { lhs: class(1), rhs: class(3) }.check(&mut classes, &bindings));
    assert!(Condition { lhs: class(2), rhs: class(2) }.check(&mut classes, &bindings));
    assert!(!Condition { lhs: class(1), rhs: class(2) }.check(&mut classes, &bindings));
}

#[test]
fn equation_merges_two_classes() {
    let mut classes = partition(4);
    let rule: Rewrite<Partition, ClassRef> = rw("3 = 1").p("3").a("1").mk();

    assert_eq!(rule.run(&mut classes), vec![1]);
    assert_eq!(leaders(&classes), vec![0, 1, 2, 1]);
}

#[test]
fn equation_that_holds_already_yields_nothing() {
    let mut classes = partition(4);
    classes.union(1, 3);
    let rule: Rewrite<Partition, ClassRef> = rw("3 = 1").p("3").a("1").mk();

    assert_eq!(rule.run(&mut classes), vec![]);
    assert_eq!(leaders(&classes), vec![0, 1, 2, 1]);
}

#[test]
fn conditional_equation_waits_for_its_condition() {
    let mut classes = partition(5);
    let rule: Rewrite<Partition, ClassRef> = rw("3 = 4 => 2 = 1")
        .p("2")
        .a("1")
        .with_condition(Condition { lhs: class(3), rhs: class(4) })
        .mk();

    assert_eq!(rule.run(&mut classes), vec![]);
    assert_eq!(leaders(&classes), vec![0, 1, 2, 3, 4]);

    classes.union(3, 4);
    assert_eq!(rule.run(&mut classes), vec![1]);
    assert_eq!(leaders(&classes), vec![0, 1, 1, 3, 3]);
}

#[test]
fn every_condition_must_hold() {
    let mut classes = partition(6);
    classes.union(3, 4);
    let rule: Rewrite<Partition, ClassRef> = rw("guarded")
        .p("2")
        .a("1")
        .with_condition(Condition { lhs: class(3), rhs: class(4) })
        .with_condition(Condition { lhs: class(4), rhs: class(5) })
        .mk();

    assert_eq!(rule.run(&mut classes), vec![]);
    classes.union(5, 3);
    assert_eq!(rule.run(&mut classes), vec![1]);
}

#[test]
fn ground_matches_are_listed_pattern_by_pattern() {
    let mut classes = partition(4);
    classes.union(0, 2);
    let rule: Rewrite<Partition, ClassRef> = rw("many").p("2").p("9").p("1").p("0").a("0").mk();

    let found = rule.search(&classes);

    let found_classes: Vec<Id> = found.iter().map(|m| m.eclass).collect();
    assert_eq!(found_classes, vec![0, 1, 0]);
}

#[test]
fn unions_happen_in_the_order_of_the_walk() {
    let mut classes = partition(10);
    let rule: Rewrite<Partition, ClassRef> =
        rw("r").p("5").p("9").with_applier(Constant(vec![5, 6, 9, 2])).a("9").mk();

    let apps = rule.run(&mut classes);

    // For the match in 5: 5 itself is skipped, then 6, 9 and 2 join, and the pattern 9
    // instantiates to the leader 2.  For the match in 9: every result is new to the id 9.
    assert_eq!(apps, vec![5, 5, 2, 2, 2, 2, 2, 2]);
    assert_eq!(leaders(&classes), vec![0, 1, 2, 3, 4, 2, 2, 7, 8, 2]);
}

#[test]
fn one_leader_per_ground_match() {
    let mut classes = partition(3);
    let rule: Rewrite<Partition, ClassRef> = rw("grow").p("0").with_applier(Fresh).mk();
    let matches = vec![matched(0), matched(1), matched(2)];

    assert_eq!(rule.apply(&mut classes, &matches), vec![0, 1, 2]);
    assert_eq!(leaders(&classes), vec![0, 1, 2, 0, 1, 2]);
}

#[test]
fn constant_applier_of_the_matched_class_adds_nothing() {
    let mut classes = partition(3);
    let rule: Rewrite<Partition, ClassRef> = rw("same").p("1").with_applier(Constant(vec![1])).mk();
    let matches = vec![matched(1), matched(1)];

    assert_eq!(rule.apply(&mut classes, &matches), vec![]);
    assert_eq!(leaders(&classes), vec![0, 1, 2]);
}

#[test]
fn limit_of_three_returns_four() {
    let limit = 3;
    let mut classes = partition(limit + 5);
    let rule: Rewrite<Partition, ClassRef> =
        rw("grow").p("0").with_applier(Fresh).with_application_limit(limit).mk();
    let matches: Vec<SearchMatches> = (0..limit + 5).map(|id| matched(id as Id)).collect();

    let apps = rule.apply(&mut classes, &matches);

    assert_eq!(apps, vec![0, 1, 2, 3]);
    assert_eq!(classes.len(), (limit + 5) + (limit + 1));
    assert_eq!(leaders(&classes), vec![0, 1, 2, 3, 4, 5, 6, 7, 0, 1, 2, 3]);
}

#[test]
fn limit_cuts_the_result_of_a_higher_limit() {
    let matches: Vec<SearchMatches> = (0..6).map(matched).collect();
    let low: Rewrite<Partition, ClassRef> =
        rw("grow").p("0").with_applier(Fresh).with_application_limit(2).mk();
    let high: Rewrite<Partition, ClassRef> =
        rw("grow").p("0").with_applier(Fresh).with_application_limit(6).mk();
    let mut cut = partition(6);
    let mut whole = partition(6);

    let short = low.apply(&mut cut, &matches);
    let long = high.apply(&mut whole, &matches);

    assert_eq!(long, vec![0, 1, 2, 3, 4, 5]);
    assert_eq!(short, vec![0, 1, 2]);
}

#[test]
fn limit_that_is_reached_but_not_exceeded_stops_nothing() {
    let matches: Vec<SearchMatches> = (0..4).map(matched).collect();
    let rule: Rewrite<Partition, ClassRef> =
        rw("grow").p("0").with_applier(Fresh).with_application_limit(4).mk();
    let mut classes = partition(4);

    assert_eq!(rule.apply(&mut classes, &matches), vec![0, 1, 2, 3]);
    assert_eq!(classes.len(), 8);
}

#[test]
fn matches_after_the_limit_are_left_alone() {
    let rule: Rewrite<Partition, ClassRef> =
        rw("pairs").p("0").with_applier(Constant(vec![8])).with_application_limit(1).mk();
    let first: Vec<SearchMatches> = vec![matched(0), matched(1)];
    let all: Vec<SearchMatches> = vec![matched(0), matched(1), matched(2), matched(3)];
    let mut stopped = partition(9);
    let mut longer = partition(9);

    assert_eq!(rule.apply(&mut stopped, &first), vec![0, 0]);
    assert_eq!(rule.apply(&mut longer, &all), vec![0, 0]);
    assert_eq!(leaders(&stopped), leaders(&longer));
    assert_eq!(longer.find(2), 2);
    assert_eq!(longer.find(3), 3);
}

#[test]
fn reapplying_ground_matches_is_empty() {
    let mut classes = partition(4);
    let rule: Rewrite<Partition, ClassRef> = rw("1 = 3, 1 = 2").p("1").a("3").a("2").mk();
    let matches = rule.search(&classes);

    assert_eq!(rule.apply(&mut classes, &matches), vec![1, 1]);
    let saturated = leaders(&classes);
    assert_eq!(rule.apply(&mut classes, &matches), vec![]);
    assert_eq!(leaders(&classes), saturated);
}

#[test]
fn equations_keep_classes_and_equivalences() {
    let mut classes = partition(8);
    classes.union(0, 5);
    classes.union(6, 7);
    let before = leaders(&classes);
    let rule: Rewrite<Partition, ClassRef> =
        rw("mix").p("5").p("7").a("1").with_applier(Fresh).a("6").mk();

    rule.run(&mut classes);

    assert!(classes.len() >= before.len());
    for a in 0..before.len() {
        for b in 0..before.len() {
            if before[a] == before[b] {
                assert_eq!(classes.find(a as Id), classes.find(b as Id));
            }
        }
    }
}
