//! Rules at work on a small graph of equivalence classes.
//!
//! The graph and the pattern matcher below are deliberately plain: every
//! node opens a class of its own, a union rewrites the leader table at once,
//! and matching walks every class.

use eqsat_rewrite::{
    rw, Applier, Condition, EGraph, Id, ParseError, Pattern, Rewrite, SearchMatches, WildMap,
};

#[derive(Clone, Debug, PartialEq, Eq)]
struct Node {
    op: String,
    children: Vec<Id>,
}

#[derive(Default)]
struct Graph {
    nodes: Vec<Node>,
    leaders: Vec<Id>,
}

impl Graph {
    fn find(&self, id: Id) -> Id {
        self.leaders[id as usize]
    }

    fn canonical(&self, node: &Node) -> Node {
        Node {
            op: node.op.clone(),
            children: node.children.iter().map(|&c| self.find(c)).collect(),
        }
    }

    fn add(&mut self, op: &str, children: &[Id]) -> Id {
        let node = self.canonical(&Node { op: op.to_string(), children: children.to_vec() });
        for (i, known) in self.nodes.iter().enumerate() {
            if self.canonical(known) == node {
                return self.find(i as Id);
            }
        }
        let id = self.nodes.len() as Id;
        self.nodes.push(node);
        self.leaders.push(id);
        id
    }

    fn add_expr(&mut self, expr: &Pat) -> Id {
        match expr {
            Pat::Var(name) => panic!("{} is not a term", name),
            Pat::Node(op, children) => {
                let ids: Vec<Id> = children.iter().map(|c| self.add_expr(c)).collect();
                self.add(op, &ids)
            }
        }
    }

    fn rebuild(&mut self) {
        loop {
            let mut merged = false;
            for i in 0..self.nodes.len() {
                for j in i + 1..self.nodes.len() {
                    let same = self.canonical(&self.nodes[i]) == self.canonical(&self.nodes[j]);
                    if same && self.find(i as Id) != self.find(j as Id) {
                        self.union(i as Id, j as Id);
                        merged = true;
                    }
                }
            }
            if !merged {
                return;
            }
        }
    }

    fn classes(&self) -> Vec<Id> {
        (0..self.leaders.len() as Id).filter(|&id| self.find(id) == id).collect()
    }

    fn nodes_of(&self, class: Id) -> Vec<Node> {
        (0..self.nodes.len())
            .filter(|&i| self.find(i as Id) == class)
            .map(|i| self.nodes[i].clone())
            .collect()
    }

    fn equivs(&self, left: &Pat, right: &Pat) -> Vec<Id> {
        let mut found = Vec::new();
        for l in left.search(self) {
            for r in right.search(self) {
                if self.find(l.eclass) == self.find(r.eclass) {
                    found.push(l.eclass);
                }
            }
        }
        found
    }
}

impl EGraph for Graph {
    type V = ();

    fn union(&mut self, a: Id, b: Id) -> Id {
        let (a, b) = (self.find(a), self.find(b));
        let (keep, drop) = if a <= b { (a, b) } else { (b, a) };
        for leader in self.leaders.iter_mut() {
            if *leader == drop {
                *leader = keep;
            }
        }
        keep
    }
}

#[derive(Clone, Debug, PartialEq)]
enum Pat {
    Node(String, Vec<Pat>),
    Var(String),
}

fn node(op: &str, children: Vec<Pat>) -> Pat {
    Pat::Node(op.to_string(), children)
}

fn var(name: &str) -> Pat {
    Pat::Var(name.to_string())
}

fn read(tokens: &[String], at: &mut usize, text: &str) -> Result<Pat, ParseError> {
    let fail = || ParseError { message: format!("not a pattern: {}", text) };
    let token = tokens.get(*at).ok_or_else(fail)?.clone();
    *at += 1;
    if token == ")" {
        return Err(fail());
    }
    if token != "(" {
        return Ok(if token.starts_with('?') { Pat::Var(token) } else { Pat::Node(token, vec![]) });
    }
    let op = tokens.get(*at).ok_or_else(fail)?.clone();
    *at += 1;
    if op == "(" || op == ")" {
        return Err(fail());
    }
    let mut children = Vec::new();
    loop {
        if tokens.get(*at).ok_or_else(fail)? == ")" {
            *at += 1;
            return Ok(Pat::Node(op, children));
        }
        children.push(read(tokens, at, text)?);
    }
}

impl Pat {
    fn match_class(&self, graph: &Graph, class: Id, bound: WildMap) -> Vec<WildMap> {
        match self {
            Pat::Var(name) => {
                let mut bound = bound;
                let fresh = bound.insert(name, vec![class]);
                if fresh || graph.find(bound.get(name).unwrap()[0]) == class {
                    vec![bound]
                } else {
                    vec![]
                }
            }
            Pat::Node(op, children) => {
                let mut found = Vec::new();
                for candidate in graph.nodes_of(class) {
                    if candidate.op != *op || candidate.children.len() != children.len() {
                        continue;
                    }
                    let mut partial = vec![bound.clone()];
                    for (child, &id) in children.iter().zip(&candidate.children) {
                        partial = partial
                            .into_iter()
                            .flat_map(|b| child.match_class(graph, graph.find(id), b))
                            .collect();
                    }
                    found.extend(partial);
                }
                found
            }
        }
    }
}

impl Pattern<Graph> for Pat {
    type V = ();

    fn parse(text: &str) -> Result<Pat, ParseError> {
        let spaced = text.replace('(', " ( ").replace(')', " ) ");
        let tokens: Vec<String> = spaced.split_whitespace().map(str::to_string).collect();
        let mut at = 0;
        let pattern = read(&tokens, &mut at, text)?;
        if at == tokens.len() {
            Ok(pattern)
        } else {
            Err(ParseError { message: format!("not a pattern: {}", text) })
        }
    }

    fn search(&self, egraph: &Graph) -> Vec<SearchMatches> {
        let mut found = Vec::new();
        for class in egraph.classes() {
            let mappings = self.match_class(egraph, class, WildMap::new());
            if !mappings.is_empty() {
                found.push(SearchMatches { eclass: class, mappings });
            }
        }
        found
    }

    fn subst_and_find(&self, egraph: &mut Graph, mapping: &WildMap) -> Id {
        match self {
            Pat::Var(name) => egraph.find(mapping.get(name).unwrap()[0]),
            Pat::Node(op, children) => {
                let ids: Vec<Id> =
                    children.iter().map(|c| c.subst_and_find(egraph, mapping)).collect();
                egraph.add(op, &ids)
            }
        }
    }
}

/// Concatenates the operators of the classes bound to `?a` and `?b`.
struct Appender;

impl Applier<Graph> for Appender {
    fn apply(&self, egraph: &mut Graph, map: &WildMap) -> Vec<Id> {
        let a = egraph.nodes_of(egraph.find(map.get("?a").unwrap()[0]))[0].op.clone();
        let b = egraph.nodes_of(egraph.find(map.get("?b").unwrap()[0]))[0].op.clone();
        let s = format!("{}{}", a, b);
        vec![egraph.add(&s, &[])]
    }
}

/// Produces a fresh leaf on every call.
struct Fresh;

impl Applier<Graph> for Fresh {
    fn apply(&self, egraph: &mut Graph, _map: &WildMap) -> Vec<Id> {
        let name = format!("fresh{}", egraph.nodes.len());
        vec![egraph.add(&name, &[])]
    }
}

/// Produces the class bound to `?a` twice and a new leaf in between.
struct Sandwich;

impl Applier<Graph> for Sandwich {
    fn apply(&self, egraph: &mut Graph, map: &WildMap) -> Vec<Id> {
        let matched = map.get("?a").unwrap()[0];
        let name = format!("fresh{}", egraph.nodes.len());
        vec![matched, egraph.add(&name, &[]), matched]
    }
}

/// Produces nothing.
struct Silent;

impl Applier<Graph> for Silent {
    fn apply(&self, _egraph: &mut Graph, _map: &WildMap) -> Vec<Id> {
        vec![]
    }
}

fn mul_to_shift() -> Rewrite<Graph, Pat> {
    rw("mul_to_shift")
        .with_pattern(node("*", vec![var("?a"), var("?b")]))
        .with_applier(node(">>", vec![var("?a"), node("log2", vec![var("?b")])]))
        .with_condition(Condition {
            lhs: node("is-power2", vec![var("?b")]),
            rhs: node("TRUE", vec![]),
        })
        .mk()
}

fn leaves(egraph: &mut Graph, count: usize) -> Vec<Id> {
    (0..count).map(|i| egraph.add(&format!("leaf{}", i), &[])).collect()
}

#[test]
fn conditional_rewrite() {
    let mut egraph = Graph::default();

    let x = egraph.add("x", &[]);
    let y = egraph.add("2", &[]);
    let mul = egraph.add("*", &[x, y]);

    let true_id = egraph.add("TRUE", &[]);

    let mul_to_shift = mul_to_shift();

    println!("rewrite shouldn't do anything yet");
    egraph.rebuild();
    let apps = mul_to_shift.run(&mut egraph);
    assert_eq!(apps, vec![]);

    println!("Add the needed equality");
    let two_ispow2 = egraph.add("is-power2", &[y]);
    egraph.union(two_ispow2, true_id);

    println!("Should fire now");
    egraph.rebuild();
    let apps = mul_to_shift.run(&mut egraph);
    assert_eq!(apps, vec![mul]);
}

#[test]
fn fn_rewrite() {
    let mut egraph = Graph::default();

    let start = Pat::parse("(+ x y)").unwrap();
    let goal = Pat::parse("xy").unwrap();

    let root = egraph.add_expr(&start);

    let fold_add = rw("fold_add")
        .with_pattern(node("+", vec![var("?a"), var("?b")]))
        .with_applier(Appender)
        .mk();

    fold_add.run(&mut egraph);
    assert_eq!(egraph.equivs(&start, &goal), vec![root]);
}

#[test]
fn failed_condition_still_adds_its_terms() {
    let mut egraph = Graph::default();
    let x = egraph.add("x", &[]);
    let two = egraph.add("2", &[]);
    egraph.add("*", &[x, two]);
    egraph.add("TRUE", &[]);
    let before = egraph.nodes.len();

    assert_eq!(mul_to_shift().run(&mut egraph), vec![]);

    assert_eq!(egraph.nodes.len(), before + 1);
    assert_eq!(egraph.nodes[before], Node { op: "is-power2".to_string(), children: vec![two] });
}

#[test]
fn conditions_after_the_first_failure_are_not_checked() {
    let mut egraph = Graph::default();
    let x = egraph.add("x", &[]);
    let rule: Rewrite<Graph, Pat> = rw("guarded")
        .p("x")
        .with_applier(Fresh)
        .with_condition(Condition { lhs: node("p", vec![]), rhs: node("q", vec![]) })
        .with_condition(Condition { lhs: node("r", vec![]), rhs: node("s", vec![]) })
        .mk();

    assert_eq!(rule.run(&mut egraph), vec![]);

    let ops: Vec<&str> = egraph.nodes.iter().map(|n| n.op.as_str()).collect();
    assert_eq!(ops, vec!["x", "p", "q"]);
    assert_eq!(egraph.find(x), x);
}

#[test]
fn all_conditions_must_hold() {
    let mut egraph = Graph::default();
    let x = egraph.add("x", &[]);
    let p = egraph.add("p", &[]);
    let q = egraph.add("q", &[]);
    egraph.union(p, q);
    let rule: Rewrite<Graph, Pat> = rw("guarded")
        .p("x")
        .with_applier(Fresh)
        .with_condition(Condition { lhs: node("p", vec![]), rhs: node("q", vec![]) })
        .with_condition(Condition { lhs: node("r", vec![]), rhs: node("s", vec![]) })
        .mk();

    assert_eq!(rule.run(&mut egraph), vec![]);

    let r = egraph.add("r", &[]);
    let s = egraph.add("s", &[]);
    egraph.union(r, s);
    assert_eq!(rule.run(&mut egraph), vec![x]);
}

#[test]
fn one_leader_per_match() {
    let mut egraph = Graph::default();
    let ids = leaves(&mut egraph, 3);
    let rule: Rewrite<Graph, Pat> = rw("grow").p("?a").with_applier(Fresh).mk();

    let matches = rule.search(&egraph);
    assert_eq!(matches.len(), 3);
    let apps = rule.apply(&mut egraph, &matches);

    assert_eq!(apps, ids);
    assert_eq!(egraph.nodes.len(), 6);
    for (i, &id) in ids.iter().enumerate() {
        assert_eq!(egraph.find(3 + i as Id), id);
    }
}

#[test]
fn applier_that_returns_the_matched_class_adds_nothing() {
    let mut egraph = Graph::default();
    leaves(&mut egraph, 3);
    let rule: Rewrite<Graph, Pat> = rw("same").p("?a").a("?a").mk();

    let matches = rule.search(&egraph);
    assert_eq!(matches.len(), 3);
    assert_eq!(rule.apply(&mut egraph, &matches), vec![]);
    assert_eq!(egraph.classes().len(), 3);
}

#[test]
fn only_results_that_differ_from_the_class_are_unioned() {
    let mut egraph = Graph::default();
    let x = egraph.add("x", &[]);
    let rule: Rewrite<Graph, Pat> = rw("sandwich").p("?a").with_applier(Sandwich).mk();

    assert_eq!(rule.run(&mut egraph), vec![x]);
    assert_eq!(egraph.nodes.len(), 2);
    assert_eq!(egraph.find(1), x);
}

#[test]
fn applier_without_results_changes_nothing() {
    let mut egraph = Graph::default();
    leaves(&mut egraph, 2);
    let rule: Rewrite<Graph, Pat> = rw("silent").p("?a").with_applier(Silent).mk();

    assert_eq!(rule.run(&mut egraph), vec![]);
    assert_eq!(egraph.classes(), vec![0, 1]);
}

#[test]
fn every_applier_runs_in_order() {
    let mut egraph = Graph::default();
    let x = egraph.add("x", &[]);
    let rule: Rewrite<Graph, Pat> =
        rw("both").p("x").with_applier(Fresh).a("(f x)").with_applier(Silent).mk();

    assert_eq!(rule.run(&mut egraph), vec![x, x]);
    let ops: Vec<&str> = egraph.nodes.iter().map(|n| n.op.as_str()).collect();
    assert_eq!(ops, vec!["x", "fresh1", "f"]);
    assert_eq!(egraph.classes(), vec![x]);
}

#[test]
fn limit_allows_one_application_more() {
    let limit = 3;
    let mut egraph = Graph::default();
    let ids = leaves(&mut egraph, limit + 5);
    let rule: Rewrite<Graph, Pat> =
        rw("grow").p("?a").with_applier(Fresh).with_application_limit(limit).mk();

    let matches = rule.search(&egraph);
    assert_eq!(matches.len(), limit + 5);
    let apps = rule.apply(&mut egraph, &matches);

    assert_eq!(apps.len(), limit + 1);
    assert_eq!(apps, ids[..limit + 1].to_vec());
    assert_eq!(egraph.nodes.len(), (limit + 5) + (limit + 1));
    assert_eq!(egraph.classes(), ids);
}

#[test]
fn limit_that_is_not_exceeded_changes_nothing() {
    let mut limited = Graph::default();
    let mut free = Graph::default();
    leaves(&mut limited, 4);
    leaves(&mut free, 4);
    let at_limit: Rewrite<Graph, Pat> =
        rw("grow").p("?a").with_applier(Fresh).with_application_limit(4).mk();
    let unlimited: Rewrite<Graph, Pat> = rw("grow").p("?a").with_applier(Fresh).mk();

    let capped = at_limit.run(&mut limited);
    let all = unlimited.run(&mut free);

    assert_eq!(capped.len(), 4);
    assert_eq!(capped, all);
    assert_eq!(limited.nodes, free.nodes);
    assert_eq!(limited.leaders, free.leaders);
}

#[test]
fn lower_limit_returns_a_prefix() {
    let mut low = Graph::default();
    let mut high = Graph::default();
    leaves(&mut low, 6);
    leaves(&mut high, 6);
    let cut: Rewrite<Graph, Pat> =
        rw("grow").p("?a").with_applier(Fresh).with_application_limit(2).mk();
    let whole: Rewrite<Graph, Pat> =
        rw("grow").p("?a").with_applier(Fresh).with_application_limit(100).mk();

    let short = cut.run(&mut low);
    let long = whole.run(&mut high);

    assert_eq!(long.len(), 6);
    assert_eq!(short, long[..3].to_vec());
}

#[test]
fn limit_of_one_stops_after_two() {
    let mut egraph = Graph::default();
    leaves(&mut egraph, 5);
    let rule: Rewrite<Graph, Pat> =
        rw("grow").p("?a").with_applier(Fresh).with_application_limit(1).mk();

    assert_eq!(rule.run(&mut egraph), vec![0, 1]);
}

#[test]
fn limit_stops_in_the_middle_of_a_match() {
    let mut egraph = Graph::default();
    let x = egraph.add("x", &[]);
    let rule: Rewrite<Graph, Pat> = rw("many")
        .p("x")
        .with_applier(Fresh)
        .with_applier(Fresh)
        .with_applier(Fresh)
        .with_applier(Fresh)
        .with_application_limit(1)
        .mk();

    assert_eq!(rule.run(&mut egraph), vec![x, x]);
    assert_eq!(egraph.nodes.len(), 3);
}

#[test]
fn second_application_of_the_same_matches_is_empty() {
    let mut egraph = Graph::default();
    let x = egraph.add("x", &[]);
    let y = egraph.add("2", &[]);
    let mul = egraph.add("*", &[x, y]);
    let true_id = egraph.add("TRUE", &[]);
    let two_ispow2 = egraph.add("is-power2", &[y]);
    egraph.union(two_ispow2, true_id);
    egraph.rebuild();
    let rule = mul_to_shift();

    let matches = rule.search(&egraph);
    assert_eq!(rule.apply(&mut egraph, &matches), vec![mul]);
    let nodes = egraph.nodes.clone();
    let leaders = egraph.leaders.clone();

    assert_eq!(rule.apply(&mut egraph, &matches), vec![]);
    assert_eq!(egraph.nodes, nodes);
    assert_eq!(egraph.leaders, leaders);
}

#[test]
fn application_keeps_classes_and_equivalences() {
    let mut egraph = Graph::default();
    let start = Pat::parse("(+ (* x 2) (* y 2))").unwrap();
    egraph.add_expr(&start);
    let two = egraph.add("2", &[]);
    let pow = egraph.add("is-power2", &[two]);
    let truth = egraph.add("TRUE", &[]);
    egraph.union(pow, truth);
    egraph.rebuild();
    let ids_before = egraph.leaders.len() as Id;
    let leaders_before = egraph.leaders.clone();

    let apps = mul_to_shift().run(&mut egraph);
    assert_eq!(apps.len(), 2);

    assert!(egraph.leaders.len() as Id >= ids_before);
    for a in 0..ids_before {
        for b in 0..ids_before {
            if leaders_before[a as usize] == leaders_before[b as usize] {
                assert_eq!(egraph.find(a), egraph.find(b));
            }
        }
    }
    for leader in apps {
        assert!(leader < ids_before);
    }
}

#[test]
fn search_lists_matches_pattern_by_pattern() {
    let mut egraph = Graph::default();
    let x = egraph.add("x", &[]);
    let y = egraph.add("y", &[]);
    let sum = egraph.add("+", &[x, y]);
    let rule: Rewrite<Graph, Pat> =
        rw("twice").p("(+ ?a ?b)").p("y").p("(+ x ?c)").with_applier(Silent).mk();

    let found = rule.search(&egraph);

    let classes: Vec<Id> = found.iter().map(|m| m.eclass).collect();
    assert_eq!(classes, vec![sum, y, sum]);
    assert_eq!(found[0].mappings.len(), 1);
    assert_eq!(found[0].mappings[0].get("?a"), Some(&vec![x]));
    assert_eq!(found[0].mappings[0].get("?b"), Some(&vec![y]));
    assert_eq!(found[1].mappings[0].get("?a"), None);
    assert_eq!(found[2].mappings[0].get("?c"), Some(&vec![y]));
}

#[test]
fn search_finds_nothing_in_an_empty_graph() {
    let egraph = Graph::default();
    let rule: Rewrite<Graph, Pat> = rw("any").p("?a").a("?a").mk();
    assert!(rule.search(&egraph).is_empty());
}

#[test]
fn apply_to_no_matches_returns_nothing() {
    let mut egraph = Graph::default();
    leaves(&mut egraph, 2);
    let rule: Rewrite<Graph, Pat> = rw("grow").p("?a").with_applier(Fresh).mk();
    assert_eq!(rule.apply(&mut egraph, &[]), vec![]);
    assert_eq!(egraph.nodes.len(), 2);
}

#[test]
fn match_without_mappings_is_skipped() {
    let mut egraph = Graph::default();
    let ids = leaves(&mut egraph, 2);
    let rule: Rewrite<Graph, Pat> = rw("grow").p("?a").with_applier(Fresh).mk();
    let mut matches = rule.search(&egraph);
    matches[0].mappings.clear();

    assert_eq!(rule.apply(&mut egraph, &matches), vec![ids[1]]);
}

#[test]
fn every_mapping_of_a_match_is_applied() {
    let mut egraph = Graph::default();
    let x = egraph.add("x", &[]);
    let rule: Rewrite<Graph, Pat> = rw("grow").p("?a").with_applier(Fresh).mk();
    let mut matches = rule.search(&egraph);
    let again = matches[0].mappings[0].clone();
    matches[0].mappings.push(again);

    assert_eq!(rule.apply(&mut egraph, &matches), vec![x, x]);
    assert_eq!(egraph.nodes.len(), 3);
}

#[test]
fn pattern_text_becomes_pattern_and_applier() {
    let mut egraph = Graph::default();
    let x = egraph.add("x", &[]);
    let builder = rw::<Graph, Pat>("wrap").with_pattern_str("x").unwrap();
    let rule = builder.with_applier_str("(f x)").unwrap().mk();

    assert_eq!(rule.patterns, vec![node("x", vec![])]);
    assert_eq!(rule.appliers.len(), 1);
    assert_eq!(rule.run(&mut egraph), vec![x]);
    assert_eq!(egraph.nodes[1], Node { op: "f".to_string(), children: vec![x] });
}

#[test]
fn malformed_text_is_reported_by_the_parser() {
    let complaint = ParseError { message: "not a pattern: (+ x".to_string() };
    assert_eq!(Pat::parse("(+ x").unwrap_err(), complaint);

    let as_pattern = rw::<Graph, Pat>("broken").with_pattern_str("(+ x");
    assert_eq!(as_pattern.err(), Some(complaint.clone()));

    let as_applier = rw::<Graph, Pat>("broken").with_applier_str("(+ x");
    assert_eq!(as_applier.err(), Some(complaint));
}
