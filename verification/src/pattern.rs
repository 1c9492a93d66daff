//! Patterns, and the data that passes between the pattern matcher and rules.

use vstd::prelude::*;
use vstd::string::StringExecFns;
use crate::graph::{EGraph, Id};

verus! {

/// The model of a [`WildMap`]: the ids bound to each variable name.
pub type Bindings = Map<Seq<char>, Seq<Id>>;

/// The bindings of one match: each pattern variable with the ids it matched.
///
/// A variable is bound at most once; the first binding stands.
#[derive(Debug, Clone)]
pub struct WildMap {
    entries: Vec<(String, Vec<Id>)>,
}

impl View for WildMap {
    type V = Bindings;

    closed spec fn view(&self) -> Bindings {
        bindings(self.entries@)
    }
}

/// The map that a list of bindings stands for.
spec fn bindings(entries: Seq<(String, Vec<Id>)>) -> Bindings {
    Map::new(
        |name: Seq<char>| position(entries, name) < entries.len(),
        |name: Seq<char>| entries[position(entries, name)].1@,
    )
}

/// The index of the first binding of `name`, or the length of `entries` if
/// there is none.
spec fn position(entries: Seq<(String, Vec<Id>)>, name: Seq<char>) -> int
    decreases entries.len(),
{
    if entries.len() == 0 {
        0
    } else if entries[0].0@ == name {
        0
    } else {
        1 + position(entries.drop_first(), name)
    }
}

/// The first binding of `name` lies within the list or at its end, it
/// binds `name` if it lies within, and nothing before it does.
proof fn lemma_position_bounds(entries: Seq<(String, Vec<Id>)>, name: Seq<char>)
    ensures
        0 <= position(entries, name) <= entries.len(),
        position(entries, name) < entries.len() ==> entries[position(entries, name)].0@ == name,
        forall|i: int| 0 <= i < position(entries, name) ==> (#[trigger] entries[i]).0@ != name,
    decreases entries.len(),
{
    if entries.len() > 0 && entries[0].0@ != name {
        let rest = entries.drop_first();
        lemma_position_bounds(rest, name);
        assert forall|i: int| 0 <= i < position(entries, name) implies (#[trigger] entries[i]).0@
            != name by {
            if i > 0 {
                assert(entries[i] == rest[i - 1]);
            }
        }
    }
}

/// The first index at which `name` is bound is the only index below which it
/// is not.
proof fn lemma_position_is(entries: Seq<(String, Vec<Id>)>, name: Seq<char>, at: int)
    requires
        0 <= at <= entries.len(),
        forall|i: int| 0 <= i < at ==> (#[trigger] entries[i]).0@ != name,
        at < entries.len() ==> entries[at].0@ == name,
    ensures
        position(entries, name) == at,
{
    lemma_position_bounds(entries, name);
}

impl WildMap {
    /// A mapping that binds nothing.
    pub fn new() -> (mapping: WildMap)
        ensures
            mapping@ == Bindings::empty(),
    {
        WildMap { entries: Vec::new() }
    }

    /// The ids bound to `name`, if it is bound.
    pub fn get(&self, name: &str) -> (found: Option<&Vec<Id>>)
        ensures
            match found {
                Some(ids) => self@.contains_key(name@) && ids@ == self@[name@],
                None => !self@.contains_key(name@),
            },
    {
        let key = String::from_str(name);
        let mut i: usize = 0;
        while i < self.entries.len()
            invariant
                0 <= i <= self.entries.len(),
                key@ == name@,
                forall|k: int| 0 <= k < i ==> (#[trigger] self.entries@[k]).0@ != name@,
            decreases self.entries.len() - i,
        {
            if self.entries[i].0 == key {
                proof {
                    lemma_position_is(self.entries@, name@, i as int);
                }
                return Some(&self.entries[i].1);
            }
            i += 1;
        }
        proof {
            lemma_position_is(self.entries@, name@, i as int);
        }
        None
    }

    /// Binds `name` to `ids` unless `name` is already bound, and says whether
    /// it did.
    pub fn insert(&mut self, name: &str, ids: Vec<Id>) -> (fresh: bool)
        ensures
            fresh == !old(self)@.contains_key(name@),
            fresh ==> final(self)@ == old(self)@.insert(name@, ids@),
            !fresh ==> final(self)@ == old(self)@,
    {
        if self.get(name).is_some() {
            return false;
        }
        let key = String::from_str(name);
        let ghost before = self.entries@;
        self.entries.push((key, ids));
        proof {
            let after = self.entries@;
            assert forall|other: Seq<char>| position(after, other) == (if other != name@
                && position(before, other) == before.len() {
                after.len() as int
            } else {
                position(before, other)
            }) by {
                lemma_position_bounds(before, other);
                let at = if other != name@ && position(before, other) == before.len() {
                    after.len() as int
                } else {
                    position(before, other)
                };
                lemma_position_is(after, other, at);
            }
            lemma_position_bounds(before, name@);
            assert(bindings(after) =~= bindings(before).insert(name@, ids@)) by {
                assert forall|other: Seq<char>| #[trigger]
                    bindings(after).contains_key(other) implies bindings(after)[other]
                    == bindings(before).insert(name@, ids@)[other] by {
                    lemma_position_bounds(before, other);
                }
            }
        }
        true
    }
}

/// One matched class, with every way the pattern matched it.
#[derive(Debug, Clone)]
pub struct SearchMatches {
    /// The class in which the pattern was found.
    pub eclass: Id,
    /// The bindings of each match in that class.
    pub mappings: Vec<WildMap>,
}

/// The model of a [`SearchMatches`].
pub struct SearchMatchesView {
    pub eclass: Id,
    pub mappings: Seq<Bindings>,
}

impl View for SearchMatches {
    type V = SearchMatchesView;

    open spec fn view(&self) -> SearchMatchesView {
        SearchMatchesView {
            eclass: self.eclass,
            mappings: self.mappings@.map_values(|mapping: WildMap| mapping@),
        }
    }
}

/// The models of a list of matches, in order.
pub open spec fn matches_view(found: Seq<SearchMatches>) -> Seq<SearchMatchesView> {
    found.map_values(|one: SearchMatches| one@)
}

/// Says why a text is not a pattern.
#[derive(Debug, Clone, PartialEq, Eq)]
pub struct ParseError {
    /// The complaint, which quotes the offending text.
    pub message: String,
}

impl View for ParseError {
    type V = Seq<char>;

    open spec fn view(&self) -> Seq<char> {
        self.message@
    }
}

/// A term template with variables, which can be searched for in a graph and
/// instantiated in it.
///
/// Matching and instantiation are the pattern matcher's business, and so is
/// the mathematical model `V` of a pattern.  The rule layer relies on each
/// operation being a total function of the models of the pattern, the graph
/// and the bindings; the `spec_` functions name those functions.  Their
/// default bodies say nothing about their values: an implementation that is
/// to be verified gives its own.
pub trait Pattern<G: EGraph>: Sized {
    /// The mathematical model of a pattern.
    type V;

    /// The model of this pattern.
    open spec fn view(&self) -> Self::V {
        arbitrary()
    }

    /// What parsing `text` gives: a pattern, or the complaint about the text.
    open spec fn spec_parse(text: Seq<char>) -> Result<Self::V, Seq<char>> {
        arbitrary()
    }

    /// The matches of `pattern` in the graph `g`.
    open spec fn spec_search(pattern: Self::V, g: G::V) -> Seq<SearchMatchesView> {
        arbitrary()
    }

    /// The graph after `pattern` has been instantiated in `g` under
    /// `mapping`, and the canonical id of the class that holds the instance.
    open spec fn spec_subst_and_find(pattern: Self::V, g: G::V, mapping: Bindings) -> (G::V, Id) {
        arbitrary()
    }

    /// Reads a pattern from its textual form.
    fn parse(text: &str) -> (parsed: Result<Self, ParseError>)
        ensures
            match parsed {
                Ok(pattern) => Self::spec_parse(text@) == Ok::<Self::V, Seq<char>>(pattern@),
                Err(complaint) => Self::spec_parse(text@) == Err::<Self::V, Seq<char>>(complaint@),
            },
    ;

    /// Finds every match of this pattern in the graph.
    fn search(&self, egraph: &G) -> (found: Vec<SearchMatches>)
        ensures
            matches_view(found@) == Self::spec_search(self@, egraph@),
    ;

    /// Instantiates this pattern under `mapping`, adding to the graph
    /// whatever part of the instance is missing, and returns the canonical id
    /// of its class.
    fn subst_and_find(&self, egraph: &mut G, mapping: &WildMap) -> (id: Id)
        ensures
            (final(egraph)@, id) == Self::spec_subst_and_find(self@, old(egraph)@, mapping@),
    ;
}

} // verus!
