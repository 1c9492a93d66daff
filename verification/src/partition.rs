//! The smallest graph of equivalence classes: classes without terms.
//!
//! A [`Partition`] knows which ids are equivalent and nothing else, and a
//! [`ClassRef`] is the pattern that stands for the class of one id.  Rules
//! over the two are ground equations, possibly conditional: "if 3 and 4 are
//! equal, then so are 1 and 2".  They are enough to try rules and appliers
//! on, and they show that what [`EGraph`] and [`Pattern`] ask of an
//! implementation can be proved of one.

use vstd::prelude::*;
use vstd::string::{StrSliceExecFns, StringExecFns};
use crate::graph::{EGraph, Id};
use crate::laws::law_apply_keeps_what_its_parts_keep;
use crate::pattern::{
    Bindings, ParseError, Pattern, SearchMatches, SearchMatchesView, WildMap,
};
use crate::rewrite::RuleView;

verus! {

/// Whether `id` names a class of the partition `g`.
pub open spec fn known(g: Seq<Id>, id: Id) -> bool {
    id < g.len()
}

/// The leader of the class of `id` in `g`.  An id that names no class leads
/// itself.
pub open spec fn leader_of(g: Seq<Id>, id: Id) -> Id {
    if known(g, id) {
        g[id as int]
    } else {
        id
    }
}

/// Whether `a` and `b` are in the same class of `g`.
pub open spec fn same_class(g: Seq<Id>, a: Id, b: Id) -> bool {
    leader_of(g, a) == leader_of(g, b)
}

/// Whether `g` is a partition: every id's leader is a known id that leads
/// itself.
pub open spec fn well_formed(g: Seq<Id>) -> bool {
    &&& g.len() <= u32::MAX
    &&& forall|i: int| 0 <= i < g.len() ==> known(g, #[trigger] g[i]) && g[g[i] as int] == g[i]
}

/// The partition `g` after the class led by `drop` has joined the class led
/// by `keep`.
pub open spec fn joined(g: Seq<Id>, keep: Id, drop: Id) -> Seq<Id> {
    g.map_values(
        |leader: Id|
            if leader == drop {
                keep
            } else {
                leader
            },
    )
}

/// Whether the partition `later` has every class of `earlier` and keeps
/// every equivalence of `earlier`.
pub open spec fn coarsens(earlier: Seq<Id>, later: Seq<Id>) -> bool {
    &&& earlier.len() <= later.len()
    &&& forall|a: Id, b: Id|
        known(earlier, a) && known(earlier, b) && #[trigger] same_class(earlier, a, b)
            ==> #[trigger] same_class(later, a, b)
}

/// Equivalence classes over the ids `0`, `1`, `2`, and so on, each led by
/// its smallest member when it was formed.
#[derive(Debug, Clone)]
pub struct Partition {
    leaders: Vec<Id>,
}

impl Partition {
    /// A partition without classes.
    pub fn new() -> (partition: Self)
        ensures
            partition@ == Seq::<Id>::empty(),
            well_formed(partition@),
    {
        Partition { leaders: Vec::new() }
    }

    /// The number of ids.
    pub fn len(&self) -> (count: usize)
        ensures
            count == self@.len(),
    {
        self.leaders.len()
    }

    /// Adds a class of one new id and returns the id, unless the ids have
    /// run out.
    pub fn fresh(&mut self) -> (id: Option<Id>)
        ensures
            match id {
                Some(id) => id == old(self)@.len() && final(self)@ == old(self)@.push(id),
                None => old(self)@.len() >= u32::MAX && final(self)@ == old(self)@,
            },
            well_formed(old(self)@) ==> well_formed(final(self)@),
            coarsens(old(self)@, final(self)@),
    {
        let count = self.leaders.len();
        if count >= u32::MAX as usize {
            return None;
        }
        let id = count as Id;
        self.leaders.push(id);
        Some(id)
    }

    /// The leader of the class of `id`.  An id that names no class leads
    /// itself.
    pub fn find(&self, id: Id) -> (leader: Id)
        ensures
            leader == leader_of(self@, id),
    {
        if (id as usize) < self.leaders.len() {
            self.leaders[id as usize]
        } else {
            id
        }
    }
}

impl EGraph for Partition {
    type V = Seq<Id>;

    closed spec fn view(&self) -> Seq<Id> {
        self.leaders@
    }

    /// The smaller of the two leaders takes over the class of the other.
    /// Where either id names no class there is nothing to merge, and the
    /// first id is handed back.
    open spec fn spec_union(g: Seq<Id>, a: Id, b: Id) -> (Seq<Id>, Id) {
        if known(g, a) && known(g, b) {
            let (keep, drop) = if g[a as int] <= g[b as int] {
                (g[a as int], g[b as int])
            } else {
                (g[b as int], g[a as int])
            };
            (joined(g, keep, drop), keep)
        } else {
            (g, a)
        }
    }

    fn union(&mut self, a: Id, b: Id) -> (leader: Id)
        ensures
            well_formed(old(self)@) ==> well_formed(final(self)@),
            coarsens(old(self)@, final(self)@),
            well_formed(old(self)@) && known(old(self)@, a) && known(old(self)@, b) ==> leader_of(
                final(self)@,
                a,
            ) == leader && leader_of(final(self)@, b) == leader,
    {
        proof {
            if well_formed(self@) {
                lemma_union_coarsens(self@, a, b);
            }
        }
        let count = self.leaders.len();
        if a as usize >= count || b as usize >= count {
            return a;
        }
        let first = self.leaders[a as usize];
        let second = self.leaders[b as usize];
        let (keep, drop) = if first <= second {
            (first, second)
        } else {
            (second, first)
        };
        let ghost before = self.leaders@;
        let mut i: usize = 0;
        while i < count
            invariant
                i <= count,
                count == before.len(),
                self.leaders@.len() == count,
                forall|k: int| 0 <= k < i ==> self.leaders@[k] == joined(before, keep, drop)[k],
                forall|k: int| i <= k < count ==> self.leaders@[k] == before[k],
            decreases count - i,
        {
            if self.leaders[i] == drop {
                self.leaders.set(i, keep);
            }
            i += 1;
        }
        keep
    }
}

/// A union leaves a partition a partition, forgets no class and keeps every
/// equivalence; the two ids, where both are known, end up in one class, led
/// by the leader that the union returns.
pub proof fn lemma_union_coarsens(g: Seq<Id>, a: Id, b: Id)
    requires
        well_formed(g),
    ensures
        well_formed(Partition::spec_union(g, a, b).0),
        coarsens(g, Partition::spec_union(g, a, b).0),
        known(g, a) && known(g, b) ==> {
            let (merged, leader) = Partition::spec_union(g, a, b);
            leader_of(merged, a) == leader && leader_of(merged, b) == leader
        },
{
}

/// The pattern that stands for the class of one id.  It has no variables:
/// it matches the class of its id, if there is one, and instantiates to it.
#[derive(Debug, Clone, Copy, PartialEq, Eq)]
pub struct ClassRef {
    pub id: Id,
}

/// The number that a text of decimal digits spells, if the text is such a
/// one and not empty.
pub open spec fn decimal(text: Seq<char>) -> Option<nat>
    decreases text.len(),
{
    if text.len() == 0 {
        None
    } else if !('0' <= text.last() <= '9') {
        None
    } else if text.len() == 1 {
        Some((text.last() as nat - '0' as nat) as nat)
    } else {
        match decimal(text.drop_last()) {
            Some(value) => Some((10 * value + (text.last() as nat - '0' as nat)) as nat),
            None => None,
        }
    }
}

impl Pattern<Partition> for ClassRef {
    type V = Id;

    open spec fn view(&self) -> Id {
        self.id
    }

    /// A class is spelled by its id in decimal digits.  Any other text is
    /// the complaint.
    open spec fn spec_parse(text: Seq<char>) -> Result<Id, Seq<char>> {
        match decimal(text) {
            Some(value) if value <= u32::MAX => Ok(value as Id),
            _ => Err(text),
        }
    }

    open spec fn spec_search(pattern: Id, g: Seq<Id>) -> Seq<SearchMatchesView> {
        if known(g, pattern) {
            seq![SearchMatchesView { eclass: g[pattern as int], mappings: seq![Map::empty()] }]
        } else {
            Seq::empty()
        }
    }

    open spec fn spec_subst_and_find(pattern: Id, g: Seq<Id>, mapping: Bindings) -> (Seq<Id>, Id) {
        (g, leader_of(g, pattern))
    }

    fn parse(text: &str) -> (parsed: Result<Self, ParseError>) {
        let count = text.unicode_len();
        let mut value: u64 = 0;
        let mut i: usize = 0;
        let mut fits = count > 0;
        while fits && i < count
            invariant
                i <= count,
                count == text@.len(),
                fits ==> count > 0 && value <= u32::MAX,
                i == 0 ==> value == 0,
                fits && i > 0 ==> decimal(text@.take(i as int)) == Some(value as nat),
                !fits ==> Self::spec_parse(text@) is Err,
            decreases count - i + if fits { 1int } else { 0int },
        {
            let c = text.get_char(i);
            let ghost read = text@.take(i + 1);
            assert(read.drop_last() =~= text@.take(i as int));
            if c < '0' || c > '9' {
                proof {
                    lemma_decimal_needs_digits(text@, i as int);
                }
                fits = false;
            } else {
                let digit = (c as u32 - '0' as u32) as u64;
                value = 10 * value + digit;
                if value > u32::MAX as u64 {
                    proof {
                        lemma_decimal_grows(text@, i + 1);
                    }
                    fits = false;
                } else {
                    i += 1;
                }
            }
        }
        if fits {
            assert(text@.take(i as int) =~= text@);
            Ok(ClassRef { id: value as Id })
        } else {
            Err(ParseError { message: String::from_str(text) })
        }
    }

    fn search(&self, egraph: &Partition) -> (found: Vec<SearchMatches>) {
        let mut found: Vec<SearchMatches> = Vec::new();
        if (self.id as usize) < egraph.len() {
            let mut mappings: Vec<WildMap> = Vec::new();
            mappings.push(WildMap::new());
            let only = SearchMatches { eclass: egraph.find(self.id), mappings };
            assert(only@.mappings =~= seq![Map::empty()]);
            found.push(only);
        } else {
        }
        found
    }

    fn subst_and_find(&self, egraph: &mut Partition, mapping: &WildMap) -> (id: Id) {
        egraph.find(self.id)
    }
}

/// A text with a character that is no digit spells no number.
proof fn lemma_decimal_needs_digits(text: Seq<char>, at: int)
    requires
        0 <= at < text.len(),
        !('0' <= text[at] <= '9'),
    ensures
        decimal(text) is None,
    decreases text.len(),
{
    if at < text.len() - 1 {
        lemma_decimal_needs_digits(text.drop_last(), at);
    }
}

/// A text spells a number at least as large as any of its beginnings does,
/// if it spells one at all.
proof fn lemma_decimal_grows(text: Seq<char>, upto: int)
    requires
        0 < upto <= text.len(),
        decimal(text.take(upto)) is Some,
    ensures
        decimal(text) matches Some(value) ==> value >= decimal(text.take(upto))->Some_0,
    decreases text.len(),
{
    if upto == text.len() {
        assert(text.take(upto) =~= text);
    } else {
        assert(text.drop_last().take(upto) =~= text.take(upto));
        lemma_decimal_grows(text.drop_last(), upto);
    }
}

/// How a partition may change under a rule: if it was well formed it still
/// is, it has lost no class, and it has kept every equivalence.
pub open spec fn only_coarsens(earlier: Seq<Id>, later: Seq<Id>) -> bool {
    well_formed(earlier) ==> well_formed(later) && coarsens(earlier, later)
}

/// On a partition, applying a rule only merges classes.  If the rule's
/// appliers leave a partition a partition, forget no class and keep every
/// equivalence, then so does the application: every id that named a class
/// before still does, and ids that were equivalent still are.
pub proof fn law_apply_only_coarsens(
    rule: RuleView<Partition, ClassRef>,
    g: Seq<Id>,
    ematches: Seq<SearchMatchesView>,
)
    requires
        well_formed(g),
        forall|at: Seq<Id>, k: int, mapping: Bindings|
            0 <= k < rule.appliers.len() ==> only_coarsens(
                at,
                (#[trigger] rule.appliers[k].spec_apply(at, mapping)).0,
            ),
    ensures
        well_formed(rule.apply(g, ematches).graph),
        coarsens(g, rule.apply(g, ematches).graph),
{
    let keeps = |earlier: Seq<Id>, later: Seq<Id>| only_coarsens(earlier, later);
    assert forall|a: Seq<Id>, b: Seq<Id>, c: Seq<Id>|
        #[trigger] keeps(a, b) && #[trigger] keeps(b, c) implies keeps(a, c) by {
        if well_formed(a) {
            assert forall|x: Id, y: Id|
                known(a, x) && known(a, y) && #[trigger] same_class(a, x, y) implies #[trigger] same_class(
                c,
                x,
                y,
            ) by {
                assert(same_class(b, x, y));
            }
        }
    }
    law_apply_keeps_what_its_parts_keep(rule, g, ematches, keeps);
}

} // verus!
