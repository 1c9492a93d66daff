//! Facts about walks in general, from which the laws of rule application
//! follow.

use vstd::prelude::*;
use crate::semantics::{walk, Progress};

verus! {

/// One step of a walk, which a stopped walk does not take.
pub open spec fn stepped<V, T>(
    s: Progress<V>,
    item: T,
    step: spec_fn(Progress<V>, T) -> Progress<V>,
) -> Progress<V> {
    if s.stopped {
        s
    } else {
        step(s, item)
    }
}

/// A walk over no items, or from a stopped state, goes nowhere.
pub proof fn lemma_walk_stays<V, T>(
    s: Progress<V>,
    items: Seq<T>,
    step: spec_fn(Progress<V>, T) -> Progress<V>,
)
    requires
        items.len() == 0 || s.stopped,
    ensures
        walk(s, items, step) == s,
{
}

/// A walk over at least one item is its first step, then the walk over the
/// rest.
pub proof fn lemma_walk_first<V, T>(
    s: Progress<V>,
    items: Seq<T>,
    step: spec_fn(Progress<V>, T) -> Progress<V>,
)
    requires
        items.len() > 0,
    ensures
        walk(s, items, step) == walk(stepped(s, items[0], step), items.drop_first(), step),
{
    if s.stopped {
        lemma_walk_stays(s, items.drop_first(), step);
    }
}

/// A walk over `first + second` is the walk over `second` from where the
/// walk over `first` ended.
pub proof fn lemma_walk_concat<V, T>(
    s: Progress<V>,
    first: Seq<T>,
    second: Seq<T>,
    step: spec_fn(Progress<V>, T) -> Progress<V>,
)
    ensures
        walk(s, first + second, step) == walk(walk(s, first, step), second, step),
    decreases first.len(),
{
    if first.len() > 0 {
        if s.stopped {
            lemma_walk_stays(s, first + second, step);
            lemma_walk_stays(s, second, step);
        } else {
            assert((first + second).drop_first() =~= first.drop_first() + second);
            lemma_walk_concat(step(s, first[0]), first.drop_first(), second, step);
        }
    }
}

/// What every step of a walk keeps, the walk keeps.
pub proof fn lemma_walk_keeps<V, T>(
    s: Progress<V>,
    items: Seq<T>,
    step: spec_fn(Progress<V>, T) -> Progress<V>,
    kept: spec_fn(Progress<V>) -> bool,
)
    requires
        kept(s),
        forall|at: Progress<V>, i: int|
            0 <= i < items.len() && kept(at) && !at.stopped ==> kept(#[trigger] step(at, items[i])),
    ensures
        kept(walk(s, items, step)),
    decreases items.len(),
{
    if items.len() > 0 && !s.stopped {
        lemma_walk_keeps(step(s, items[0]), items.drop_first(), step, kept);
    }
}

/// Two walks over the same items stay related if each pair of steps keeps
/// them related.
pub proof fn lemma_walk_relates<V, T>(
    s: Progress<V>,
    t: Progress<V>,
    items: Seq<T>,
    step_s: spec_fn(Progress<V>, T) -> Progress<V>,
    step_t: spec_fn(Progress<V>, T) -> Progress<V>,
    related: spec_fn(Progress<V>, Progress<V>) -> bool,
)
    requires
        related(s, t),
        forall|x: Progress<V>, y: Progress<V>, i: int|
            0 <= i < items.len() && related(x, y) ==> related(
                #[trigger] stepped(x, items[i], step_s),
                #[trigger] stepped(y, items[i], step_t),
            ),
    ensures
        related(walk(s, items, step_s), walk(t, items, step_t)),
    decreases items.len(),
{
    if items.len() > 0 {
        let rest = items.drop_first();
        let s1 = stepped(s, items[0], step_s);
        let t1 = stepped(t, items[0], step_t);
        lemma_walk_first(s, items, step_s);
        lemma_walk_first(t, items, step_t);
        lemma_walk_relates(s1, t1, rest, step_s, step_t, related);
    }
}

/// A walk over one item is one step.
pub proof fn lemma_walk_one<V, T>(
    s: Progress<V>,
    item: T,
    step: spec_fn(Progress<V>, T) -> Progress<V>,
)
    ensures
        walk(s, seq![item], step) == stepped(s, item, step),
{
    lemma_walk_first(s, seq![item], step);
    lemma_walk_stays(stepped(s, item, step), seq![item].drop_first(), step);
}

} // verus!
