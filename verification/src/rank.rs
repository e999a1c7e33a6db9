//! Picking the leading entries of a list under an order given by integers.
//!
//! Both places where the library must choose "the best few" (which records
//! survive a cap on the store, which records make it into the feed) come
//! down to the same question: given the [`Rank`] of each position that is
//! up for choice, which are the first `limit` of those positions when
//! positions are ordered by rank and, among equal ranks, by position?

use crate::order::{is_first, is_strict_total, lemma_first_unique};
use vstd::prelude::*;

verus! {

/// Three integers, compared one after another. A smaller rank comes first.
#[derive(Clone, Copy, Debug, PartialEq, Eq)]
pub struct Rank {
    pub major: i64,
    pub minor: i64,
    pub fine: i64,
}

/// Whether `a` is strictly smaller than `b`.
pub open spec fn rank_lt(a: Rank, b: Rank) -> bool {
    a.major < b.major || (a.major == b.major && (a.minor < b.minor || (a.minor == b.minor
        && a.fine < b.fine)))
}

/// Whether position `x` comes before position `y`, both of them up for
/// choice: by rank, and by position where the ranks are equal.
pub open spec fn precedes(ranks: Seq<Option<Rank>>, x: int, y: int) -> bool {
    rank_lt(ranks[x]->0, ranks[y]->0) || (!rank_lt(ranks[y]->0, ranks[x]->0) && x < y)
}

/// Whether `picked` names position `i`.
pub open spec fn holds(picked: Seq<usize>, i: int) -> bool {
    exists|t: int| 0 <= t < picked.len() && #[trigger] picked[t] == i
}

/// Whether `picked` is the list of the first `limit` positions that have a
/// rank, in order: it names positions with a rank, each before the next,
/// no more than `limit` of them, and a position with a rank that it leaves
/// out comes after all it names and was left out for want of room only.
pub open spec fn is_leading(ranks: Seq<Option<Rank>>, limit: int, picked: Seq<usize>) -> bool {
    &&& picked.len() <= limit
    &&& forall|t: int|
        0 <= t < picked.len() ==> #[trigger] picked[t] < ranks.len() && ranks[picked[t] as int] is Some
    &&& forall|t: int, u: int|
        0 <= t < u < picked.len() ==> precedes(ranks, #[trigger] picked[t] as int, #[trigger] picked[u] as int)
    &&& forall|i: int|
        0 <= i < ranks.len() && ranks[i] is Some && !holds(picked, i) ==> picked.len() == limit
            && forall|t: int|
            0 <= t < picked.len() ==> precedes(ranks, #[trigger] picked[t] as int, i)
}

/// The order of `precedes` on positions.
pub open spec fn leading_order(ranks: Seq<Option<Rank>>) -> spec_fn(usize, usize) -> bool {
    |x: usize, y: usize| precedes(ranks, x as int, y as int)
}

/// The positions that have a rank.
pub open spec fn ranked_positions(ranks: Seq<Option<Rank>>) -> spec_fn(usize) -> bool {
    |i: usize| i < ranks.len() && ranks[i as int] is Some
}

/// A list of leading positions is a list of the first positions with a
/// rank in the order of `precedes`, which is strict and total.
pub proof fn lemma_leading_is_first(ranks: Seq<Option<Rank>>, limit: int, picked: Seq<usize>)
    requires
        is_leading(ranks, limit, picked),
    ensures
        is_strict_total(leading_order(ranks), ranked_positions(ranks)),
        is_first(leading_order(ranks), ranked_positions(ranks), limit, picked),
{
    let before = leading_order(ranks);
    let eligible = ranked_positions(ranks);
    assert forall|x: usize| #[trigger] eligible(x) && !picked.contains(x) implies picked.len()
        == limit && forall|t: int| 0 <= t < picked.len() ==> before(#[trigger] picked[t], x) by {
        if holds(picked, x as int) {
            let t = choose|t: int| 0 <= t < picked.len() && #[trigger] picked[t] == x as int;
            assert(picked[t] == x);
        }
    }
}

/// There is only one list of leading positions: the choice is determined
/// by the ranks and the limit.
pub proof fn lemma_leading_unique(ranks: Seq<Option<Rank>>, limit: int, p: Seq<usize>, q: Seq<usize>)
    requires
        is_leading(ranks, limit, p),
        is_leading(ranks, limit, q),
    ensures
        p == q,
{
    lemma_leading_is_first(ranks, limit, p);
    lemma_leading_is_first(ranks, limit, q);
    lemma_first_unique(leading_order(ranks), ranked_positions(ranks), limit, p, q);
}

/// Whether `a` is strictly smaller than `b`.
pub fn rank_before(a: &Rank, b: &Rank) -> (r: bool)
    ensures
        r == rank_lt(*a, *b),
{
    a.major < b.major || (a.major == b.major && (a.minor < b.minor || (a.minor == b.minor
        && a.fine < b.fine)))
}

/// The first position not yet taken, in the order of `precedes`.
fn first_open(ranks: &Vec<Option<Rank>>, taken: &Vec<bool>) -> (r: Option<usize>)
    requires
        taken.len() == ranks.len(),
        forall|i: int| 0 <= i < ranks.len() && !taken[i] ==> ranks[i] is Some,
    ensures
        match r {
            Some(b) => b < ranks.len() && !taken[b as int] && forall|j: int|
                0 <= j < ranks.len() && !taken[j] && j != b ==> precedes(ranks@, b as int, j),
            None => forall|j: int| 0 <= j < ranks.len() ==> taken[j],
        },
{
    let n = ranks.len();
    let mut best: Option<(usize, Rank)> = None;
    let mut j: usize = 0;
    while j < n
        invariant
            j <= n,
            n == ranks.len(),
            taken.len() == n,
            forall|i: int| 0 <= i < n && !taken[i] ==> ranks[i] is Some,
            match best {
                Some((b, rank)) => b < j && !taken[b as int] && ranks[b as int] == Some(rank)
                    && forall|i: int|
                    0 <= i < j && !taken[i] && i != b ==> precedes(ranks@, b as int, i),
                None => forall|i: int| 0 <= i < j ==> taken[i],
            },
        decreases n - j,
    {
        if !taken[j] {
            match ranks[j] {
                Some(rank) => {
                    match best {
                        None => {
                            best = Some((j, rank));
                        },
                        Some((b, lowest)) => {
                            if rank_before(&rank, &lowest) {
                                assert forall|i: int|
                                    0 <= i < j && !taken[i] && i != j implies precedes(
                                    ranks@,
                                    j as int,
                                    i,
                                ) by {
                                    if i != b {
                                        assert(precedes(ranks@, b as int, i));
                                    }
                                }
                                best = Some((j, rank));
                            }
                        },
                    }
                },
                None => {},
            }
        }
        j += 1;
    }
    match best {
        Some((b, _)) => Some(b),
        None => None,
    }
}

/// The first `limit` positions that have a rank, in order.
pub fn leading(ranks: &Vec<Option<Rank>>, limit: usize) -> (picked: Vec<usize>)
    ensures
        is_leading(ranks@, limit as int, picked@),
{
    let n = ranks.len();
    let mut taken: Vec<bool> = Vec::new();
    let mut k: usize = 0;
    while k < n
        invariant
            k <= n,
            n == ranks.len(),
            taken.len() == k,
            forall|i: int| 0 <= i < k ==> taken[i] == (ranks[i] is None),
        decreases n - k,
    {
        taken.push(ranks[k].is_none());
        k += 1;
    }
    let mut picked: Vec<usize> = Vec::new();
    let mut open = true;
    while open && picked.len() < limit
        invariant
            n == ranks.len(),
            taken.len() == n,
            picked.len() <= limit,
            !open ==> forall|j: int| 0 <= j < n ==> taken[j],
            forall|i: int| 0 <= i < n && !taken[i] ==> ranks[i] is Some,
            forall|t: int|
                0 <= t < picked.len() ==> #[trigger] picked[t] < n && taken[picked[t] as int]
                    && ranks[picked[t] as int] is Some,
            forall|i: int| 0 <= i < n && taken[i] && ranks[i] is Some ==> holds(picked@, i),
            forall|t: int, u: int|
                0 <= t < u < picked.len() ==> precedes(
                    ranks@,
                    #[trigger] picked[t] as int,
                    #[trigger] picked[u] as int,
                ),
            forall|t: int, i: int|
                0 <= t < picked.len() && 0 <= i < n && !taken[i] ==> #[trigger] precedes(
                    ranks@,
                    picked[t] as int,
                    i,
                ),
        decreases (if open { 1int } else { 0int }) + limit - picked.len(),
    {
        match first_open(ranks, &taken) {
            None => {
                open = false;
            },
            Some(b) => {
                let ghost before = picked@;
                let ghost marks = taken@;
                taken.set(b, true);
                picked.push(b);
                proof {
                    assert(picked@[before.len() as int] == b);
                    assert forall|i: int|
                        0 <= i < n && taken[i] && ranks[i] is Some implies holds(picked@, i) by {
                        if i == b {
                            assert(picked@[before.len() as int] == i);
                        } else {
                            assert(marks[i]);
                            assert(holds(before, i));
                            let t = choose|t: int| 0 <= t < before.len() && before[t] == i;
                            assert(picked@[t] == i);
                        }
                    }
                    assert forall|t: int, u: int| 0 <= t < u < picked.len() implies precedes(
                        ranks@,
                        #[trigger] picked[t] as int,
                        #[trigger] picked[u] as int,
                    ) by {
                        if u == before.len() {
                            assert(before[t] == picked[t]);
                            assert(precedes(ranks@, before[t] as int, b as int));
                        } else {
                            assert(before[t] == picked[t] && before[u] == picked[u]);
                        }
                    }
                    assert forall|t: int, i: int|
                        0 <= t < picked.len() && 0 <= i < n && !taken[i] implies #[trigger] precedes(
                        ranks@,
                        picked[t] as int,
                        i,
                    ) by {
                        assert(!marks[i] && i != b);
                        if t < before.len() {
                            assert(before[t] == picked[t]);
                        }
                    }
                    assert forall|t: int| 0 <= t < picked.len() implies #[trigger] picked[t] < n
                        && taken[picked[t] as int] && ranks[picked[t] as int] is Some by {
                        if t < before.len() {
                            assert(before[t] == picked[t]);
                        }
                    }
                }
            },
        }
    }
    proof {
        assert forall|i: int|
            0 <= i < n && ranks[i] is Some && !holds(picked@, i) implies picked.len() == limit
            && forall|t: int|
            0 <= t < picked.len() ==> precedes(ranks@, #[trigger] picked[t] as int, i) by {
            assert(!taken[i]);
        }
    }
    picked
}

} // verus!
