//! Which records stay in the store.
//!
//! Retention is decided from the times at which the records were last
//! seen, one per record in the order of the store; a record whose time
//! could not be read has none. A record stays if it is *fresh* (its time
//! is not before the cutoff) and, where more fresh records exist than the
//! store may hold, if it is among those seen most recently. That is what is
//! left when the fresh records are sorted by the time they were seen,
//! records seen at the same instant staying in their order, and all but
//! the last few are dropped.

use crate::order::{is_first, is_strict_total, lemma_first_unique};
use crate::rank::{holds, is_leading, leading, precedes, Rank};
use crate::state::{last_seen_of, StoredArticleView};
use crate::text::{lemma_lex_asymmetric, lemma_lex_total, lex_lt};
use crate::time::{instant_lt, Timestamp, UtcTime, DAY_SECS};
use vstd::prelude::*;

verus! {

/// Whether a record last seen at `seen` is kept by the age rule: its time
/// was read and is not earlier than `max_days` days before `now`. A record
/// without a readable time is never fresh.
pub open spec fn is_fresh(seen: Option<Timestamp>, now: UtcTime, max_days: u32) -> bool {
    match seen {
        Some(t) => !instant_lt(
            t.secs() as int,
            t.nanos() as int,
            now.secs() - max_days * DAY_SECS,
            now.nanos() as int,
        ),
        None => false,
    }
}

/// The seconds of the time a record counts as seen at when the cap is
/// applied: its own time, and `now` where that could not be read.
pub open spec fn cap_secs(seen: Option<Timestamp>, now: UtcTime) -> int {
    match seen {
        Some(t) => t.secs() as int,
        None => now.secs() as int,
    }
}

/// The nanoseconds that go with `cap_secs`.
pub open spec fn cap_nanos(seen: Option<Timestamp>, now: UtcTime) -> int {
    match seen {
        Some(t) => t.nanos() as int,
        None => now.nanos() as int,
    }
}

/// Whether a record seen at `a` was seen strictly later than one seen at
/// `b`, as the cap counts it.
pub open spec fn seen_later(a: Option<Timestamp>, b: Option<Timestamp>, now: UtcTime) -> bool {
    instant_lt(cap_secs(b, now), cap_nanos(b, now), cap_secs(a, now), cap_nanos(a, now))
}

/// Whether the record at position `x` has the better claim to stay than
/// the one at position `y`: it was seen later, or at the same instant and
/// stands later. (Sort the records by the time they were seen, leaving
/// records seen at the same instant in their order, and the better claims
/// are at the end.)
pub open spec fn stays_before(seen: Seq<Option<Timestamp>>, now: UtcTime, x: int, y: int) -> bool {
    seen_later(seen[x], seen[y], now) || (!seen_later(seen[y], seen[x], now) && x > y)
}

/// Whether `picked` names the records that stay, best claim first: only
/// fresh records, each with a better claim than the next, at most
/// `max_items` of them, and a fresh record left out has a worse claim than
/// all that stay and was left out because the store was full.
pub open spec fn is_retained(
    seen: Seq<Option<Timestamp>>,
    now: UtcTime,
    max_days: u32,
    max_items: int,
    picked: Seq<usize>,
) -> bool {
    &&& picked.len() <= max_items
    &&& forall|t: int|
        0 <= t < picked.len() ==> #[trigger] picked[t] < seen.len() && is_fresh(
            seen[picked[t] as int],
            now,
            max_days,
        )
    &&& forall|t: int, u: int|
        0 <= t < u < picked.len() ==> stays_before(
            seen,
            now,
            #[trigger] picked[t] as int,
            #[trigger] picked[u] as int,
        )
    &&& forall|i: int|
        0 <= i < seen.len() && is_fresh(seen[i], now, max_days) && !holds(picked, i)
            ==> picked.len() == max_items && forall|t: int|
            0 <= t < picked.len() ==> stays_before(seen, now, #[trigger] picked[t] as int, i)
}

/// The order of the claims to stay, on positions.
pub open spec fn claim_order(seen: Seq<Option<Timestamp>>, now: UtcTime) -> spec_fn(usize, usize) -> bool {
    |x: usize, y: usize| stays_before(seen, now, x as int, y as int)
}

/// The positions of the fresh records.
pub open spec fn fresh_positions(seen: Seq<Option<Timestamp>>, now: UtcTime, max_days: u32) -> spec_fn(
    usize,
) -> bool {
    |i: usize| i < seen.len() && is_fresh(seen[i as int], now, max_days)
}

/// The records that stay are the first fresh ones in the order of their
/// claims, which is strict and total.
pub proof fn lemma_retained_is_first(
    seen: Seq<Option<Timestamp>>,
    now: UtcTime,
    max_days: u32,
    max_items: int,
    picked: Seq<usize>,
)
    requires
        is_retained(seen, now, max_days, max_items, picked),
    ensures
        is_strict_total(claim_order(seen, now), fresh_positions(seen, now, max_days)),
        is_first(claim_order(seen, now), fresh_positions(seen, now, max_days), max_items, picked),
{
    let before = claim_order(seen, now);
    let eligible = fresh_positions(seen, now, max_days);
    assert forall|x: usize| #[trigger] eligible(x) && !picked.contains(x) implies picked.len()
        == max_items && forall|t: int| 0 <= t < picked.len() ==> before(#[trigger] picked[t], x) by {
        if holds(picked, x as int) {
            let t = choose|t: int| 0 <= t < picked.len() && #[trigger] picked[t] == x as int;
            assert(picked[t] == x);
        }
    }
}

/// Which records stay is determined by the times they were last seen, by
/// `now` and by the two limits.
pub proof fn lemma_retained_unique(
    seen: Seq<Option<Timestamp>>,
    now: UtcTime,
    max_days: u32,
    max_items: int,
    p: Seq<usize>,
    q: Seq<usize>,
)
    requires
        is_retained(seen, now, max_days, max_items, p),
        is_retained(seen, now, max_days, max_items, q),
    ensures
        p == q,
{
    lemma_retained_is_first(seen, now, max_days, max_items, p);
    lemma_retained_is_first(seen, now, max_days, max_items, q);
    lemma_first_unique(
        claim_order(seen, now),
        fresh_positions(seen, now, max_days),
        max_items,
        p,
        q,
    );
}

/// The rank by which fresh records are ordered: later times first.
spec fn retention_rank(seen: Option<Timestamp>, now: UtcTime, max_days: u32) -> Option<Rank> {
    if is_fresh(seen, now, max_days) {
        Some(Rank { major: (-seen->0.secs()) as i64, minor: (-seen->0.nanos()) as i64, fine: 0 })
    } else {
        None
    }
}

fn rank_of_seen(seen: &Option<Timestamp>, now: UtcTime, max_days: u32) -> (r: Option<Rank>)
    ensures
        r == retention_rank(*seen, now, max_days),
        *seen matches Some(t) ==> i64::MIN < t.secs(),
{
    match seen {
        Some(t) => {
            let cutoff: i64 = now.timestamp() - (max_days as i64) * DAY_SECS;
            let secs = t.timestamp();
            let nanos = t.subsec_nanos();
            if secs < cutoff || (secs == cutoff && nanos < now.subsec_nanos()) {
                None
            } else {
                Some(Rank { major: -secs, minor: -(nanos as i64), fine: 0 })
            }
        },
        None => None,
    }
}

/// Decides which records stay: the positions of the fresh records, those
/// seen latest first, cut off after `max_items`.
pub fn select_retained(
    seen: &Vec<Option<Timestamp>>,
    now: UtcTime,
    max_days: u32,
    max_items: usize,
) -> (picked: Vec<usize>)
    ensures
        is_retained(seen@, now, max_days, max_items as int, picked@),
{
    // Ranks are taken from the last position to the first, so that of two
    // records seen at the same instant the later one leads.
    let n = seen.len();
    let mut ranks: Vec<Option<Rank>> = Vec::new();
    let mut j: usize = 0;
    while j < n
        invariant
            j <= n,
            n == seen.len(),
            ranks.len() == j,
            forall|m: int| 0 <= m < j ==> ranks[m] == retention_rank(seen[n - 1 - m], now, max_days),
            forall|m: int|
                0 <= m < j ==> ((#[trigger] seen[n - 1 - m]) matches Some(t) ==> i64::MIN < t.secs()),
        decreases n - j,
    {
        ranks.push(rank_of_seen(&seen[n - 1 - j], now, max_days));
        j += 1;
    }
    let lead = leading(&ranks, max_items);
    let mut picked: Vec<usize> = Vec::new();
    let mut t: usize = 0;
    while t < lead.len()
        invariant
            t <= lead.len(),
            n == seen.len(),
            ranks.len() == n,
            is_leading(ranks@, max_items as int, lead@),
            picked.len() == t,
            forall|u: int| 0 <= u < t ==> #[trigger] picked[u] == n - 1 - lead[u],
        decreases lead.len() - t,
    {
        assert(lead[t as int] < n);
        picked.push(n - 1 - lead[t]);
        t += 1;
    }
    proof {
        assert forall|x: int, y: int|
            0 <= x < n && 0 <= y < n && ranks[x] is Some && ranks[y] is Some implies (
        #[trigger] precedes(ranks@, x, y) <==> stays_before(seen@, now, n - 1 - x, n - 1 - y)) by {
            assert(ranks[x] == retention_rank(seen[n - 1 - x], now, max_days));
            assert(ranks[y] == retention_rank(seen[n - 1 - y], now, max_days));
            assert(seen[n - 1 - x] matches Some(t) ==> i64::MIN < t.secs());
            assert(seen[n - 1 - y] matches Some(t) ==> i64::MIN < t.secs());
        }
        assert forall|t: int| 0 <= t < picked.len() implies #[trigger] picked[t] < seen.len()
            && is_fresh(seen[picked[t] as int], now, max_days) by {
            assert(lead[t] < n && ranks[lead[t] as int] is Some);
            assert(ranks[lead[t] as int] == retention_rank(seen[n - 1 - lead[t]], now, max_days));
        }
        assert forall|t: int, u: int| 0 <= t < u < picked.len() implies stays_before(
            seen@,
            now,
            #[trigger] picked[t] as int,
            #[trigger] picked[u] as int,
        ) by {
            assert(precedes(ranks@, lead[t] as int, lead[u] as int));
        }
        assert forall|i: int|
            0 <= i < seen.len() && is_fresh(seen[i], now, max_days) && !holds(
                picked@,
                i,
            ) implies picked.len() == max_items && forall|t: int|
            0 <= t < picked.len() ==> stays_before(seen@, now, #[trigger] picked[t] as int, i) by {
            let m = n - 1 - i;
            assert(ranks[m] == retention_rank(seen[n - 1 - m], now, max_days));
            if holds(lead@, m) {
                let t = choose|t: int| 0 <= t < lead.len() && #[trigger] lead[t] == m;
                assert(picked[t] == i);
            }
            assert forall|t: int| 0 <= t < picked.len() implies stays_before(
                seen@,
                now,
                #[trigger] picked[t] as int,
                i,
            ) by {
                assert(precedes(ranks@, lead[t] as int, m));
            }
        }
    }
    picked
}

// ---------------------------------------------------------------------------
// Retention, stated of the store
// ---------------------------------------------------------------------------

/// Whether a record passes the age rule.
pub open spec fn fresh_record(item: StoredArticleView, now: UtcTime, max_days: u32) -> bool {
    is_fresh(last_seen_of(item), now, max_days)
}

/// Whether record `a` has the better claim to stay than record `b`: it was
/// seen later, or at the same instant and has the greater key.
pub open spec fn stays_longer(a: StoredArticleView, b: StoredArticleView, now: UtcTime) -> bool {
    seen_later(last_seen_of(a), last_seen_of(b), now) || (!seen_later(
        last_seen_of(b),
        last_seen_of(a),
        now,
    ) && lex_lt(b.key, a.key))
}

/// Whether `after` is `before` pruned: it holds only records of `before`
/// that pass the age rule, unchanged; it holds at most `max_items`; and a
/// record that passes the age rule and is gone all the same was dropped
/// from a full store, in favour of records with a better claim to stay.
pub open spec fn is_pruned(
    before: Map<Seq<char>, StoredArticleView>,
    after: Map<Seq<char>, StoredArticleView>,
    now: UtcTime,
    max_days: u32,
    max_items: int,
) -> bool {
    &&& after.dom().finite()
    &&& after.len() <= max_items
    &&& forall|k: Seq<char>| #[trigger]
        after.contains_key(k) ==> before.contains_key(k) && after[k] == before[k] && fresh_record(
            before[k],
            now,
            max_days,
        )
    &&& forall|k: Seq<char>|
        #[trigger] before.contains_key(k) && fresh_record(before[k], now, max_days)
            && !after.contains_key(k) ==> after.len() == max_items && forall|j: Seq<char>| #[trigger]
            after.contains_key(j) ==> stays_longer(after[j], before[k], now)
}

/// Of two records with different keys exactly one has the better claim to
/// stay, and no record has a better claim than itself.
pub proof fn lemma_stays_longer_total(a: StoredArticleView, b: StoredArticleView, now: UtcTime)
    ensures
        !(stays_longer(a, b, now) && stays_longer(b, a, now)),
        a.key != b.key ==> stays_longer(a, b, now) || stays_longer(b, a, now),
{
    lemma_lex_total(a.key, b.key);
    if lex_lt(a.key, b.key) {
        lemma_lex_asymmetric(a.key, b.key);
    }
}

/// A pruned store that holds a record which another pruning of the same
/// store dropped lacks a record which that other one kept.
proof fn lemma_pruned_exchange(
    before: Map<Seq<char>, StoredArticleView>,
    now: UtcTime,
    max_days: u32,
    max_items: int,
    a: Map<Seq<char>, StoredArticleView>,
    b: Map<Seq<char>, StoredArticleView>,
    k: Seq<char>,
)
    requires
        is_pruned(before, a, now, max_days, max_items),
        is_pruned(before, b, now, max_days, max_items),
        a.contains_key(k),
        !b.contains_key(k),
    ensures
        exists|j: Seq<char>| #[trigger] b.contains_key(j) && !a.contains_key(j),
{
    if forall|j: Seq<char>| #[trigger] b.contains_key(j) ==> a.contains_key(j) {
        assert(before.contains_key(k));
        assert(b.len() == max_items);
        assert(b.dom().subset_of(a.dom().remove(k)));
        vstd::set_lib::lemma_len_subset(b.dom(), a.dom().remove(k));
        assert(false);
    }
}

/// What pruning leaves is determined by the store, by `now` and by the two
/// limits.
pub proof fn lemma_pruned_unique(
    before: Map<Seq<char>, StoredArticleView>,
    now: UtcTime,
    max_days: u32,
    max_items: int,
    a: Map<Seq<char>, StoredArticleView>,
    b: Map<Seq<char>, StoredArticleView>,
)
    requires
        is_pruned(before, a, now, max_days, max_items),
        is_pruned(before, b, now, max_days, max_items),
    ensures
        a == b,
{
    assert forall|k: Seq<char>| a.contains_key(k) <==> b.contains_key(k) by {
        if a.contains_key(k) && !b.contains_key(k) {
            lemma_pruned_exchange(before, now, max_days, max_items, a, b, k);
            let j = choose|j: Seq<char>| #[trigger] b.contains_key(j) && !a.contains_key(j);
            assert(before.contains_key(k) && before.contains_key(j));
            assert(stays_longer(b[j], before[k], now));
            assert(stays_longer(a[k], before[j], now));
            lemma_stays_longer_total(before[j], before[k], now);
        }
        if b.contains_key(k) && !a.contains_key(k) {
            lemma_pruned_exchange(before, now, max_days, max_items, b, a, k);
            let j = choose|j: Seq<char>| #[trigger] a.contains_key(j) && !b.contains_key(j);
            assert(before.contains_key(k) && before.contains_key(j));
            assert(stays_longer(a[j], before[k], now));
            assert(stays_longer(b[k], before[j], now));
            lemma_stays_longer_total(before[j], before[k], now);
        }
    }
    assert(a =~= b);
}

/// Pruning removes every record that fails the age rule, and keeps every
/// record that passes it as long as the store is not full.
pub proof fn lemma_pruned_by_age(
    before: Map<Seq<char>, StoredArticleView>,
    after: Map<Seq<char>, StoredArticleView>,
    now: UtcTime,
    max_days: u32,
    max_items: int,
    k: Seq<char>,
)
    requires
        is_pruned(before, after, now, max_days, max_items),
        before.contains_key(k),
    ensures
        !fresh_record(before[k], now, max_days) ==> !after.contains_key(k),
        fresh_record(before[k], now, max_days) && after.len() < max_items ==> after.contains_key(k)
            && after[k] == before[k],
{
}

/// Where the cap makes pruning drop a record that passes the age rule, no
/// record that stays was seen earlier than the one dropped.
pub proof fn lemma_pruned_drops_oldest(
    before: Map<Seq<char>, StoredArticleView>,
    after: Map<Seq<char>, StoredArticleView>,
    now: UtcTime,
    max_days: u32,
    max_items: int,
    dropped: Seq<char>,
    kept: Seq<char>,
)
    requires
        is_pruned(before, after, now, max_days, max_items),
        before.contains_key(dropped),
        fresh_record(before[dropped], now, max_days),
        !after.contains_key(dropped),
        after.contains_key(kept),
    ensures
        !seen_later(last_seen_of(before[dropped]), last_seen_of(before[kept]), now),
{
    assert(stays_longer(after[kept], before[dropped], now));
}

/// Pruning a pruned store again, at the same time and with the same
/// limits, changes nothing.
pub proof fn lemma_pruned_again(
    before: Map<Seq<char>, StoredArticleView>,
    after: Map<Seq<char>, StoredArticleView>,
    now: UtcTime,
    max_days: u32,
    max_items: int,
    again: Map<Seq<char>, StoredArticleView>,
)
    requires
        is_pruned(before, after, now, max_days, max_items),
        is_pruned(after, again, now, max_days, max_items),
    ensures
        again == after,
{
    assert(is_pruned(after, after, now, max_days, max_items));
    lemma_pruned_unique(after, now, max_days, max_items, again, after);
}

} // verus!
