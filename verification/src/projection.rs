//! Which records are shown, and in which order.
//!
//! A record is ranked by its *standing*: its count of public reactions and
//! the time it was published, if that is known. More reactions come first;
//! among equal counts the later publication comes first, and a record with
//! no known time of publication comes after all that have one. Records of
//! equal standing keep the order of the store.

use crate::order::{is_first, is_strict_total, lemma_first_unique};
use crate::rank::{holds, leading, precedes, rank_lt, Rank};
use crate::state::{published_of, published_time, StoredArticle, StoredArticleView};
use crate::text::{lemma_lex_asymmetric, lemma_lex_total, lex_lt};
use crate::time::Timestamp;
use std::cmp::Ordering;
use vstd::prelude::*;

verus! {

/// What a record is ranked by.
#[derive(Clone, Copy, Debug, PartialEq, Eq)]
pub struct Standing {
    pub reactions: u32,
    pub published: Option<Timestamp>,
}

/// Whether `a` is a later time of publication than `b`; a known time is
/// later than an unknown one.
pub open spec fn published_later(a: Option<Timestamp>, b: Option<Timestamp>) -> bool {
    match (a, b) {
        (Some(x), Some(y)) => y.before(x),
        (Some(_), None) => true,
        _ => false,
    }
}

/// Whether standing `a` ranks strictly above standing `b`.
pub open spec fn outranks(a: Standing, b: Standing) -> bool {
    a.reactions > b.reactions || (a.reactions == b.reactions && published_later(
        a.published,
        b.published,
    ))
}

/// Whether the record at position `x` is shown before the one at position
/// `y`: it ranks above it, or ranks the same and stands first.
pub open spec fn shown_before(entries: Seq<Standing>, x: int, y: int) -> bool {
    outranks(entries[x], entries[y]) || (!outranks(entries[y], entries[x]) && x < y)
}

/// Whether `picked` names the records that are shown, in the order in
/// which they are shown: only records with at least `min_reactions`
/// reactions, each shown before the next, at most `max_entries` of them,
/// and a record with enough reactions that is left out would come after
/// all that are shown and was left out because the list was full.
pub open spec fn is_projection(
    entries: Seq<Standing>,
    min_reactions: u32,
    max_entries: int,
    picked: Seq<usize>,
) -> bool {
    &&& picked.len() <= max_entries
    &&& forall|t: int|
        0 <= t < picked.len() ==> #[trigger] picked[t] < entries.len() && entries[picked[t] as int].reactions
            >= min_reactions
    &&& forall|t: int, u: int|
        0 <= t < u < picked.len() ==> shown_before(
            entries,
            #[trigger] picked[t] as int,
            #[trigger] picked[u] as int,
        )
    &&& forall|i: int|
        0 <= i < entries.len() && entries[i].reactions >= min_reactions && !holds(picked, i)
            ==> picked.len() == max_entries && forall|t: int|
            0 <= t < picked.len() ==> shown_before(entries, #[trigger] picked[t] as int, i)
}

/// The order in which records are shown, on positions.
pub open spec fn showing_order(entries: Seq<Standing>) -> spec_fn(usize, usize) -> bool {
    |x: usize, y: usize| shown_before(entries, x as int, y as int)
}

/// The positions of the records with at least `min_reactions` reactions.
pub open spec fn shown_positions(entries: Seq<Standing>, min_reactions: u32) -> spec_fn(usize) -> bool {
    |i: usize| i < entries.len() && entries[i as int].reactions >= min_reactions
}

/// The records that are shown are the first with enough reactions in the
/// order of showing, which is strict and total.
pub proof fn lemma_projection_is_first(
    entries: Seq<Standing>,
    min_reactions: u32,
    max_entries: int,
    picked: Seq<usize>,
)
    requires
        is_projection(entries, min_reactions, max_entries, picked),
    ensures
        is_strict_total(showing_order(entries), shown_positions(entries, min_reactions)),
        is_first(
            showing_order(entries),
            shown_positions(entries, min_reactions),
            max_entries,
            picked,
        ),
{
    let before = showing_order(entries);
    let eligible = shown_positions(entries, min_reactions);
    assert forall|x: usize| #[trigger] eligible(x) && !picked.contains(x) implies picked.len()
        == max_entries && forall|t: int| 0 <= t < picked.len() ==> before(#[trigger] picked[t], x) by {
        if holds(picked, x as int) {
            let t = choose|t: int| 0 <= t < picked.len() && #[trigger] picked[t] == x as int;
            assert(picked[t] == x);
        }
    }
}

/// Which records are shown, and in which order, is determined by their
/// standings, by the threshold and by the limit.
pub proof fn lemma_projection_unique(
    entries: Seq<Standing>,
    min_reactions: u32,
    max_entries: int,
    p: Seq<usize>,
    q: Seq<usize>,
)
    requires
        is_projection(entries, min_reactions, max_entries, p),
        is_projection(entries, min_reactions, max_entries, q),
    ensures
        p == q,
{
    lemma_projection_is_first(entries, min_reactions, max_entries, p);
    lemma_projection_is_first(entries, min_reactions, max_entries, q);
    lemma_first_unique(
        showing_order(entries),
        shown_positions(entries, min_reactions),
        max_entries,
        p,
        q,
    );
}

/// The rank by which the records with enough reactions are ordered.
spec fn projection_rank(entry: Standing, min_reactions: u32) -> Option<Rank> {
    if entry.reactions >= min_reactions {
        Some(
            Rank {
                major: (-entry.reactions) as i64,
                minor: match entry.published {
                    Some(t) => (-t.secs()) as i64,
                    None => i64::MAX,
                },
                fine: match entry.published {
                    Some(t) => (-t.nanos()) as i64,
                    None => 0,
                },
            },
        )
    } else {
        None
    }
}

fn rank_of_standing(entry: &Standing, min_reactions: u32) -> (r: Option<Rank>)
    ensures
        r == projection_rank(*entry, min_reactions),
        r is Some ==> (entry.published matches Some(t) ==> i64::MIN < -t.secs() < i64::MAX),
{
    if entry.reactions >= min_reactions {
        let major: i64 = -(entry.reactions as i64);
        match &entry.published {
            Some(t) => Some(
                Rank { major, minor: -t.timestamp(), fine: -(t.subsec_nanos() as i64) },
            ),
            None => Some(Rank { major, minor: i64::MAX, fine: 0 }),
        }
    } else {
        None
    }
}

/// The ranks order the records as their standings do.
proof fn lemma_rank_order(a: Standing, b: Standing, min_reactions: u32)
    requires
        a.reactions >= min_reactions,
        b.reactions >= min_reactions,
        a.published matches Some(t) ==> -t.secs() < i64::MAX && -t.secs() >= i64::MIN,
        b.published matches Some(t) ==> -t.secs() < i64::MAX && -t.secs() >= i64::MIN,
    ensures
        rank_lt(projection_rank(a, min_reactions)->0, projection_rank(b, min_reactions)->0)
            <==> outranks(a, b),
{
}

/// Decides which records are shown: the positions of the records with at
/// least `min_reactions` reactions, the highest standing first, cut off
/// after `max_entries`.
pub fn select_ranked(entries: &Vec<Standing>, min_reactions: u32, max_entries: usize) -> (picked:
    Vec<usize>)
    ensures
        is_projection(entries@, min_reactions, max_entries as int, picked@),
{
    let mut ranks: Vec<Option<Rank>> = Vec::new();
    let mut i: usize = 0;
    while i < entries.len()
        invariant
            i <= entries.len(),
            ranks.len() == i,
            forall|j: int| 0 <= j < i ==> ranks[j] == projection_rank(entries[j], min_reactions),
            forall|j: int|
                0 <= j < i && (#[trigger] ranks[j]) is Some ==> (entries[j].published matches Some(t)
                    ==> i64::MIN < -t.secs() < i64::MAX),
        decreases entries.len() - i,
    {
        ranks.push(rank_of_standing(&entries[i], min_reactions));
        i += 1;
    }
    let picked = leading(&ranks, max_entries);
    proof {
        assert forall|x: int, y: int|
            0 <= x < entries.len() && 0 <= y < entries.len() && ranks[x] is Some && ranks[y] is Some implies (
        #[trigger] precedes(ranks@, x, y) <==> shown_before(entries@, x, y)) by {
            assert(ranks[x] == projection_rank(entries[x], min_reactions));
            assert(ranks[y] == projection_rank(entries[y], min_reactions));
            lemma_rank_order(entries[x], entries[y], min_reactions);
            lemma_rank_order(entries[y], entries[x], min_reactions);
        }
        assert forall|t: int, u: int| 0 <= t < u < picked.len() implies shown_before(
            entries@,
            #[trigger] picked[t] as int,
            #[trigger] picked[u] as int,
        ) by {
            assert(precedes(ranks@, picked[t] as int, picked[u] as int));
        }
        assert forall|i: int|
            0 <= i < entries.len() && entries[i].reactions >= min_reactions && !holds(
                picked@,
                i,
            ) implies picked.len() == max_entries && forall|t: int|
            0 <= t < picked.len() ==> shown_before(entries@, #[trigger] picked[t] as int, i) by {
            assert(ranks[i] is Some);
            assert forall|t: int| 0 <= t < picked.len() implies shown_before(
                entries@,
                #[trigger] picked[t] as int,
                i,
            ) by {
                assert(precedes(ranks@, picked[t] as int, i));
            }
        }
    }
    picked
}

/// Compares two standings for the order of the feed: `Less` where `a`
/// ranks above `b`, `Greater` where `b` ranks above `a`, `Equal` where
/// neither does.
pub fn compare_standings(a: &Standing, b: &Standing) -> (r: Ordering)
    ensures
        (r == Ordering::Less) == outranks(*a, *b),
        (r == Ordering::Greater) == outranks(*b, *a),
{
    if a.reactions > b.reactions {
        return Ordering::Less;
    }
    if a.reactions < b.reactions {
        return Ordering::Greater;
    }
    match (&a.published, &b.published) {
        (Some(x), Some(y)) => {
            if y.is_before(x) {
                Ordering::Less
            } else if x.is_before(y) {
                Ordering::Greater
            } else {
                Ordering::Equal
            }
        },
        (Some(_), None) => Ordering::Less,
        (None, Some(_)) => Ordering::Greater,
        (None, None) => Ordering::Equal,
    }
}

// ---------------------------------------------------------------------------
// The ranked view, stated of the store
// ---------------------------------------------------------------------------

/// What a record is ranked by.
pub open spec fn standing_of(item: StoredArticleView) -> Standing {
    Standing { reactions: item.public_reactions_count, published: published_of(item) }
}

/// Whether record `a` is listed before record `b`: it ranks above it, or
/// ranks the same and has the smaller key.
pub open spec fn listed_before(a: StoredArticleView, b: StoredArticleView) -> bool {
    outranks(standing_of(a), standing_of(b)) || (!outranks(standing_of(b), standing_of(a))
        && lex_lt(a.key, b.key))
}

/// Whether `list` holds a record with the key `k`.
pub open spec fn lists_key(list: Seq<StoredArticleView>, k: Seq<char>) -> bool {
    exists|t: int| 0 <= t < list.len() && (#[trigger] list[t]).key == k
}

/// Whether `list` is the ranked view of `store`: it holds only records of
/// the store with at least `min_reactions` public reactions, each listed
/// before the next, at most `max_entries` of them; and a record with
/// enough reactions that is missing would come after all that are listed
/// and is missing because the list was full.
pub open spec fn is_ranked(
    store: Map<Seq<char>, StoredArticleView>,
    min_reactions: u32,
    max_entries: int,
    list: Seq<StoredArticleView>,
) -> bool {
    &&& list.len() <= max_entries
    &&& forall|t: int|
        0 <= t < list.len() ==> store.contains_key((#[trigger] list[t]).key) && store[list[t].key]
            == list[t] && list[t].public_reactions_count >= min_reactions
    &&& forall|t: int, u: int|
        0 <= t < u < list.len() ==> listed_before(#[trigger] list[t], #[trigger] list[u])
    &&& forall|k: Seq<char>|
        #[trigger] store.contains_key(k) && store[k].public_reactions_count >= min_reactions
            && !lists_key(list, k) ==> list.len() == max_entries && forall|t: int|
            0 <= t < list.len() ==> listed_before(#[trigger] list[t], store[k])
}

/// The order in which records are listed.
pub open spec fn listing_order() -> spec_fn(StoredArticleView, StoredArticleView) -> bool {
    |a: StoredArticleView, b: StoredArticleView| listed_before(a, b)
}

/// The records of `store` with at least `min_reactions` public reactions.
pub open spec fn listed_records(store: Map<Seq<char>, StoredArticleView>, min_reactions: u32) -> spec_fn(
    StoredArticleView,
) -> bool {
    |r: StoredArticleView|
        store.contains_key(r.key) && store[r.key] == r && r.public_reactions_count >= min_reactions
}

/// Of two records with different keys exactly one is listed before the
/// other, and no record is listed before itself.
pub proof fn lemma_listed_before_total(a: StoredArticleView, b: StoredArticleView)
    ensures
        !(listed_before(a, b) && listed_before(b, a)),
        a.key != b.key ==> listed_before(a, b) || listed_before(b, a),
{
    lemma_lex_total(a.key, b.key);
    if lex_lt(a.key, b.key) {
        lemma_lex_asymmetric(a.key, b.key);
    }
}

/// The ranked view lists the first records with enough reactions in the
/// order of listing, which is strict and total on the records of a store.
pub proof fn lemma_ranked_is_first(
    store: Map<Seq<char>, StoredArticleView>,
    min_reactions: u32,
    max_entries: int,
    list: Seq<StoredArticleView>,
)
    requires
        is_ranked(store, min_reactions, max_entries, list),
    ensures
        is_strict_total(listing_order(), listed_records(store, min_reactions)),
        is_first(listing_order(), listed_records(store, min_reactions), max_entries, list),
{
    let before = listing_order();
    let eligible = listed_records(store, min_reactions);
    assert forall|x: StoredArticleView, y: StoredArticleView|
        #![trigger before(x, y)]
        eligible(x) && eligible(y) implies (before(x, y) ==> !before(y, x)) && (x != y ==> before(
        x,
        y,
    ) || before(y, x)) by {
        lemma_listed_before_total(x, y);
    }
    assert forall|x: StoredArticleView| #[trigger] eligible(x) && !list.contains(x) implies list.len()
        == max_entries && forall|t: int| 0 <= t < list.len() ==> before(#[trigger] list[t], x) by {
        if lists_key(list, x.key) {
            let t = choose|t: int| 0 <= t < list.len() && (#[trigger] list[t]).key == x.key;
            assert(list[t] == x);
        }
        assert(store.contains_key(x.key));
    }
}

/// The ranked view is determined by the store, the threshold and the
/// limit: which records are listed, and in which order.
pub proof fn lemma_ranked_unique(
    store: Map<Seq<char>, StoredArticleView>,
    min_reactions: u32,
    max_entries: int,
    p: Seq<StoredArticleView>,
    q: Seq<StoredArticleView>,
)
    requires
        is_ranked(store, min_reactions, max_entries, p),
        is_ranked(store, min_reactions, max_entries, q),
    ensures
        p == q,
{
    lemma_ranked_is_first(store, min_reactions, max_entries, p);
    lemma_ranked_is_first(store, min_reactions, max_entries, q);
    lemma_first_unique(listing_order(), listed_records(store, min_reactions), max_entries, p, q);
}

/// A record with fewer public reactions than the threshold is not in the
/// ranked view, though it is in the store.
pub proof fn lemma_ranked_leaves_out_below_threshold(
    store: Map<Seq<char>, StoredArticleView>,
    min_reactions: u32,
    max_entries: int,
    list: Seq<StoredArticleView>,
    k: Seq<char>,
)
    requires
        is_ranked(store, min_reactions, max_entries, list),
        store.contains_key(k),
        store[k].public_reactions_count < min_reactions,
    ensures
        !lists_key(list, k),
{
    if lists_key(list, k) {
        let t = choose|t: int| 0 <= t < list.len() && (#[trigger] list[t]).key == k;
        assert(store[list[t].key] == list[t]);
    }
}

/// In the ranked view a record with more public reactions comes before
/// one with fewer, whatever their dates; and of two records with equally
/// many the one published later comes first.
pub proof fn lemma_ranked_order(
    store: Map<Seq<char>, StoredArticleView>,
    min_reactions: u32,
    max_entries: int,
    list: Seq<StoredArticleView>,
    t: int,
    u: int,
)
    requires
        is_ranked(store, min_reactions, max_entries, list),
        0 <= t < list.len(),
        0 <= u < list.len(),
        list[t].public_reactions_count > list[u].public_reactions_count || (
        list[t].public_reactions_count == list[u].public_reactions_count && published_later(
            published_of(list[t]),
            published_of(list[u]),
        )),
    ensures
        t < u,
{
    if u < t {
        assert(listed_before(list[u], list[t]));
    }
}

/// What `item` is ranked by.
pub fn standing(item: &StoredArticle) -> (r: Standing)
    ensures
        r == standing_of(item@),
{
    Standing { reactions: item.public_reactions_count, published: published_time(item) }
}

} // verus!
