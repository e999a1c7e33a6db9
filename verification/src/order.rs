//! Choosing the first few of the things that qualify, under a strict order.
//!
//! Retention and projection both come down to this: among the things that
//! are eligible, take those that come first, up to a limit. This module
//! says what such a choice is and shows that there is only one.

use vstd::prelude::*;

verus! {

/// Whether `picked` lists the first `limit` eligible things in the order
/// `before`: only eligible things, each before the next, at most `limit`
/// of them; and an eligible thing that is left out comes after all that
/// are listed and was left out because the list was full.
pub open spec fn is_first<T>(
    before: spec_fn(T, T) -> bool,
    eligible: spec_fn(T) -> bool,
    limit: int,
    picked: Seq<T>,
) -> bool {
    &&& picked.len() <= limit
    &&& forall|t: int| 0 <= t < picked.len() ==> eligible(#[trigger] picked[t])
    &&& forall|t: int, u: int|
        0 <= t < u < picked.len() ==> before(#[trigger] picked[t], #[trigger] picked[u])
    &&& forall|x: T| #[trigger]
        eligible(x) && !picked.contains(x) ==> picked.len() == limit && forall|t: int|
            0 <= t < picked.len() ==> before(#[trigger] picked[t], x)
}

/// Whether `before` orders the eligible things strictly and totally: of two
/// different ones exactly one comes before the other, and none comes
/// before itself.
pub open spec fn is_strict_total<T>(before: spec_fn(T, T) -> bool, eligible: spec_fn(T) -> bool) -> bool {
    &&& forall|x: T, y: T| #![trigger before(x, y)] eligible(x) && eligible(y) && before(x, y) ==> !before(y, x)
    &&& forall|x: T, y: T|
        #![trigger before(x, y)]
        eligible(x) && eligible(y) && x != y ==> before(x, y) || before(y, x)
}

/// Two lists of the first `limit` eligible things agree on their first `k`
/// entries, and the second is at least as long as the first is up to
/// there.
proof fn lemma_first_prefix<T>(
    before: spec_fn(T, T) -> bool,
    eligible: spec_fn(T) -> bool,
    limit: int,
    p: Seq<T>,
    q: Seq<T>,
    k: int,
)
    requires
        is_strict_total(before, eligible),
        is_first(before, eligible, limit, p),
        is_first(before, eligible, limit, q),
        0 <= k <= p.len(),
    ensures
        k <= q.len(),
        forall|t: int| 0 <= t < k ==> p[t] == q[t],
    decreases k,
{
    if k > 0 {
        lemma_first_prefix(before, eligible, limit, p, q, k - 1);
        let t = k - 1;
        let x = p[t];
        assert(eligible(x));
        // `x` is not among the first `t` entries of `q`: those are entries of `p`
        // that come before `x`.
        assert forall|u: int| 0 <= u < t implies q[u] != x by {
            assert(before(p[u], p[t]));
            assert(eligible(p[u]));
        }
        if q.len() == t {
            // `q` leaves `x` out, so it is full, and `p` is longer than the limit.
            if q.contains(x) {
                let u = choose|u: int| 0 <= u < q.len() && q[u] == x;
                assert(q[u] != x);
            }
            assert(false);
        }
        let y = q[t];
        assert(eligible(y));
        if x != y {
            if before(x, y) {
                if q.contains(x) {
                    let u = choose|u: int| 0 <= u < q.len() && q[u] == x;
                    if u > t {
                        assert(before(q[t], q[u]));
                    } else {
                        assert(q[u] != x);
                    }
                } else {
                    assert(before(q[t], x));
                }
            } else {
                assert(before(y, x));
                if p.contains(y) {
                    let u = choose|u: int| 0 <= u < p.len() && p[u] == y;
                    if u > t {
                        assert(before(p[t], p[u]));
                    } else if u < t {
                        assert(q[u] == p[u]);
                        assert(before(q[u], q[t]));
                    }
                } else {
                    assert(before(p[t], y));
                }
            }
            assert(false);
        }
    }
}

/// There is only one list of the first `limit` eligible things: the choice
/// is determined by the order, by what is eligible and by the limit.
pub proof fn lemma_first_unique<T>(
    before: spec_fn(T, T) -> bool,
    eligible: spec_fn(T) -> bool,
    limit: int,
    p: Seq<T>,
    q: Seq<T>,
)
    requires
        is_strict_total(before, eligible),
        is_first(before, eligible, limit, p),
        is_first(before, eligible, limit, q),
    ensures
        p == q,
{
    lemma_first_prefix(before, eligible, limit, p, q, p.len() as int);
    lemma_first_prefix(before, eligible, limit, q, p, q.len() as int);
    assert(p =~= q);
}

} // verus!
