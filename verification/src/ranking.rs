//! Ordering results by descending score, ties in insertion order.

use vstd::prelude::*;

verus! {

/// Whether the result at index `a` ranks strictly before the one at index
/// `b`: it has the larger key, or the same key and was inserted first.
pub open spec fn ranks_before(keys: Seq<u32>, a: int, b: int) -> bool {
    keys[a] > keys[b] || (keys[a] == keys[b] && a < b)
}

/// Whether `order` is the ranking of the results whose score keys are
/// `keys`: it lists every index of `keys`, and each index it lists ranks
/// before all those that follow it.
pub open spec fn is_ranking(keys: Seq<u32>, order: Seq<usize>) -> bool {
    &&& order.len() == keys.len()
    &&& forall|i: int| 0 <= i < order.len() ==> (#[trigger] order[i]) < keys.len()
    &&& forall|k: int| 0 <= k < keys.len() ==> lists(order, k)
    &&& forall|i: int, j: int|
        0 <= i < j < order.len() ==> ranks_before(
            keys,
            (#[trigger] order[i]) as int,
            (#[trigger] order[j]) as int,
        )
}

/// Whether index `k` occurs in `order`.
pub open spec fn lists(order: Seq<usize>, k: int) -> bool {
    exists|i: int| 0 <= i < order.len() && #[trigger] order[i] == k
}

/// Ranks the indices of `keys` by descending key. Indices with equal keys
/// keep their ascending order, so the ranking is that of a stable sort.
pub fn rank_keys(keys: &Vec<u32>) -> (order: Vec<usize>)
    ensures
        is_ranking(keys@, order@),
{
    let mut order: Vec<usize> = Vec::new();
    let mut m: usize = 0;
    while m < keys.len()
        invariant
            m <= keys.len(),
            is_ranking(keys@.take(m as int), order@),
        decreases keys.len() - m,
    {
        let key = keys[m];
        let mut p: usize = 0;
        while p < order.len() && keys[order[p]] >= key
            invariant
                m < keys.len(),
                key == keys[m as int],
                p <= order.len(),
                is_ranking(keys@.take(m as int), order@),
                forall|i: int| 0 <= i < p ==> keys[(#[trigger] order[i]) as int] >= key,
            decreases order.len() - p,
        {
            p += 1;
        }
        let ghost before = order@;
        order.insert(p, m);
        proof {
            lemma_insert_ranks(keys@, before, m, p as int);
        }
        m += 1;
    }
    assert(keys@.take(keys.len() as int) =~= keys@);
    order
}

/// Putting index `m` after the indices whose key is at least its own, and
/// before those with a smaller key, extends a ranking of the first `m` keys
/// to a ranking of the first `m + 1`.
proof fn lemma_insert_ranks(keys: Seq<u32>, before: Seq<usize>, m: usize, p: int)
    requires
        m < keys.len(),
        0 <= p <= before.len(),
        is_ranking(keys.take(m as int), before),
        forall|i: int| 0 <= i < p ==> keys[(#[trigger] before[i]) as int] >= keys[m as int],
        p < before.len() ==> keys[before[p] as int] < keys[m as int],
    ensures
        is_ranking(keys.take(m + 1), before.insert(p, m)),
{
    let old_keys = keys.take(m as int);
    let new_keys = keys.take(m + 1);
    let after = before.insert(p, m);
    assert forall|i: int| p <= i < before.len() implies keys[(#[trigger] before[i]) as int]
        < keys[m as int] by {
        if i > p {
            assert(ranks_before(old_keys, before[p] as int, before[i] as int));
        }
    }
    assert forall|k: int| 0 <= k < new_keys.len() implies lists(after, k) by {
        if k < m {
            assert(lists(before, k));
            let i = choose|i: int| 0 <= i < before.len() && #[trigger] before[i] == k;
            if i < p {
                assert(after[i] == k);
            } else {
                assert(after[i + 1] == k);
            }
        } else {
            assert(after[p] == k);
        }
    }
    assert forall|i: int, j: int| 0 <= i < j < after.len() implies ranks_before(
        new_keys,
        (#[trigger] after[i]) as int,
        (#[trigger] after[j]) as int,
    ) by {
        if j < p {
            assert(ranks_before(old_keys, before[i] as int, before[j] as int));
        } else if j == p {
            assert(after[i] == before[i]);
        } else if i < p {
            assert(ranks_before(old_keys, before[i] as int, before[j - 1] as int));
        } else if i == p {
            assert(after[j] == before[j - 1]);
        } else {
            assert(ranks_before(old_keys, before[i - 1] as int, before[j - 1] as int));
        }
    }
}

/// Two rankings of the same keys agree on their first `p` places.
proof fn lemma_rankings_agree(keys: Seq<u32>, a: Seq<usize>, b: Seq<usize>, p: int)
    requires
        is_ranking(keys, a),
        is_ranking(keys, b),
        0 <= p <= keys.len(),
    ensures
        forall|i: int| 0 <= i < p ==> a[i] == b[i],
    decreases p,
{
    if p > 0 {
        lemma_rankings_agree(keys, a, b, p - 1);
        let q = p - 1;
        let x = a[q] as int;
        let y = b[q] as int;
        if x != y {
            assert(lists(b, x));
            let s = choose|s: int| 0 <= s < b.len() && #[trigger] b[s] == x;
            if s < q {
                assert(ranks_before(keys, a[s] as int, a[q] as int));
            }
            assert(ranks_before(keys, b[q] as int, b[s] as int));
            assert(lists(a, y));
            let r = choose|r: int| 0 <= r < a.len() && #[trigger] a[r] == y;
            if r < q {
                assert(ranks_before(keys, b[r] as int, b[q] as int));
            }
            assert(ranks_before(keys, a[q] as int, a[r] as int));
        }
    }
}

/// The ranking of given keys is unique: ranking the same results twice
/// gives the same order.
pub proof fn lemma_ranking_unique(keys: Seq<u32>, a: Seq<usize>, b: Seq<usize>)
    requires
        is_ranking(keys, a),
        is_ranking(keys, b),
    ensures
        a == b,
{
    lemma_rankings_agree(keys, a, b, keys.len() as int);
    assert(a =~= b);
}

/// In a ranking no index occurs twice, keys never increase from one place
/// to the next, and among equal keys the indices increase: the order is a
/// permutation of the indices, sorted by descending key, stable.
pub proof fn lemma_ranking_sorted(keys: Seq<u32>, order: Seq<usize>, i: int, j: int)
    requires
        is_ranking(keys, order),
        0 <= i < j < order.len(),
    ensures
        order[i] != order[j],
        keys[order[i] as int] >= keys[order[j] as int],
        keys[order[i] as int] == keys[order[j] as int] ==> order[i] < order[j],
{
    assert(ranks_before(keys, order[i] as int, order[j] as int));
}

} // verus!
