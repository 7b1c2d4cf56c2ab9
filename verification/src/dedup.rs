//! First-occurrence filtering of quantized keys.
//!
//! The V-to-H conversion of the 4D engine produces one candidate supporting
//! hyperplane per 4-tuple of vertices, so numerically equal planes recur
//! many times.  Each plane is quantized to an integer key (normal and
//! offset, rounded at the tolerance), and only the first occurrence of each
//! key is kept.  The quantization is numerical and stays with the engine;
//! the filtering is exact and verified here: the kept positions are exactly
//! those whose key has not appeared earlier, in ascending order.

use vstd::prelude::*;

verus! {

/// A quantized hyperplane key: the four normal components and the offset,
/// rounded at the tolerance.
pub type QuantKey = (i64, i64, i64, i64, i64);

/// Whether an equal key occurs before position `i`.
pub open spec fn seen_before(keys: Seq<QuantKey>, i: int) -> bool {
    exists|j: int| 0 <= j < i && keys[j] == keys[i]
}

/// The first-occurrence positions among `0..m`, in ascending order.
pub open spec fn firsts_upto(keys: Seq<QuantKey>, m: int) -> Seq<usize>
    decreases m,
{
    if m <= 0 {
        Seq::<usize>::empty()
    } else {
        firsts_upto(keys, m - 1) + (if seen_before(keys, m - 1) {
            Seq::<usize>::empty()
        } else {
            seq![(m - 1) as usize]
        })
    }
}

/// The positions whose key has no earlier equal, in ascending order.
pub open spec fn first_occurrence_positions(keys: Seq<QuantKey>) -> Seq<usize> {
    firsts_upto(keys, keys.len() as int)
}

/// Membership in the first-occurrence list is exactly "no earlier equal
/// key"; the list is strictly increasing.
pub proof fn lemma_firsts_upto(keys: Seq<QuantKey>, m: int)
    requires
        0 <= m <= usize::MAX,
    ensures
        forall|p: usize|
            firsts_upto(keys, m).contains(p) <==> (p < m && !seen_before(keys, p as int)),
        forall|j1: int, j2: int|
            0 <= j1 < j2 < firsts_upto(keys, m).len() ==> firsts_upto(keys, m)[j1]
                < firsts_upto(keys, m)[j2],
        forall|j: int|
            0 <= j < firsts_upto(keys, m).len() ==> firsts_upto(keys, m)[j] < m,
    decreases m,
{
    if m > 0 {
        lemma_firsts_upto(keys, m - 1);
        let prev = firsts_upto(keys, m - 1);
        let cur = firsts_upto(keys, m);
        assert forall|p: usize| cur.contains(p) implies (p < m && !seen_before(
            keys,
            p as int,
        )) by {
            let j = choose|j: int| 0 <= j < cur.len() && cur[j] == p;
            if j < prev.len() {
                assert(prev[j] == p);
                assert(prev.contains(p));
            } else {
                assert(!seen_before(keys, m - 1));
                assert(p == (m - 1) as usize);
            }
        }
        assert forall|p: usize| (p < m && !seen_before(keys, p as int)) implies cur.contains(
            p,
        ) by {
            if p < m - 1 {
                assert(prev.contains(p));
                let j = choose|j: int| 0 <= j < prev.len() && prev[j] == p;
                assert(cur[j] == p);
            } else {
                assert(p == (m - 1) as usize);
                assert(cur[cur.len() - 1] == p);
            }
        }
    }
}

/// Whether the two keys agree in every component.
fn keys_equal(a: &QuantKey, b: &QuantKey) -> (r: bool)
    ensures
        r == (*a == *b),
{
    a.0 == b.0 && a.1 == b.1 && a.2 == b.2 && a.3 == b.3 && a.4 == b.4
}

/// The positions of the first occurrence of each key, in ascending order.
pub fn first_occurrences(keys: &Vec<QuantKey>) -> (r: Vec<usize>)
    ensures
        r@ == first_occurrence_positions(keys@),
{
    let mut r: Vec<usize> = Vec::new();
    for i in 0..keys.len()
        invariant
            r@ == firsts_upto(keys@, i as int),
    {
        let mut fresh = true;
        for j in 0..i
            invariant
                i < keys@.len(),
                fresh == !(exists|t: int| 0 <= t < j && keys@[t] == keys@[i as int]),
        {
            if keys_equal(&keys[j], &keys[i]) {
                proof {
                    assert(keys@[j as int] == keys@[i as int]);
                }
                fresh = false;
            }
        }
        if fresh {
            r.push(i);
        }
        proof {
            assert(fresh == !seen_before(keys@, i as int));
            assert(r@ =~= firsts_upto(keys@, i as int + 1));
        }
    }
    r
}

} // verus!
