//! k-combinations in lexicographic order.
//!
//! Both the H-to-V and V-to-H conversions of the 4D polytope engine and its
//! face enumeration walk all 4-element subsets of a list (of facet indices,
//! or of vertices).  This module provides that enumeration, specified
//! exactly: `index_combos` is the mathematical list of all strictly
//! increasing index sequences, in lexicographic order, and `combinations`
//! returns the corresponding selections from the input list.

use vstd::prelude::*;

verus! {

/// All k-element subsets of `{start, ..., n-1}`, each written as a strictly
/// increasing sequence, listed in lexicographic order: first the subsets
/// containing `start` (recursively combined with `k-1` later elements), then
/// those that skip it.
pub open spec fn index_combos(n: int, start: int, k: int) -> Seq<Seq<int>>
    decreases k, n - start,
{
    if k <= 0 {
        seq![Seq::<int>::empty()]
    } else if start > n - k {
        Seq::<Seq<int>>::empty()
    } else {
        index_combos(n, start + 1, k - 1).map_values(|s: Seq<int>| seq![start] + s)
            + index_combos(n, start + 1, k)
    }
}

/// The entries of `items` selected by the index sequence `s`.
pub open spec fn picked<T>(items: Seq<T>, s: Seq<int>) -> Seq<T> {
    s.map_values(|i: int| items[i])
}

/// The views of a sequence of vectors.
pub open spec fn seq_views<T>(vs: Seq<Vec<T>>) -> Seq<Seq<T>> {
    vs.map_values(|v: Vec<T>| v@)
}

/// Whether `s` is a strictly increasing sequence of `k` indices drawn from
/// `{start, ..., n-1}`.
pub open spec fn is_sorted_pick(s: Seq<int>, n: int, start: int, k: int) -> bool {
    &&& s.len() == k
    &&& forall|j: int| 0 <= j < s.len() ==> start <= #[trigger] s[j] < n
    &&& forall|j: int| 0 <= j < s.len() - 1 ==> #[trigger] s[j] < s[j + 1]
}

/// The number of k-element subsets of an n-element set (Pascal's rule).
pub open spec fn binomial(n: int, k: int) -> int
    decreases n,
{
    if k < 0 || k > n {
        0
    } else if k == 0 || k == n {
        1
    } else {
        binomial(n - 1, k - 1) + binomial(n - 1, k)
    }
}

/// In a strictly increasing sequence, the j-th entry is at least the first
/// entry plus j.
proof fn lemma_sorted_growth(s: Seq<int>, j: int)
    requires
        forall|t: int| 0 <= t < s.len() - 1 ==> #[trigger] s[t] < s[t + 1],
        0 <= j < s.len(),
    ensures
        s[j] >= s[0] + j,
    decreases j,
{
    if j > 0 {
        lemma_sorted_growth(s, j - 1);
        assert(s[j - 1] < s[j]);
    }
}

/// Soundness of the enumeration: every listed sequence is a strictly
/// increasing selection of `k` indices from `{start, ..., n-1}`.
pub proof fn lemma_index_combos_sound(n: int, start: int, k: int, idx: int)
    requires
        0 <= k,
        0 <= idx < index_combos(n, start, k).len(),
    ensures
        is_sorted_pick(index_combos(n, start, k)[idx], n, start, k),
    decreases k, n - start,
{
    let s = index_combos(n, start, k)[idx];
    if k == 0 {
        assert(s =~= Seq::<int>::empty());
    } else if start > n - k {
        // the enumeration is empty; no such idx
    } else {
        let block = index_combos(n, start + 1, k - 1).map_values(
            |t: Seq<int>| seq![start] + t,
        );
        let rest = index_combos(n, start + 1, k);
        if idx < block.len() {
            let inner = index_combos(n, start + 1, k - 1)[idx];
            lemma_index_combos_sound(n, start + 1, k - 1, idx);
            assert(s == seq![start] + inner);
            assert forall|j: int| 0 <= j < s.len() implies start <= #[trigger] s[j] < n by {
                if j > 0 {
                    assert(s[j] == inner[j - 1]);
                }
            }
            assert forall|j: int| 0 <= j < s.len() - 1 implies #[trigger] s[j] < s[j + 1] by {
                if j == 0 {
                    assert(s[1] == inner[0]);
                } else {
                    assert(s[j] == inner[j - 1] && s[j + 1] == inner[j]);
                }
            }
        } else {
            assert(s == rest[idx - block.len()]);
            lemma_index_combos_sound(n, start + 1, k, idx - block.len());
        }
    }
}

/// Completeness of the enumeration: every strictly increasing selection of
/// `k` indices from `{start, ..., n-1}` is listed.
pub proof fn lemma_index_combos_complete(n: int, start: int, k: int, s: Seq<int>)
    requires
        0 <= k,
        is_sorted_pick(s, n, start, k),
    ensures
        index_combos(n, start, k).contains(s),
    decreases k, n - start,
{
    if k == 0 {
        assert(s =~= Seq::<int>::empty());
        assert(index_combos(n, start, 0)[0] == s);
    } else {
        lemma_sorted_growth(s, k - 1);
        assert(start + k - 1 <= s[k - 1] < n);
        let inner = index_combos(n, start + 1, k - 1);
        let block = inner.map_values(|t: Seq<int>| seq![start] + t);
        let rest = index_combos(n, start + 1, k);
        if s[0] == start {
            let tail = s.subrange(1, k as int);
            assert forall|j: int| 0 <= j < tail.len() implies start + 1 <= #[trigger] tail[j]
                < n by {
                assert(tail[j] == s[j + 1]);
                lemma_sorted_growth(s, j + 1);
            }
            assert forall|j: int| 0 <= j < tail.len() - 1 implies #[trigger] tail[j] < tail[j
                + 1] by {
                assert(tail[j] == s[j + 1] && tail[j + 1] == s[j + 2]);
            }
            lemma_index_combos_complete(n, start + 1, k - 1, tail);
            let w = choose|w: int| 0 <= w < inner.len() && inner[w] == tail;
            assert(seq![start] + tail =~= s);
            assert(index_combos(n, start, k)[w] == block[w]);
            assert(index_combos(n, start, k)[w] == s);
        } else {
            assert forall|j: int| 0 <= j < s.len() implies start + 1 <= #[trigger] s[j] < n by {
                lemma_sorted_growth(s, j);
            }
            lemma_index_combos_complete(n, start + 1, k, s);
            let w = choose|w: int| 0 <= w < rest.len() && rest[w] == s;
            assert(index_combos(n, start, k)[block.len() + w] == s);
        }
    }
}

/// Each subset is listed at most once: the enumeration has no duplicates.
pub proof fn lemma_index_combos_distinct(n: int, start: int, k: int)
    requires
        0 <= k,
    ensures
        index_combos(n, start, k).no_duplicates(),
    decreases k, n - start,
{
    let whole = index_combos(n, start, k);
    if k == 0 {
        assert(whole.len() == 1);
    } else if start > n - k {
        assert(whole.len() == 0);
    } else {
        let inner = index_combos(n, start + 1, k - 1);
        let block = inner.map_values(|t: Seq<int>| seq![start] + t);
        let rest = index_combos(n, start + 1, k);
        lemma_index_combos_distinct(n, start + 1, k - 1);
        lemma_index_combos_distinct(n, start + 1, k);
        assert forall|i: int, j: int| 0 <= i < j < whole.len() implies whole[i] != whole[j] by {
            if j < block.len() {
                // Two prepended entries: equal heads, so equality would force
                // the distinct inner entries to coincide.
                if whole[i] == whole[j] {
                    assert(inner[i] =~= inner[j]) by {
                        assert(inner[i].len() == inner[j].len()) by {
                            assert((seq![start] + inner[i]).len() == (seq![start]
                                + inner[j]).len());
                        }
                        assert forall|t: int| 0 <= t < inner[i].len() implies inner[i][t]
                            == inner[j][t] by {
                            assert((seq![start] + inner[i])[t + 1] == inner[i][t]);
                            assert((seq![start] + inner[j])[t + 1] == inner[j][t]);
                        }
                    }
                }
            } else if i >= block.len() {
                assert(whole[i] == rest[i - block.len()]);
                assert(whole[j] == rest[j - block.len()]);
            } else {
                // One entry from each part: they differ in the first index.
                lemma_index_combos_sound(n, start + 1, k, j - block.len());
                assert(whole[j] == rest[j - block.len()]);
                assert(whole[j][0] >= start + 1);
                assert(whole[i] == seq![start] + inner[i]);
                assert(whole[i][0] == start);
            }
        }
    }
}

/// The enumeration has exactly "n - start choose k" entries.
pub proof fn lemma_index_combos_count(n: int, start: int, k: int)
    requires
        0 <= k,
        start <= n,
    ensures
        index_combos(n, start, k).len() == binomial(n - start, k),
    decreases k, n - start,
{
    let m = n - start;
    if k == 0 {
        assert(binomial(m, 0) == 1);
    } else if start > n - k {
        assert(binomial(m, k) == 0);
    } else {
        lemma_index_combos_count(n, start + 1, k - 1);
        lemma_index_combos_count(n, start + 1, k);
        if k == m {
            assert(binomial(m - 1, k - 1) == 1);
            assert(binomial(m - 1, k) == 0);
            assert(binomial(m, k) == 1);
        }
    }
}

/// The characterization of `index_combos` from position zero: membership is
/// exactly "strictly increasing selection of k indices below n".
pub proof fn lemma_index_combos_characterize(n: int, k: int, s: Seq<int>)
    requires
        0 <= k,
    ensures
        index_combos(n, 0, k).contains(s) <==> is_sorted_pick(s, n, 0, k),
{
    if index_combos(n, 0, k).contains(s) {
        let idx = choose|idx: int|
            0 <= idx < index_combos(n, 0, k).len() && index_combos(n, 0, k)[idx] == s;
        lemma_index_combos_sound(n, 0, k, idx);
    }
    if is_sorted_pick(s, n, 0, k) {
        lemma_index_combos_complete(n, 0, k, s);
    }
}

/// An element-wise copy of a vector of copyable items.
pub fn copy_of<T: Copy>(v: &Vec<T>) -> (r: Vec<T>)
    ensures
        r@ == v@,
{
    let mut r: Vec<T> = Vec::new();
    for j in 0..v.len()
        invariant
            r@ == v@.take(j as int),
    {
        r.push(v[j]);
    }
    assert(v@.take(v@.len() as int) =~= v@);
    r
}

/// Extends `out` with every combination of `k` of the items at positions
/// `start..items.len()`, each prefixed by the current partial selection;
/// `current` is restored on return.
fn combo_rec<T: Copy>(
    items: &Vec<T>,
    start: usize,
    k: usize,
    current: &mut Vec<T>,
    out: &mut Vec<Vec<T>>,
)
    requires
        k <= items@.len(),
        start + k <= items@.len() + 1,
    ensures
        final(current)@ == old(current)@,
        seq_views(final(out)@) == seq_views(old(out)@) + index_combos(
            items@.len() as int,
            start as int,
            k as int,
        ).map_values(|s: Seq<int>| old(current)@ + picked(items@, s)),
    decreases k,
{
    let ghost n = items@.len() as int;
    let ghost pre = |s: Seq<int>| old(current)@ + picked(items@, s);
    if k == 0 {
        let c = copy_of(current);
        out.push(c);
        proof {
            assert(index_combos(n, start as int, 0) =~= seq![Seq::<int>::empty()]);
            assert(pre(Seq::<int>::empty()) =~= old(current)@);
            assert(seq_views(out@) =~= seq_views(old(out)@) + index_combos(n, start as int, 0)
                .map_values(pre));
        }
        return;
    }
    let end: usize = items.len() - k + 1;
    for i in start..end
        invariant
            1 <= k <= items@.len(),
            end == items@.len() - k + 1,
            n == items@.len() as int,
            current@ == old(current)@,
            pre == (|s: Seq<int>| old(current)@ + picked(items@, s)),
            seq_views(out@) + index_combos(n, i as int, k as int).map_values(pre) == seq_views(
                old(out)@,
            ) + index_combos(n, start as int, k as int).map_values(pre),
        decreases end - i,
    {
        let ghost out_i = out@;
        current.push(items[i]);
        let ghost mid = current@;
        combo_rec(items, i + 1, k - 1, current, out);
        let _popped = current.pop();
        proof {
            assert(current@ =~= old(current)@);
            // Unfold one step of the enumeration at position i.
            assert(index_combos(n, i as int, k as int) == index_combos(n, i as int + 1, k as int
                - 1).map_values(|s: Seq<int>| seq![i as int] + s) + index_combos(
                n,
                i as int + 1,
                k as int,
            ));
            let block = index_combos(n, i as int + 1, k as int - 1);
            let pre_mid = |s: Seq<int>| mid + picked(items@, s);
            // Prefixing with `current` after prepending index i is the same as
            // prefixing with `current + [items[i]]`.
            assert(block.map_values(|s: Seq<int>| seq![i as int] + s).map_values(pre)
                =~= block.map_values(pre_mid)) by {
                assert forall|j: int| 0 <= j < block.len() implies pre(seq![i as int] + block[j])
                    == pre_mid(block[j]) by {
                    assert(picked(items@, seq![i as int] + block[j]) =~= seq![items@[i as int]]
                        + picked(items@, block[j]));
                    assert(pre(seq![i as int] + block[j]) =~= pre_mid(block[j]));
                }
            }
            assert(index_combos(n, i as int, k as int).map_values(pre) =~= block.map_values(
                |s: Seq<int>| seq![i as int] + s,
            ).map_values(pre) + index_combos(n, i as int + 1, k as int).map_values(pre));
            assert(seq_views(out@) =~= seq_views(out_i) + block.map_values(pre_mid));
        }
    }
    proof {
        assert(index_combos(n, end as int, k as int) =~= Seq::<Seq<int>>::empty());
        assert(seq_views(out@) =~= seq_views(out@) + index_combos(n, end as int, k as int)
            .map_values(pre));
    }
}

/// All k-combinations of `items`, in lexicographic order of the selected
/// positions.  Mirrors the conventions of its callers: `k == 0` and `k`
/// larger than the list both yield the empty enumeration.
pub fn combinations<T: Copy>(items: &Vec<T>, k: usize) -> (out: Vec<Vec<T>>)
    ensures
        k == 0 || k > items@.len() ==> out@ == Seq::<Vec<T>>::empty(),
        0 < k <= items@.len() ==> seq_views(out@) == index_combos(
            items@.len() as int,
            0,
            k as int,
        ).map_values(|s: Seq<int>| picked(items@, s)),
{
    if k == 0 || k > items.len() {
        return Vec::new();
    }
    let mut out: Vec<Vec<T>> = Vec::new();
    let mut current: Vec<T> = Vec::new();
    combo_rec(items, 0, k, &mut current, &mut out);
    proof {
        let pre = |s: Seq<int>| Seq::<T>::empty() + picked(items@, s);
        let plain = |s: Seq<int>| picked(items@, s);
        let target = index_combos(items@.len() as int, 0, k as int);
        assert(target.map_values(pre) =~= target.map_values(plain)) by {
            assert forall|j: int| 0 <= j < target.len() implies pre(target[j]) == plain(
                target[j],
            ) by {
                assert(Seq::<T>::empty() + picked(items@, target[j]) =~= picked(
                    items@,
                    target[j],
                ));
            }
        }
        assert(seq_views(Seq::<Vec<T>>::empty()) =~= Seq::<Seq<T>>::empty());
    }
    out
}

} // verus!
