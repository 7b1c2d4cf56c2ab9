//! Face-lattice grouping by tight facet sets.
//!
//! The 4D engine enumerates faces by saturation: for each vertex it records
//! the set of facets whose inequality is tight on it, and a d-codimension
//! face is the set of vertices sharing `k` tight facets (one facet for a
//! facet record, a pair for a 2-face, a triple for an edge).  Computing the
//! tight sets is numerical; the grouping itself is exact combinatorics on
//! indices and is verified here: for every k-subset of facet indices, in
//! lexicographic order, the group lists exactly the vertices whose tight set
//! contains the subset, kept when the group meets a minimum size.

use vstd::prelude::*;
use crate::combos::combinations;
use crate::combos::index_combos;
use crate::combos::is_sorted_pick;
use crate::combos::lemma_index_combos_complete;
use crate::combos::lemma_index_combos_sound;
use crate::combos::picked;
use crate::combos::seq_views;

verus! {

/// Whether every entry of `key` occurs in `set`.
pub open spec fn is_subset(key: Seq<usize>, set: Seq<usize>) -> bool {
    forall|i: int| 0 <= i < key.len() ==> set.contains(#[trigger] key[i])
}

/// The vertices among `0..m` whose tight set contains `key`, in increasing
/// order.
pub open spec fn incident_upto(tight: Seq<Seq<usize>>, key: Seq<usize>, m: int) -> Seq<usize>
    decreases m,
{
    if m <= 0 {
        Seq::<usize>::empty()
    } else {
        incident_upto(tight, key, m - 1) + (if is_subset(key, tight[m - 1]) {
            seq![(m - 1) as usize]
        } else {
            Seq::<usize>::empty()
        })
    }
}

/// The vertices whose tight set contains `key`, in increasing order.
pub open spec fn incident_vertices(tight: Seq<Seq<usize>>, key: Seq<usize>) -> Seq<usize> {
    incident_upto(tight, key, tight.len() as int)
}

/// A face record: the defining facet subset and the incident vertices, both
/// as index lists.
pub struct FaceGroup {
    pub facets: Vec<usize>,
    pub vertices: Vec<usize>,
}

/// The (facet, vertex) index-sequence pairs of a list of face records.
pub open spec fn group_views(gs: Seq<FaceGroup>) -> Seq<(Seq<usize>, Seq<usize>)> {
    gs.map_values(|g: FaceGroup| (g.facets@, g.vertices@))
}

/// An index sequence written with machine integers.
pub open spec fn key_of(s: Seq<int>) -> Seq<usize> {
    s.map_values(|i: int| i as usize)
}

/// One group per k-subset of the facet indices `0..m`, in lexicographic
/// order, regardless of size.
pub open spec fn groups_all(tight: Seq<Seq<usize>>, m: int, k: int) -> Seq<
    (Seq<usize>, Seq<usize>),
> {
    index_combos(m, 0, k).map_values(
        |s: Seq<int>| (key_of(s), incident_vertices(tight, key_of(s))),
    )
}

/// The groups with at least `min` incident vertices, in order.
pub open spec fn kept_groups(gs: Seq<(Seq<usize>, Seq<usize>)>, min: int) -> Seq<
    (Seq<usize>, Seq<usize>),
> {
    gs.filter(|p: (Seq<usize>, Seq<usize>)| p.1.len() >= min)
}

/// The groups the face enumeration produces: one per k-subset of the facet
/// indices, in lexicographic order, kept when at least `min` vertices are
/// incident.
pub open spec fn groups_spec(tight: Seq<Seq<usize>>, m: int, k: int, min: int) -> Seq<
    (Seq<usize>, Seq<usize>),
> {
    kept_groups(groups_all(tight, m, k), min)
}

/// Membership in the incident list is exactly "vertex index below the bound,
/// key contained in its tight set"; the list is strictly increasing.
pub proof fn lemma_incident_upto(tight: Seq<Seq<usize>>, key: Seq<usize>, m: int)
    requires
        0 <= m <= usize::MAX,
    ensures
        forall|vi: usize|
            incident_upto(tight, key, m).contains(vi) <==> (vi < m && is_subset(
                key,
                tight[vi as int],
            )),
        forall|j1: int, j2: int|
            0 <= j1 < j2 < incident_upto(tight, key, m).len() ==> incident_upto(
                tight,
                key,
                m,
            )[j1] < incident_upto(tight, key, m)[j2],
        forall|j: int|
            0 <= j < incident_upto(tight, key, m).len() ==> incident_upto(tight, key, m)[j]
                < m,
    decreases m,
{
    if m > 0 {
        lemma_incident_upto(tight, key, m - 1);
        let prev = incident_upto(tight, key, m - 1);
        let cur = incident_upto(tight, key, m);
        assert forall|vi: usize| cur.contains(vi) implies (vi < m && is_subset(
            key,
            tight[vi as int],
        )) by {
            let j = choose|j: int| 0 <= j < cur.len() && cur[j] == vi;
            if j < prev.len() {
                assert(prev[j] == vi);
                assert(prev.contains(vi));
            } else {
                assert(is_subset(key, tight[m - 1]));
                assert(vi == (m - 1) as usize);
            }
        }
        assert forall|vi: usize| (vi < m && is_subset(key, tight[vi as int])) implies
            cur.contains(vi) by {
            if vi < m - 1 {
                assert(prev.contains(vi));
                let j = choose|j: int| 0 <= j < prev.len() && prev[j] == vi;
                assert(cur[j] == vi);
            } else {
                assert(vi == (m - 1) as usize);
                assert(cur[cur.len() - 1] == vi);
            }
        }
    }
}

/// Membership characterization for the full incident list.
pub proof fn lemma_incident_vertices(tight: Seq<Seq<usize>>, key: Seq<usize>)
    requires
        tight.len() <= usize::MAX,
    ensures
        forall|vi: usize|
            incident_vertices(tight, key).contains(vi) <==> (vi < tight.len() && is_subset(
                key,
                tight[vi as int],
            )),
        forall|j1: int, j2: int|
            0 <= j1 < j2 < incident_vertices(tight, key).len() ==> incident_vertices(
                tight,
                key,
            )[j1] < incident_vertices(tight, key)[j2],
{
    lemma_incident_upto(tight, key, tight.len() as int);
}

/// Which pairs the face grouping yields, characterized: a (key, vertex-list)
/// pair is produced exactly when the key is a strictly increasing sequence
/// of `k` facet indices below `m`, the list is exactly the vertices whose
/// tight set contains the key, and the list meets the threshold.
pub proof fn lemma_groups_spec_characterize(
    tight: Seq<Seq<usize>>,
    m: int,
    k: int,
    min: int,
    key: Seq<usize>,
    verts: Seq<usize>,
)
    requires
        0 <= k,
        0 <= m <= usize::MAX,
    ensures
        groups_spec(tight, m, k, min).contains((key, verts)) <==> {
            &&& key.len() == k
            &&& forall|j: int| 0 <= j < key.len() ==> (#[trigger] key[j]) < m
            &&& forall|j: int| 0 <= j < key.len() - 1 ==> (#[trigger] key[j]) < key[j + 1]
            &&& verts == incident_vertices(tight, key)
            &&& verts.len() >= min
        },
{
    let all = groups_all(tight, m, k);
    let pred = |p: (Seq<usize>, Seq<usize>)| p.1.len() >= min;
    let pair_of = |s: Seq<int>| (key_of(s), incident_vertices(tight, key_of(s)));
    if groups_spec(tight, m, k, min).contains((key, verts)) {
        Seq::lemma_filter_contains_rev(all, pred, (key, verts));
        let idx = choose|idx: int| 0 <= idx < all.len() && all[idx] == (key, verts);
        let s = index_combos(m, 0, k)[idx];
        lemma_index_combos_sound(m, 0, k, idx);
        assert(all[idx] == pair_of(s));
        assert(key == key_of(s));
        assert(pred((key, verts))) by {
            let widx = choose|widx: int|
                0 <= widx < groups_spec(tight, m, k, min).len() && groups_spec(
                    tight,
                    m,
                    k,
                    min,
                )[widx] == (key, verts);
            Seq::lemma_filter_pred(all, pred, widx);
        }
        assert forall|j: int| 0 <= j < key.len() implies (#[trigger] key[j]) < m by {
            assert(key[j] == s[j] as usize);
        }
        assert forall|j: int| 0 <= j < key.len() - 1 implies (#[trigger] key[j]) < key[j
            + 1] by {
            assert(key[j] == s[j] as usize && key[j + 1] == s[j + 1] as usize);
        }
    }
    if {
        &&& key.len() == k
        &&& forall|j: int| 0 <= j < key.len() ==> (#[trigger] key[j]) < m
        &&& forall|j: int| 0 <= j < key.len() - 1 ==> (#[trigger] key[j]) < key[j + 1]
        &&& verts == incident_vertices(tight, key)
        &&& verts.len() >= min
    } {
        let s = key.map_values(|u: usize| u as int);
        assert(is_sorted_pick(s, m, 0, k)) by {
            assert forall|j: int| 0 <= j < s.len() implies 0 <= #[trigger] s[j] < m by {
                assert(s[j] == key[j] as int);
            }
            assert forall|j: int| 0 <= j < s.len() - 1 implies #[trigger] s[j] < s[j + 1] by {
                assert(s[j] == key[j] as int && s[j + 1] == key[j + 1] as int);
            }
        }
        lemma_index_combos_complete(m, 0, k, s);
        let idx = choose|idx: int|
            0 <= idx < index_combos(m, 0, k).len() && index_combos(m, 0, k)[idx] == s;
        assert(key_of(s) =~= key) by {
            assert forall|j: int| 0 <= j < key.len() implies key_of(s)[j] == key[j] by {
                assert(s[j] == key[j] as int);
            }
        }
        assert(all[idx] == (key, verts));
        Seq::lemma_filter_contains(all, pred, idx);
    }
}

/// Whether `v` holds `x`, by linear scan.
fn contains_elem(v: &Vec<usize>, x: usize) -> (b: bool)
    ensures
        b == v@.contains(x),
{
    for i in 0..v.len()
        invariant
            forall|j: int| 0 <= j < i ==> v@[j] != x,
    {
        if v[i] == x {
            return true;
        }
    }
    false
}

/// Whether every entry of `key` occurs in `set`.
fn subset_of(key: &Vec<usize>, set: &Vec<usize>) -> (b: bool)
    ensures
        b == is_subset(key@, set@),
{
    for i in 0..key.len()
        invariant
            forall|j: int| 0 <= j < i ==> set@.contains(#[trigger] key@[j]),
    {
        if !contains_elem(set, key[i]) {
            return false;
        }
    }
    true
}

/// The vertices whose tight set contains `key`, in increasing index order.
pub fn vertices_on(tight: &Vec<Vec<usize>>, key: &Vec<usize>) -> (out: Vec<usize>)
    ensures
        out@ == incident_vertices(seq_views(tight@), key@),
{
    let mut out: Vec<usize> = Vec::new();
    for vi in 0..tight.len()
        invariant
            out@ == incident_upto(seq_views(tight@), key@, vi as int),
    {
        if subset_of(key, &tight[vi]) {
            out.push(vi);
        }
        proof {
            assert(seq_views(tight@)[vi as int] == tight@[vi as int]@);
        }
    }
    out
}

/// `0, 1, ..., m-1`.
pub fn identity_indices(m: usize) -> (r: Vec<usize>)
    ensures
        r@.len() == m,
        forall|i: int| 0 <= i < m ==> #[trigger] r@[i] == i,
{
    let mut r: Vec<usize> = Vec::new();
    for i in 0..m
        invariant
            r@.len() == i,
            forall|j: int| 0 <= j < i ==> #[trigger] r@[j] == j,
    {
        r.push(i);
    }
    r
}

/// Group the vertices of a polytope into its faces of codimension `k`: one
/// group per k-subset of the `num_facets` facet indices, in lexicographic
/// order, listing the vertices whose tight set contains the subset, kept
/// when at least `min_count` vertices are incident.
pub fn group_faces(
    tight: &Vec<Vec<usize>>,
    num_facets: usize,
    k: usize,
    min_count: usize,
) -> (out: Vec<FaceGroup>)
    ensures
        k == 0 || k > num_facets ==> out@ == Seq::<FaceGroup>::empty(),
        0 < k <= num_facets ==> group_views(out@) == groups_spec(
            seq_views(tight@),
            num_facets as int,
            k as int,
            min_count as int,
        ),
{
    let ids = identity_indices(num_facets);
    let combos = combinations(&ids, k);
    if k == 0 || k > num_facets {
        return Vec::new();
    }
    let ghost tight_v = seq_views(tight@);
    let mut out: Vec<FaceGroup> = Vec::new();
    let n_combos: usize = combos.len();
    proof {
        let m = num_facets as int;
        assert(combos@.len() == index_combos(m, 0, k as int).len()) by {
            assert(seq_views(combos@).len() == combos@.len());
        }
        assert forall|j: int| 0 <= j < combos@.len() implies #[trigger] combos@[j]@ == key_of(
            index_combos(m, 0, k as int)[j],
        ) by {
            let s = index_combos(m, 0, k as int)[j];
            lemma_index_combos_sound(m, 0, k as int, j);
            assert(seq_views(combos@)[j] == picked(ids@, s));
            assert(picked(ids@, s) =~= key_of(s)) by {
                assert forall|t: int| 0 <= t < s.len() implies picked(ids@, s)[t] == key_of(
                    s,
                )[t] by {
                    assert(is_sorted_pick(s, m, 0, k as int));
                    assert(0 <= s[t] < m);
                    assert(ids@[s[t]] == s[t]);
                }
            }
        }
    }
    for ci in 0..n_combos
        invariant
            n_combos == combos@.len(),
            combos@.len() == index_combos(num_facets as int, 0, k as int).len(),
            forall|j: int|
                0 <= j < combos@.len() ==> #[trigger] combos@[j]@ == key_of(
                    index_combos(num_facets as int, 0, k as int)[j],
                ),
            0 < k <= num_facets,
            tight_v == seq_views(tight@),
            group_views(out@) == kept_groups(
                groups_all(tight_v, num_facets as int, k as int).take(ci as int),
                min_count as int,
            ),
    {
        let key = &combos[ci];
        let verts = vertices_on(tight, key);
        let ghost m = num_facets as int;
        let ghost all = groups_all(tight_v, m, k as int);
        let ghost s = index_combos(m, 0, k as int)[ci as int];
        proof {
            assert(all[ci as int] == (key@, verts@)) by {
                assert(combos@[ci as int]@ == key_of(s));
            }
        }
        let ghost before = group_views(out@);
        if verts.len() >= min_count {
            let facets = crate::combos::copy_of(key);
            out.push(FaceGroup { facets, vertices: verts });
            proof {
                assert(group_views(out@) =~= before.push((key@, verts@)));
            }
        }
        proof {
            reveal(Seq::filter);
            let pred = |p: (Seq<usize>, Seq<usize>)| p.1.len() >= min_count as int;
            let tk1 = all.take(ci as int + 1);
            assert(tk1.drop_last() =~= all.take(ci as int));
            assert(tk1.last() == all[ci as int]);
            assert(tk1.filter(pred) == if pred(all[ci as int]) {
                all.take(ci as int).filter(pred).push(all[ci as int])
            } else {
                all.take(ci as int).filter(pred)
            });
            assert(group_views(out@) == kept_groups(all.take(ci as int + 1), min_count as int));
        }
    }
    proof {
        reveal(Seq::filter);
        let all = groups_all(tight_v, num_facets as int, k as int);
        assert(all.take(all.len() as int) =~= all);
    }
    out
}

} // verus!
