use viterbo::faces::{group_faces, vertices_on};

/// Tight facet sets of the hypercube `[-1,1]^4`: vertex `v` is the sign
/// pattern given by its bits (bit set = negative side), facet `2a` is the
/// positive side of axis `a` and facet `2a+1` the negative side.
fn cube_tight_sets() -> Vec<Vec<usize>> {
    let mut tight = Vec::new();
    for v in 0..16usize {
        let mut t = Vec::new();
        for a in 0..4usize {
            if (v >> a) & 1 == 1 {
                t.push(2 * a + 1);
            } else {
                t.push(2 * a);
            }
        }
        tight.push(t);
    }
    tight
}

#[test]
fn cube_has_eight_facets_with_eight_vertices_each() {
    let tight = cube_tight_sets();
    let facets = group_faces(&tight, 8, 1, 3);
    assert_eq!(facets.len(), 8);
    for (i, f) in facets.iter().enumerate() {
        assert_eq!(f.facets, vec![i]);
        assert_eq!(f.vertices.len(), 8);
    }
}

#[test]
fn cube_has_twenty_four_ridges_with_four_vertices_each() {
    let tight = cube_tight_sets();
    let ridges = group_faces(&tight, 8, 2, 1);
    assert_eq!(ridges.len(), 24);
    for r in &ridges {
        assert_eq!(r.facets.len(), 2);
        // Opposite facets of one axis share no vertex and never appear.
        assert_ne!(r.facets[0] / 2, r.facets[1] / 2);
        assert_eq!(r.vertices.len(), 4);
    }
}

#[test]
fn cube_has_thirty_two_edges_with_two_vertices_each() {
    let tight = cube_tight_sets();
    let edges = group_faces(&tight, 8, 3, 1);
    assert_eq!(edges.len(), 32);
    for e in &edges {
        assert_eq!(e.facets.len(), 3);
        assert_eq!(e.vertices.len(), 2);
    }
}

#[test]
fn min_count_drops_small_groups() {
    let tight = cube_tight_sets();
    // Every pair group has 4 vertices; a threshold of 5 drops them all.
    let ridges = group_faces(&tight, 8, 2, 5);
    assert!(ridges.is_empty());
}

#[test]
fn incident_vertices_match_a_manual_scan() {
    let tight: Vec<Vec<usize>> = vec![
        vec![0, 1, 2],
        vec![0, 2],
        vec![1, 2, 3],
        vec![0, 1],
    ];
    let key = vec![0, 2];
    let on = vertices_on(&tight, &key);
    assert_eq!(on, vec![0, 1]);
    let all = vertices_on(&tight, &Vec::new());
    assert_eq!(all, vec![0, 1, 2, 3]);
}

/// Tight facet sets of the standard 4-simplex `{x ≥ 0, Σxᵢ ≤ 1}`: facets
/// 0..=3 are the coordinate walls, facet 4 the diagonal cap; each of the 5
/// vertices misses exactly one facet.
fn simplex_tight_sets() -> Vec<Vec<usize>> {
    let mut tight = Vec::new();
    for missing in 0..5usize {
        let t: Vec<usize> = (0..5).filter(|&f| f != missing).collect();
        tight.push(t);
    }
    tight
}

#[test]
fn simplex_face_counts() {
    let tight = simplex_tight_sets();
    let facets = group_faces(&tight, 5, 1, 3);
    assert_eq!(facets.len(), 5);
    for f in &facets {
        assert_eq!(f.vertices.len(), 4);
    }
    let ridges = group_faces(&tight, 5, 2, 1);
    assert_eq!(ridges.len(), 10);
    for r in &ridges {
        assert_eq!(r.vertices.len(), 3);
    }
    let edges = group_faces(&tight, 5, 3, 1);
    assert_eq!(edges.len(), 10);
    for e in &edges {
        assert_eq!(e.vertices.len(), 2);
    }
}

#[test]
fn degenerate_group_requests_yield_nothing() {
    let tight = simplex_tight_sets();
    assert!(group_faces(&tight, 5, 0, 1).is_empty());
    assert!(group_faces(&tight, 5, 6, 1).is_empty());
}
