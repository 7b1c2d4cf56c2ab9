use viterbo::generators::{
    next_pair, pair_at, total_pairs, FacesReplay, GeneratorError, MahlerReplay,
    RegularProductReplay, SeedReplay, VerticesReplay,
};
use viterbo::graph::{FacetId, FacetMarks, RidgeId};
use viterbo::volume::VolumeError;
use viterbo::ReplayToken;

#[test]
fn generator_error_messages_name_the_variant() {
    let e = GeneratorError::invalid("radius bounds must be > 0".to_string());
    assert!(matches!(e, GeneratorError::InvalidParams { .. }));
    assert_eq!(
        e.message(),
        "invalid generator params: radius bounds must be > 0"
    );
    let d = GeneratorError::degenerate("not enough vertices".to_string());
    assert!(matches!(d, GeneratorError::DegenerateSample { .. }));
    assert_eq!(d.message(), "degenerate sample: not enough vertices");
}

#[test]
fn replay_tokens_compare_by_value() {
    assert_eq!(VerticesReplay { seed: 9 }, VerticesReplay { seed: 9 });
    assert_ne!(FacesReplay { seed: 1 }, FacesReplay { seed: 2 });
    assert_eq!(SeedReplay { seed: 3 }, SeedReplay { seed: 3 });
    let tok = ReplayToken { seed: 1, index: 2 };
    assert_eq!(MahlerReplay { polygon: tok }, MahlerReplay { polygon: tok });
    assert_eq!(
        RegularProductReplay { index_a: 0, index_b: 1 },
        RegularProductReplay { index_a: 0, index_b: 1 }
    );
}

#[test]
fn total_pairs_multiplies_and_checks_overflow() {
    assert_eq!(total_pairs(3, 5), Some(15));
    assert_eq!(total_pairs(0, 5), Some(0));
    assert_eq!(total_pairs(usize::MAX, 2), None);
}

#[test]
fn pair_enumeration_is_row_major() {
    let p = pair_at(7, 3);
    assert_eq!((p.index_a, p.index_b), (2, 1));
    let p = pair_at(0, 3);
    assert_eq!((p.index_a, p.index_b), (0, 0));
}

#[test]
fn next_pair_respects_grid_and_limit() {
    // 1 x 2 grid, limited to one yield.
    let first = next_pair(0, 0, 1, 2, Some(1)).expect("first pair");
    assert_eq!((first.index_a, first.index_b), (0, 0));
    assert!(next_pair(1, 1, 1, 2, Some(1)).is_none());
    // Without the limit the second cell is reached, then the grid ends.
    let second = next_pair(1, 1, 1, 2, None).expect("second pair");
    assert_eq!((second.index_a, second.index_b), (0, 1));
    assert!(next_pair(2, 2, 1, 2, None).is_none());
}

#[test]
fn facet_marks_mark_and_release() {
    let mut marks = FacetMarks::new(5);
    assert_eq!(marks.len(), 5);
    for f in 0..5 {
        assert!(!marks.is_marked(FacetId(f)));
    }
    marks.mark(FacetId(2));
    assert!(marks.is_marked(FacetId(2)));
    assert!(!marks.is_marked(FacetId(1)));
    marks.unmark(FacetId(2));
    assert!(!marks.is_marked(FacetId(2)));
}

#[test]
fn ids_compare_by_index() {
    assert_eq!(RidgeId(3), RidgeId(3));
    assert_ne!(RidgeId(3), RidgeId(4));
    assert_eq!(FacetId(0), FacetId(0));
}

#[test]
fn volume_errors_carry_the_offending_indices() {
    let e = VolumeError::DegenerateFacet { facet: 6 };
    assert!(matches!(e, VolumeError::DegenerateFacet { facet: 6 }));
    let f = VolumeError::DegenerateFace2 { facets: (1, 4) };
    assert_eq!(f, VolumeError::DegenerateFace2 { facets: (1, 4) });
    assert_ne!(e, VolumeError::NeedVertices);
    assert_eq!(
        VolumeError::NeedHalfspaces.message(),
        "polytope has no half-spaces (empty volume)"
    );
    assert_eq!(
        VolumeError::NeedVertices.message(),
        "polytope has insufficient vertices for a 4D volume"
    );
}

#[test]
fn first_occurrences_keep_one_position_per_key() {
    let keys: Vec<(i64, i64, i64, i64, i64)> = vec![
        (1, 0, 0, 0, 5),
        (0, 1, 0, 0, 5),
        (1, 0, 0, 0, 5),
        (0, 0, 1, 0, 2),
        (0, 1, 0, 0, 5),
        (1, 0, 0, 0, 5),
    ];
    let kept = viterbo::dedup::first_occurrences(&keys);
    assert_eq!(kept, vec![0, 1, 3]);
    let empty: Vec<(i64, i64, i64, i64, i64)> = Vec::new();
    assert!(viterbo::dedup::first_occurrences(&empty).is_empty());
}
