use viterbo::combos::combinations;

#[test]
fn combos_cover_pairs() {
    let items = vec![0, 1, 2, 3];
    let combos = combinations(&items, 2);
    assert_eq!(combos.len(), 6);
    assert!(combos.contains(&vec![2, 3]));
}

#[test]
fn pairs_come_in_lexicographic_order() {
    let items: Vec<usize> = vec![0, 1, 2, 3];
    let combos = combinations(&items, 2);
    let expected: Vec<Vec<usize>> = vec![
        vec![0, 1],
        vec![0, 2],
        vec![0, 3],
        vec![1, 2],
        vec![1, 3],
        vec![2, 3],
    ];
    assert_eq!(combos, expected);
}

#[test]
fn selections_follow_the_input_values() {
    let items: Vec<u64> = vec![10, 20, 30];
    let combos = combinations(&items, 2);
    assert_eq!(combos, vec![vec![10, 20], vec![10, 30], vec![20, 30]]);
}

#[test]
fn degenerate_widths_yield_nothing() {
    let items: Vec<usize> = vec![0, 1, 2];
    assert!(combinations(&items, 0).is_empty());
    assert!(combinations(&items, 4).is_empty());
    let empty: Vec<usize> = Vec::new();
    assert!(combinations(&empty, 1).is_empty());
}

#[test]
fn full_width_combination_is_the_whole_list() {
    let items: Vec<usize> = vec![4, 7, 9];
    let combos = combinations(&items, 3);
    assert_eq!(combos, vec![vec![4, 7, 9]]);
}

#[test]
fn quadruples_of_six_items_count_fifteen() {
    let items: Vec<usize> = (0..6).collect();
    let combos = combinations(&items, 4);
    assert_eq!(combos.len(), 15);
    for c in &combos {
        assert_eq!(c.len(), 4);
        for w in c.windows(2) {
            assert!(w[0] < w[1]);
        }
        for &x in c {
            assert!(x < 6);
        }
    }
}
