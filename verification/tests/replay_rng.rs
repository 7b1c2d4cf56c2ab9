use rand::RngCore;
use viterbo::generators::VertexCount;
use viterbo::ReplayToken;

#[test]
fn mixing_matches_known_values() {
    assert_eq!(viterbo::replay::mix(0), 0x0);
    assert_eq!(viterbo::replay::mix(1), 0x5692161d100b05e5);
    assert_eq!(viterbo::replay::mix(0x9e3779b97f4a7c15), 0xe220a8397b1dcdaf);
}

#[test]
fn token_keys_match_known_values() {
    assert_eq!(ReplayToken { seed: 0, index: 0 }.key(), 0x48218226ff3cd4bf);
    assert_eq!(ReplayToken { seed: 42, index: 7 }.key(), 0xd56fd4491d82a4dd);
    assert_eq!(ReplayToken { seed: 1, index: 123 }.key(), 0x417c6d0598517f93);
}

#[test]
fn equal_tokens_replay_the_same_stream() {
    let tok = ReplayToken { seed: 42, index: 7 };
    let mut a = tok.to_std_rng();
    let mut b = tok.to_std_rng();
    for _ in 0..8 {
        assert_eq!(a.next_u64(), b.next_u64());
    }
}

#[test]
fn different_indices_give_different_streams() {
    let mut a = ReplayToken { seed: 42, index: 7 }.to_std_rng();
    let mut b = ReplayToken { seed: 42, index: 8 }.to_std_rng();
    assert_ne!(a.next_u64(), b.next_u64());
}

#[test]
fn fixed_vertex_count_is_clamped_to_three() {
    let mut rng = ReplayToken { seed: 5, index: 0 }.to_std_rng();
    assert_eq!(VertexCount::Fixed(12).sample(&mut rng), 12);
    assert_eq!(VertexCount::Fixed(1).sample(&mut rng), 3);
    assert_eq!(VertexCount::Fixed(0).sample(&mut rng), 3);
}

#[test]
fn uniform_vertex_count_stays_in_the_clamped_range() {
    let mut rng = ReplayToken { seed: 5, index: 1 }.to_std_rng();
    let mut seen = std::collections::HashSet::new();
    for _ in 0..64 {
        let n = VertexCount::Uniform { min: 5, max: 9 }.sample(&mut rng);
        assert!((5..=9).contains(&n));
        seen.insert(n);
    }
    // The draw actually varies: a constant stub would fail this.
    assert!(seen.len() > 1);
    // An inverted range collapses onto the clamped lower bound.
    let n = VertexCount::Uniform { min: 2, max: 1 }.sample(&mut rng);
    assert_eq!(n, 3);
}
