use frauth::score::{trust_score, SCORE_BITS, SCORE_ONE};

fn as_f64(score: u64) -> f64 {
    score as f64 / (1u64 << SCORE_BITS) as f64
}

#[test]
fn direct_contact_scores_one() {
    assert_eq!(trust_score(&[1, 2, 2, 2, 2]), SCORE_ONE);
    assert_eq!(as_f64(trust_score(&[1, 2, 2, 2, 2])), 1.0);
}

#[test]
fn one_path_at_depth_two() {
    assert_eq!(trust_score(&[0, 1]), SCORE_ONE / 4);
    assert_eq!(as_f64(trust_score(&[0, 1])), 0.25);
}

#[test]
fn two_paths_at_depth_two() {
    assert_eq!(trust_score(&[0, 2]), 3 * (SCORE_ONE / 8));
    assert_eq!(as_f64(trust_score(&[0, 2])), 0.375);
}

#[test]
fn no_paths_scores_zero() {
    assert_eq!(trust_score(&[0, 0]), 0);
    assert_eq!(trust_score(&[]), 0);
}

#[test]
fn depths_add_up() {
    // 2^-1 (1 - 2^-1) + 2^-2 (1 - 2^-2) = 0.25 + 0.1875
    assert_eq!(as_f64(trust_score(&[0, 1, 2])), 0.4375);
}

#[test]
fn more_paths_never_lower_the_score() {
    let mut last = 0;
    for c in 0..100usize {
        let s = trust_score(&[0, 3, c]);
        assert!(s >= last);
        last = s;
    }
}

#[test]
fn deeper_paths_weigh_less() {
    assert!(trust_score(&[0, 3]) > trust_score(&[0, 0, 3]));
    assert!(trust_score(&[0, 0, 3]) > trust_score(&[0, 0, 0, 3]));
}

#[test]
fn huge_counts_and_depths_do_not_overflow() {
    let s = trust_score(&[0, usize::MAX, usize::MAX, usize::MAX]);
    assert!(s < SCORE_ONE);
    let mut long = vec![usize::MAX; 100];
    long[0] = 0;
    assert!(trust_score(&long) < SCORE_ONE);
}
