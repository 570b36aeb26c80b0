use planner::ranking::rank_by_score;

#[test]
fn ranking_of_no_scores_is_empty() {
    assert_eq!(rank_by_score(&[]), Vec::<usize>::new());
}

#[test]
fn ranking_puts_higher_scores_first() {
    assert_eq!(rank_by_score(&[10, 30, 20]), vec![1, 2, 0]);
    assert_eq!(rank_by_score(&[1, 2, 3, 4]), vec![3, 2, 1, 0]);
    assert_eq!(rank_by_score(&[4, 3, 2, 1]), vec![0, 1, 2, 3]);
}

#[test]
fn ranking_keeps_input_order_among_equal_scores() {
    assert_eq!(rank_by_score(&[5, 9, 5]), vec![1, 0, 2]);
    assert_eq!(rank_by_score(&[7, 7, 7, 7]), vec![0, 1, 2, 3]);
    assert_eq!(rank_by_score(&[1, 2, 1, 2, 1]), vec![1, 3, 0, 2, 4]);
}

#[test]
fn ranking_lists_every_candidate_once() {
    let scores: Vec<u64> = vec![3, 1, 4, 1, 5, 9, 2, 6, 5, 3, 5];
    let order = rank_by_score(&scores);
    assert_eq!(order.len(), scores.len());
    let mut seen = vec![false; scores.len()];
    for &c in &order {
        assert!(!seen[c]);
        seen[c] = true;
    }
    for pair in order.windows(2) {
        let (a, b) = (pair[0], pair[1]);
        assert!(scores[a] > scores[b] || (scores[a] == scores[b] && a < b));
    }
    assert_eq!(order, vec![5, 7, 4, 8, 10, 2, 0, 9, 6, 1, 3]);
}

#[test]
fn ranking_handles_extreme_scores() {
    assert_eq!(rank_by_score(&[0, u64::MAX, 0, u64::MAX]), vec![1, 3, 0, 2]);
    assert_eq!(rank_by_score(&[42]), vec![0]);
}
