use lowest_unique::round::{compute_outcome, score_round, Scoreboard};

#[test]
fn duplicated_pair_has_no_winner() {
    let outcome = compute_outcome(&vec![3, 3]);
    assert!(outcome.winners.is_empty());
    let mut board = Scoreboard::new(2);
    board.record(&outcome);
    assert_eq!(board.scores, vec![0, 0]);
    assert_eq!(board.rounds_played, 1);
}

#[test]
fn unique_high_value_beats_duplicated_low_values() {
    let outcome = compute_outcome(&vec![5, 2, 2]);
    assert_eq!(outcome.winners, vec![0]);
    let mut board = Scoreboard::new(3);
    board.record(&outcome);
    assert_eq!(board.scores, vec![1, 0, 0]);
}

#[test]
fn sole_competitor_wins() {
    let mut board = Scoreboard::new(1);
    let outcome = score_round(&vec![7], &mut board);
    assert_eq!(outcome.winners, vec![0]);
    assert_eq!(board.scores, vec![1]);
    assert_eq!(board.rounds_played, 1);
}

#[test]
fn all_distinct_orders_by_value() {
    let outcome = compute_outcome(&vec![10, 3, 7]);
    assert_eq!(outcome.winners, vec![1, 2, 0]);
}

#[test]
fn mixed_duplicates_keep_unique_survivors_sorted() {
    let outcome = compute_outcome(&vec![4, 4, 9, 1]);
    assert_eq!(outcome.winners, vec![3, 2]);
}

#[test]
fn sentinel_loses_to_unique_real_value() {
    let outcome = compute_outcome(&vec![5, 2, u32::MAX]);
    assert_eq!(outcome.winners, vec![1, 0, 2]);
    let mut board = Scoreboard::new(3);
    board.record(&outcome);
    assert_eq!(board.scores, vec![0, 1, 0]);
}

#[test]
fn duplicated_sentinels_eliminate_each_other() {
    let outcome = compute_outcome(&vec![9, u32::MAX, u32::MAX]);
    assert_eq!(outcome.winners, vec![0]);
}

#[test]
fn empty_round_has_no_winner() {
    let outcome = compute_outcome(&vec![]);
    assert!(outcome.winners.is_empty());
}

#[test]
fn scores_accumulate_over_rounds() {
    let mut board = Scoreboard::new(2);
    score_round(&vec![1, 2], &mut board);
    score_round(&vec![3, 2], &mut board);
    score_round(&vec![6, 6], &mut board);
    assert_eq!(board.scores, vec![1, 1]);
    assert_eq!(board.rounds_played, 3);
}
