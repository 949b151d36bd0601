use standings::Record;

#[test]
fn new_stores_exact_starting_average() {
    let r = Record::new(39, 19780, 57);
    assert_eq!(r.wins, 39);
    assert_eq!(r.games_played, 57);
    assert_eq!(r.total_points, 19780 * 57);
}

#[test]
fn win_and_loss_update_totals() {
    let mut r = Record::new(0, 0, 0);
    r.record_win(10000);
    assert_eq!(r.wins, 1);
    assert_eq!(r.games_played, 1);
    assert_eq!(r.total_points, 10000);
    r.record_loss(20000);
    assert_eq!(r.wins, 1);
    assert_eq!(r.games_played, 2);
    assert_eq!(r.total_points, 30000);
    assert_eq!(r.losses(), 1);
}

#[test]
fn running_average_is_mean_of_scores() {
    // Folding scores one at a time leaves total/games equal to the
    // arithmetic mean of the score list: (10000 + 20000 + 16000) / 3.
    let scores: Vec<u64> = vec![10000, 20000, 16000];
    let mut r = Record::new(0, 0, 0);
    let mut sum: u64 = 0;
    for s in &scores {
        r.record_loss(*s);
        sum += *s;
    }
    assert_eq!(r.total_points, sum);
    assert_eq!(r.games_played as usize, scores.len());
    assert_eq!(r.total_points, 46000);
}

#[test]
fn update_avg_matches_incremental_formula() {
    // (197.8 * 57 + 204.2) / 58 carried exactly: the stored total is the
    // numerator of that fraction in centipoints.
    let mut r = Record::new(39, 19780, 57);
    r.update_avg(20420);
    assert_eq!(r.games_played, 58);
    assert_eq!(r.total_points, 19780 * 57 + 20420);
}

#[test]
fn wins_never_exceed_games_played() {
    let mut r = Record::new(3, 15000, 7);
    let pts: Vec<u64> = vec![15025, 14980, 20000, 1, 0, 30000];
    for (i, p) in pts.iter().enumerate() {
        if i % 2 == 0 {
            r.record_win(*p);
        } else {
            r.record_loss(*p);
        }
        assert!(r.wins <= r.games_played);
    }
}
