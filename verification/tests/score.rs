use blockshot::score::{update_score, PointScored, Score, Scorer};

#[test]
fn score_starts_at_nil_nil() {
    assert_eq!(Score::default(), Score { player: 0, opponent: 0 });
}

#[test]
fn update_score_counts_each_side() {
    let mut score = Score::default();
    update_score(
        &mut score,
        &vec![
            PointScored { by: Scorer::Player },
            PointScored { by: Scorer::Opponent },
            PointScored { by: Scorer::Player },
        ],
    );
    assert_eq!(score, Score { player: 2, opponent: 1 });
    update_score(&mut score, &vec![PointScored { by: Scorer::Opponent }]);
    assert_eq!(score, Score { player: 2, opponent: 2 });
}

#[test]
fn update_score_without_events_changes_nothing() {
    let mut score = Score { player: 4, opponent: 9 };
    update_score(&mut score, &vec![]);
    assert_eq!(score, Score { player: 4, opponent: 9 });
}
