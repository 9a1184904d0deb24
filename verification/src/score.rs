//! Score keeping for the paddle game.

use vstd::prelude::*;

verus! {

/// The side that won a point.
#[derive(Clone, Copy, Debug, PartialEq, Eq, Structural)]
pub enum Scorer {
    Player,
    Opponent,
}

/// A point has been scored.
#[derive(Clone, Copy, Debug, PartialEq, Eq, Structural)]
pub struct PointScored {
    pub by: Scorer,
}

/// The points of both sides.
#[derive(Clone, Copy, Debug, PartialEq, Eq, Structural)]
pub struct Score {
    pub player: usize,
    pub opponent: usize,
}

impl Default for Score {
    fn default() -> (score: Score)
        ensures
            score == (Score { player: 0, opponent: 0 }),
    {
        Score { player: 0, opponent: 0 }
    }
}

/// Number of points among `events` that `side` scored.
pub open spec fn points(events: Seq<PointScored>, side: Scorer) -> nat
    decreases events.len(),
{
    if events.len() == 0 {
        0
    } else {
        points(events.drop_last(), side) + if events.last().by == side {
            1nat
        } else {
            0nat
        }
    }
}

/// No side scored more points than there are events.
pub proof fn points_are_bounded(events: Seq<PointScored>, side: Scorer)
    ensures
        points(events, side) <= events.len(),
    decreases events.len(),
{
    if events.len() > 0 {
        points_are_bounded(events.drop_last(), side);
    }
}

/// Adds the points of `events` to the score, each to the side that scored it.
pub fn update_score(score: &mut Score, events: &Vec<PointScored>)
    requires
        old(score).player + events.len() <= usize::MAX,
        old(score).opponent + events.len() <= usize::MAX,
    ensures
        final(score).player == old(score).player + points(events@, Scorer::Player),
        final(score).opponent == old(score).opponent + points(events@, Scorer::Opponent),
{
    let mut i: usize = 0;
    while i < events.len()
        invariant
            i <= events.len(),
            old(score).player + events.len() <= usize::MAX,
            old(score).opponent + events.len() <= usize::MAX,
            score.player == old(score).player + points(events@.take(i as int), Scorer::Player),
            score.opponent == old(score).opponent + points(
                events@.take(i as int),
                Scorer::Opponent,
            ),
        decreases events.len() - i,
    {
        proof {
            let taken = events@.take(i + 1);
            assert(taken.drop_last() =~= events@.take(i as int));
            assert(taken.last() == events@[i as int]);
            points_are_bounded(events@.take(i as int), Scorer::Player);
            points_are_bounded(events@.take(i as int), Scorer::Opponent);
        }
        match events[i].by {
            Scorer::Opponent => {
                score.opponent = score.opponent + 1;
            },
            Scorer::Player => {
                score.player = score.player + 1;
            },
        }
        i = i + 1;
    }
    proof {
        assert(events@.take(events.len() as int) =~= events@);
    }
}

} // verus!
