//! Per-team running statistics: wins, games played, and the exact running
//! scoring average, kept as a total of centipoints over games played.

use vstd::prelude::*;

verus! {

/// Mathematical model of a [`Record`]: unbounded integers, so that folding
/// any sequence of game outcomes over it is a total spec-level operation.
pub ghost struct RecordModel {
    pub wins: int,
    pub games: int,
    pub total: int,
}

/// One game outcome as seen by a single team: whether the team won, and how
/// many centipoints it scored in that game.
pub ghost struct Outcome {
    pub won: bool,
    pub points: int,
}

/// A team's cumulative season statistics.
///
/// `total_points` is the sum, in centipoints, of the team's scores over all
/// `games_played` games; the running average is the exact rational
/// `total_points / games_played`. Storing the sum instead of a quotient keeps
/// every update exact: no division ever happens until render time.
#[derive(Clone, Copy, PartialEq, Eq, Structural, Debug)]
pub struct Record {
    pub wins: u32,
    pub games_played: u32,
    pub total_points: u64,
}

impl View for Record {
    type V = RecordModel;

    open spec fn view(&self) -> RecordModel {
        RecordModel {
            wins: self.wins as int,
            games: self.games_played as int,
            total: self.total_points as int,
        }
    }
}

/// Effect of one game outcome on a record model.
pub open spec fn apply_outcome(m: RecordModel, o: Outcome) -> RecordModel {
    RecordModel {
        wins: m.wins + if o.won {
            1int
        } else {
            0int
        },
        games: m.games + 1,
        total: m.total + o.points,
    }
}

/// Effect of a whole sequence of game outcomes, applied in order.
pub open spec fn apply_outcomes(m: RecordModel, s: Seq<Outcome>) -> RecordModel
    decreases s.len(),
{
    if s.len() == 0 {
        m
    } else {
        apply_outcomes(apply_outcome(m, s[0]), s.drop_first())
    }
}

/// Sum of the centipoints scored over a sequence of outcomes.
pub open spec fn sum_points(s: Seq<Outcome>) -> int
    decreases s.len(),
{
    if s.len() == 0 {
        0
    } else {
        s[0].points + sum_points(s.drop_first())
    }
}

/// Number of wins over a sequence of outcomes.
pub open spec fn count_wins(s: Seq<Outcome>) -> int
    decreases s.len(),
{
    if s.len() == 0 {
        0
    } else {
        (if s[0].won {
            1int
        } else {
            0int
        }) + count_wins(s.drop_first())
    }
}

/// Well-formedness of a record model: a team cannot have won more games than
/// it played, scores are non-negative, and a team that has played no games
/// has scored nothing.
pub open spec fn model_wf(m: RecordModel) -> bool {
    &&& 0 <= m.wins <= m.games
    &&& 0 <= m.total
    &&& m.games == 0 ==> m.total == 0
}

/// The running average after any sequence of outcomes is the arithmetic mean
/// of the recorded scores folded into the starting state: the final total is
/// the starting total plus the sum of all per-game scores, over the starting
/// games plus the number of outcomes. Starting from an empty record the
/// average `total / games` is therefore exactly `sum_points(s) / s.len()`.
pub proof fn lemma_running_average_is_mean(m: RecordModel, s: Seq<Outcome>)
    ensures
        apply_outcomes(m, s).total == m.total + sum_points(s),
        apply_outcomes(m, s).games == m.games + s.len(),
        apply_outcomes(m, s).wins == m.wins + count_wins(s),
    decreases s.len(),
{
    if s.len() == 0 {
    } else {
        lemma_running_average_is_mean(apply_outcome(m, s[0]), s.drop_first());
    }
}

/// Starting from a fresh record, after any sequence of `N` outcomes the
/// stored average `total / games` is exactly `sum_points(s) / N`: the
/// arithmetic mean of the per-game scores, with no drift.
pub proof fn lemma_fresh_record_average_is_mean(s: Seq<Outcome>)
    ensures
        apply_outcomes(RecordModel { wins: 0, games: 0, total: 0 }, s).total == sum_points(s),
        apply_outcomes(RecordModel { wins: 0, games: 0, total: 0 }, s).games == s.len(),
{
    lemma_running_average_is_mean(RecordModel { wins: 0, games: 0, total: 0 }, s);
}

/// Folding outcomes with non-negative scores over a well-formed record keeps
/// it well-formed; in particular `wins <= games_played` holds after every
/// prefix of the sequence.
pub proof fn lemma_outcomes_keep_wf(m: RecordModel, s: Seq<Outcome>)
    requires
        model_wf(m),
        forall|i: int| 0 <= i < s.len() ==> s[i].points >= 0,
    ensures
        forall|k: int| 0 <= k <= s.len() ==> model_wf(apply_outcomes(m, #[trigger] s.take(k))),
    decreases s.len(),
{
    assert(s.take(0) =~= Seq::<Outcome>::empty());
    if s.len() > 0 {
        let m1 = apply_outcome(m, s[0]);
        lemma_outcomes_keep_wf(m1, s.drop_first());
        assert forall|k: int| 1 <= k <= s.len() implies model_wf(
            apply_outcomes(m, #[trigger] s.take(k)),
        ) by {
            assert(s.take(k).drop_first() =~= s.drop_first().take(k - 1));
            assert(apply_outcomes(m, s.take(k)) == apply_outcomes(m1, s.drop_first().take(k - 1)));
        }
    }
}

impl Record {
    /// Invariant of an executable record: `wins <= games_played`, and a team
    /// with no games has no points.
    pub open spec fn wf(self) -> bool {
        &&& self.wins <= self.games_played
        &&& self.games_played == 0 ==> self.total_points == 0
    }

    /// Constructs a season-start record from a starting average given in
    /// centipoints. The stored total is exactly `avg_points * games_played`,
    /// so the starting average is represented without error.
    pub fn new(wins: u32, avg_points: u64, games_played: u32) -> (r: Record)
        requires
            wins <= games_played,
            avg_points * games_played <= u64::MAX,
        ensures
            r.wins == wins,
            r.games_played == games_played,
            r.total_points == avg_points * games_played,
            r.wf(),
    {
        proof {
            assert(games_played == 0 ==> avg_points * games_played == 0) by (nonlinear_arith);
        }
        Record { wins, games_played, total_points: avg_points * (games_played as u64) }
    }

    /// Folds one game's score into the running average: the total gains the
    /// score and the game count rises by one, which is exactly
    /// `new_avg == (old_avg * games + points) / (games + 1)` in rationals.
    pub fn update_avg(&mut self, points: u64)
        requires
            old(self).games_played < u32::MAX,
            old(self).total_points + points <= u64::MAX,
        ensures
            final(self).wins == old(self).wins,
            final(self).games_played == old(self).games_played + 1,
            final(self).total_points == old(self).total_points + points,
    {
        self.total_points = self.total_points + points;
        self.games_played = self.games_played + 1;
    }

    /// Records a won game in which this team scored `points` centipoints.
    pub fn record_win(&mut self, points: u64)
        requires
            old(self).wf(),
            old(self).games_played < u32::MAX,
            old(self).total_points + points <= u64::MAX,
        ensures
            final(self).wins == old(self).wins + 1,
            final(self).games_played == old(self).games_played + 1,
            final(self).total_points == old(self).total_points + points,
            final(self).wf(),
            final(self)@ == apply_outcome(old(self)@, Outcome { won: true, points: points as int }),
    {
        self.update_avg(points);
        self.wins = self.wins + 1;
    }

    /// Records a lost game in which this team scored `points` centipoints;
    /// the loser's average still tracks its own scoring output.
    pub fn record_loss(&mut self, points: u64)
        requires
            old(self).wf(),
            old(self).games_played < u32::MAX,
            old(self).total_points + points <= u64::MAX,
        ensures
            final(self).wins == old(self).wins,
            final(self).games_played == old(self).games_played + 1,
            final(self).total_points == old(self).total_points + points,
            final(self).wf(),
            final(self)@ == apply_outcome(
                old(self)@,
                Outcome { won: false, points: points as int },
            ),
    {
        self.update_avg(points);
    }

    /// Losses are derived, never stored: `games_played - wins`.
    pub fn losses(&self) -> (l: u32)
        requires
            self.wf(),
        ensures
            l == self.games_played - self.wins,
    {
        self.games_played - self.wins
    }
}

} // verus!
