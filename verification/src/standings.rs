//! The season standings: one record per team, game ingestion, and the
//! invariant that no record ever shows more wins than games played.

use vstd::prelude::*;

use crate::record::{apply_outcome, model_wf, Outcome, Record, RecordModel};
use crate::team::{Team, TEAM_COUNT};

verus! {

/// The one runtime error of game ingestion: a tied score. Ties are outside
/// the domain, so a tied game is rejected without touching any record.
#[derive(Clone, Copy, PartialEq, Eq, Structural, Debug)]
pub enum GameError {
    TiedGame,
}

/// One game at the model level: the two participants' standings indices and
/// their scores in centipoints.
pub ghost struct GameModel {
    pub away: int,
    pub away_points: int,
    pub home: int,
    pub home_points: int,
}

/// A game is admissible against a table of `n` records when its teams are
/// distinct valid indices, its scores are non-negative, and it is not tied.
pub open spec fn game_ok(g: GameModel, n: int) -> bool {
    &&& 0 <= g.away < n
    &&& 0 <= g.home < n
    &&& g.away != g.home
    &&& g.away_points >= 0
    &&& g.home_points >= 0
    &&& g.away_points != g.home_points
}

/// Effect of one game on a table of record models: the team with the
/// strictly higher score is credited a win, the other a loss, and each
/// team's average folds in that team's own score.
pub open spec fn play_game(ms: Seq<RecordModel>, g: GameModel) -> Seq<RecordModel> {
    let home_wins = g.home_points > g.away_points;
    ms.update(g.home, apply_outcome(ms[g.home], Outcome { won: home_wins, points: g.home_points }))
        .update(
        g.away,
        apply_outcome(ms[g.away], Outcome { won: !home_wins, points: g.away_points }),
    )
}

/// Effect of a whole season segment, applied in order.
pub open spec fn play_games(ms: Seq<RecordModel>, gs: Seq<GameModel>) -> Seq<RecordModel>
    decreases gs.len(),
{
    if gs.len() == 0 {
        ms
    } else {
        play_games(play_game(ms, gs[0]), gs.drop_first())
    }
}

/// Every record model in the table is well-formed.
pub open spec fn all_wf(ms: Seq<RecordModel>) -> bool {
    forall|i: int| 0 <= i < ms.len() ==> model_wf(#[trigger] ms[i])
}

/// One admissible game keeps every record well-formed and the table's size
/// unchanged; records of teams not named by the game are untouched.
pub proof fn lemma_play_game_wf(ms: Seq<RecordModel>, g: GameModel)
    requires
        all_wf(ms),
        game_ok(g, ms.len() as int),
    ensures
        all_wf(play_game(ms, g)),
        play_game(ms, g).len() == ms.len(),
        forall|i: int|
            0 <= i < ms.len() && i != g.away && i != g.home ==> play_game(ms, g)[i] == ms[i],
{
}

/// For any sequence of admissible (in particular: untied) games,
/// `wins <= games_played` holds for every team after every prefix of the
/// sequence — the standings invariant is kept at every point of the season.
pub proof fn lemma_games_keep_wf(ms: Seq<RecordModel>, gs: Seq<GameModel>)
    requires
        all_wf(ms),
        forall|i: int| 0 <= i < gs.len() ==> game_ok(#[trigger] gs[i], ms.len() as int),
    ensures
        forall|k: int| 0 <= k <= gs.len() ==> all_wf(play_games(ms, #[trigger] gs.take(k))),
        forall|k: int|
            0 <= k <= gs.len() ==> play_games(ms, #[trigger] gs.take(k)).len() == ms.len(),
    decreases gs.len(),
{
    assert(gs.take(0) =~= Seq::<GameModel>::empty());
    if gs.len() > 0 {
        lemma_play_game_wf(ms, gs[0]);
        let ms1 = play_game(ms, gs[0]);
        assert(forall|i: int|
            0 <= i < gs.drop_first().len() ==> game_ok(
                #[trigger] gs.drop_first()[i],
                ms1.len() as int,
            ));
        lemma_games_keep_wf(ms1, gs.drop_first());
        assert forall|k: int| 1 <= k <= gs.len() implies all_wf(
            play_games(ms, #[trigger] gs.take(k)),
        ) && play_games(ms, gs.take(k)).len() == ms.len() by {
            assert(gs.take(k).drop_first() =~= gs.drop_first().take(k - 1));
            assert(play_games(ms, gs.take(k)) == play_games(ms1, gs.drop_first().take(k - 1)));
        }
    }
}

/// The complete per-team record set: the record of the team `t` lives at
/// index `t.index_spec()`.
#[derive(Debug)]
pub struct Standings {
    records: Vec<Record>,
}

impl View for Standings {
    type V = Seq<Record>;

    closed spec fn view(&self) -> Seq<Record> {
        self.records@
    }
}

/// The record models of a table of records.
pub open spec fn models(v: Seq<Record>) -> Seq<RecordModel> {
    v.map_values(|r: Record| r@)
}

impl Standings {
    /// Invariant: exactly one record per team, each well-formed.
    pub open spec fn wf(self) -> bool {
        &&& self@.len() == TEAM_COUNT
        &&& forall|i: int| 0 <= i < self@.len() ==> (#[trigger] self@[i]).wf()
    }

    /// Builds standings from one starting record per team, given in team
    /// index order. Returns `None` exactly when the table does not have one
    /// well-formed record per team.
    pub fn new(initial: Vec<Record>) -> (r: Option<Standings>)
        ensures
            r is Some <==> (initial@.len() == TEAM_COUNT && forall|i: int|
                0 <= i < initial@.len() ==> (#[trigger] initial@[i]).wf()),
            r is Some ==> r.unwrap()@ == initial@ && r.unwrap().wf(),
    {
        if initial.len() != TEAM_COUNT {
            return None;
        }
        let mut i: usize = 0;
        while i < initial.len()
            invariant
                i <= initial@.len(),
                forall|k: int| 0 <= k < i ==> (#[trigger] initial@[k]).wf(),
            decreases initial@.len() - i,
        {
            let r = initial[i];
            if !(r.wins <= r.games_played && (r.games_played > 0 || r.total_points == 0)) {
                return None;
            }
            i = i + 1;
        }
        Some(Standings { records: initial })
    }

    /// Runtime check of the standings invariant, for callers outside
    /// verified code.
    pub fn is_well_formed(&self) -> (b: bool)
        ensures
            b == self.wf(),
    {
        if self.records.len() != TEAM_COUNT {
            return false;
        }
        let mut i: usize = 0;
        while i < self.records.len()
            invariant
                i <= self@.len(),
                forall|k: int| 0 <= k < i ==> (#[trigger] self@[k]).wf(),
            decreases self@.len() - i,
        {
            let r = self.records[i];
            if !(r.wins <= r.games_played && (r.games_played > 0 || r.total_points == 0)) {
                return false;
            }
            i = i + 1;
        }
        true
    }

    /// The record stored at a standings index.
    pub fn record_at(&self, i: usize) -> (r: &Record)
        requires
            i < self@.len(),
        ensures
            *r == self@[i as int],
    {
        &self.records[i]
    }

    /// The record of one team.
    pub fn get(&self, t: Team) -> (r: &Record)
        requires
            self.wf(),
        ensures
            *r == self@[t.index_spec()],
    {
        &self.records[t.index()]
    }

    /// Applies one game's outcome to both participants' records: the team
    /// with the strictly higher score is credited a win with its own score,
    /// the other a loss with its own score. A tied score is an error and
    /// leaves every record untouched.
    pub fn add_game(&mut self, away: (Team, u64), home: (Team, u64)) -> (res: Result<
        (),
        GameError,
    >)
        requires
            old(self).wf(),
            away.0 != home.0,
            old(self)@[away.0.index_spec()].games_played < u32::MAX,
            old(self)@[home.0.index_spec()].games_played < u32::MAX,
            old(self)@[away.0.index_spec()].total_points + away.1 <= u64::MAX,
            old(self)@[home.0.index_spec()].total_points + home.1 <= u64::MAX,
        ensures
            final(self).wf(),
            away.1 == home.1 ==> res == Err::<(), GameError>(GameError::TiedGame) && final(self)@
                == old(self)@,
            away.1 != home.1 ==> res == Ok::<(), GameError>(()) && ({
                let ai = away.0.index_spec();
                let hi = home.0.index_spec();
                let home_wins = home.1 > away.1;
                &&& final(self)@.len() == old(self)@.len()
                &&& final(self)@[hi].wins == old(self)@[hi].wins + if home_wins {
                    1int
                } else {
                    0int
                }
                &&& final(self)@[hi].games_played == old(self)@[hi].games_played + 1
                &&& final(self)@[hi].total_points == old(self)@[hi].total_points + home.1
                &&& final(self)@[ai].wins == old(self)@[ai].wins + if home_wins {
                    0int
                } else {
                    1int
                }
                &&& final(self)@[ai].games_played == old(self)@[ai].games_played + 1
                &&& final(self)@[ai].total_points == old(self)@[ai].total_points + away.1
                &&& forall|k: int|
                    0 <= k < old(self)@.len() && k != ai && k != hi ==> final(self)@[k] == old(
                        self,
                    )@[k]
                &&& models(final(self)@) == play_games(
                    models(old(self)@),
                    seq![
                        GameModel {
                            away: ai,
                            away_points: away.1 as int,
                            home: hi,
                            home_points: home.1 as int,
                        },
                    ],
                )
            }),
    {
        let (away_team, away_points) = away;
        let (home_team, home_points) = home;
        if away_points == home_points {
            return Err(GameError::TiedGame);
        }
        let home_wins = home_points > away_points;

        let hi = home_team.index();
        let mut home_rec = self.records[hi];
        if home_wins {
            home_rec.record_win(home_points);
        } else {
            home_rec.record_loss(home_points);
        }
        self.records[hi] = home_rec;

        let ai = away_team.index();
        let mut away_rec = self.records[ai];
        if home_wins {
            away_rec.record_loss(away_points);
        } else {
            away_rec.record_win(away_points);
        }
        self.records[ai] = away_rec;

        proof {
            let g = GameModel {
                away: away.0.index_spec(),
                away_points: away.1 as int,
                home: home.0.index_spec(),
                home_points: home.1 as int,
            };
            let gs = seq![g];
            let ms0 = models(old(self)@);
            assert(gs.drop_first() =~= Seq::<GameModel>::empty());
            assert(gs[0] == g);
            assert(play_games(play_game(ms0, g), Seq::<GameModel>::empty()) == play_game(ms0, g));
            assert(play_games(ms0, gs) == play_games(play_game(ms0, gs[0]), gs.drop_first()));
            assert(play_games(models(old(self)@), gs) == play_game(models(old(self)@), g));
            assert(models(self@) =~= play_game(models(old(self)@), g));
        }
        Ok(())
    }
}

} // verus!
