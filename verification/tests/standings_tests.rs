use standings::{GameError, Record, Standings, Team};

fn season_start() -> Standings {
    // Starting records after 57 games, in team index order; averages are
    // given in centipoints (197.8 points -> 19780).
    let initial: Vec<Record> = vec![
        Record::new(39, 19780, 57),
        Record::new(38, 20710, 57),
        Record::new(35, 20150, 57),
        Record::new(34, 20080, 57),
        Record::new(34, 19350, 57),
        Record::new(33, 18310, 57),
        Record::new(31, 19190, 57),
        Record::new(31, 18960, 57),
        Record::new(30, 19670, 57),
        Record::new(30, 19410, 57),
        Record::new(29, 18470, 57),
        Record::new(28, 17230, 57),
        Record::new(27, 18480, 57),
        Record::new(24, 18000, 57),
        Record::new(23, 17530, 57),
        Record::new(21, 16970, 57),
        Record::new(20, 17200, 57),
        Record::new(6, 14520, 57),
    ];
    Standings::new(initial).expect("one well-formed record per team")
}

#[test]
fn new_rejects_wrong_size_or_malformed_records() {
    let short: Vec<Record> = vec![Record::new(0, 0, 0); 17];
    assert!(Standings::new(short).is_none());
    let mut bad: Vec<Record> = vec![Record::new(0, 0, 0); 18];
    bad[4] = Record::new(5, 10000, 3);
    assert!(Standings::new(bad).is_none());
    let good: Vec<Record> = vec![Record::new(0, 0, 0); 18];
    assert!(Standings::new(good).is_some());
}

#[test]
fn add_game_credits_each_team_its_own_score() {
    let mut s = season_start();
    // Away Gamonal 161.35, home Sillazo 204.2: Sillazo wins and folds in
    // 204.2; Gamonal is charged a loss and folds in its own 161.35.
    let res = s.add_game((Team::Gamonal, 16135), (Team::Sillazo, 20420));
    assert_eq!(res, Ok(()));
    let sill = *s.get(Team::Sillazo);
    assert_eq!(sill.wins, 40);
    assert_eq!(sill.games_played, 58);
    assert_eq!(sill.total_points, 19780 * 57 + 20420);
    let gam = *s.get(Team::Gamonal);
    assert_eq!(gam.wins, 33);
    assert_eq!(gam.games_played, 58);
    assert_eq!(gam.total_points, 18310 * 57 + 16135);
    // every other record untouched
    let fran = *s.get(Team::Francia);
    assert_eq!(fran.wins, 38);
    assert_eq!(fran.games_played, 57);
}

#[test]
fn tied_game_is_rejected_and_mutates_nothing() {
    let mut s = season_start();
    let before_a = *s.get(Team::Exiled);
    let before_b = *s.get(Team::Chocolate);
    let res = s.add_game((Team::Exiled, 15000), (Team::Chocolate, 15000));
    assert_eq!(res, Err(GameError::TiedGame));
    assert_eq!(*s.get(Team::Exiled), before_a);
    assert_eq!(*s.get(Team::Chocolate), before_b);
    for t in all_teams_list() {
        let r = *s.get(t);
        assert_eq!(r.games_played, 57);
    }
}

fn all_teams_list() -> Vec<Team> {
    vec![
        Team::Sillazo,
        Team::Francia,
        Team::Exiled,
        Team::SierraMagina,
        Team::NewJersey,
        Team::Gamonal,
        Team::Catalonia,
        Team::Narraweena,
        Team::Chocolate,
        Team::Losantos,
        Team::Withington,
        Team::Blazers,
        Team::Indiana,
        Team::MiRondo,
        Team::DonJoseLuis,
        Team::Historiador,
        Team::Valdebernardo,
        Team::ElTruua,
    ]
}

#[test]
fn invariant_holds_after_a_sequence_of_games() {
    let mut s = season_start();
    let games: Vec<(Team, u64, Team, u64)> = vec![
        (Team::Historiador, 17130, Team::Exiled, 22970),
        (Team::Withington, 19640, Team::Chocolate, 21580),
        (Team::Francia, 20670, Team::Narraweena, 23330),
        (Team::ElTruua, 14940, Team::SierraMagina, 21080),
        (Team::Gamonal, 16135, Team::Sillazo, 20420),
    ];
    for (at, ap, ht, hp) in games {
        assert_eq!(s.add_game((at, ap), (ht, hp)), Ok(()));
        for t in all_teams_list() {
            let r = *s.get(t);
            assert!(r.wins <= r.games_played);
        }
    }
    assert!(s.is_well_formed());
}
