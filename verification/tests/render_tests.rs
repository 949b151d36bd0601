use standings::{Record, Standings, Team};

fn season_start() -> Standings {
    let initial: Vec<Record> = vec![
        Record::new(39, 19780, 57),
        Record::new(38, 20710, 57),
        Record::new(35, 20150, 57),
        Record::new(34, 20080, 57),
        Record::new(34, 19350, 57),
        Record::new(33, 18310, 57),
        Record::new(31, 19190, 57),
        Record::new(31, 18960, 57),
        Record::new(30, 19670, 57),
        Record::new(30, 19410, 57),
        Record::new(29, 18470, 57),
        Record::new(28, 17230, 57),
        Record::new(27, 18480, 57),
        Record::new(24, 18000, 57),
        Record::new(23, 17530, 57),
        Record::new(21, 16970, 57),
        Record::new(20, 17200, 57),
        Record::new(6, 14520, 57),
    ];
    Standings::new(initial).expect("one well-formed record per team")
}

fn season_games() -> Vec<(Team, u64, Team, u64)> {
    vec![
        (Team::Historiador, 17130, Team::Exiled, 22970),
        (Team::Withington, 19640, Team::Chocolate, 21580),
        (Team::Francia, 20670, Team::Narraweena, 23330),
        (Team::ElTruua, 14940, Team::SierraMagina, 21080),
        (Team::Gamonal, 16135, Team::Sillazo, 20420),
        (Team::DonJoseLuis, 16545, Team::Valdebernardo, 19055),
        (Team::Blazers, 18215, Team::MiRondo, 17120),
        (Team::Catalonia, 21410, Team::Losantos, 19230),
        (Team::Indiana, 11130, Team::NewJersey, 17400),
        (Team::Exiled, 21880, Team::NewJersey, 19675),
        (Team::SierraMagina, 23220, Team::Withington, 19300),
        (Team::Narraweena, 21295, Team::Chocolate, 20555),
        (Team::Francia, 22185, Team::Historiador, 19915),
        (Team::Sillazo, 20040, Team::ElTruua, 17090),
        (Team::Valdebernardo, 16980, Team::Gamonal, 13565),
        (Team::MiRondo, 18735, Team::DonJoseLuis, 20055),
        (Team::Losantos, 21335, Team::Blazers, 19780),
        (Team::Indiana, 19540, Team::Catalonia, 23035),
        (Team::Francia, 19315, Team::Exiled, 21540),
        (Team::Withington, 20060, Team::Sillazo, 21865),
        (Team::SierraMagina, 22360, Team::Narraweena, 19915),
        (Team::Chocolate, 20860, Team::Historiador, 19095),
        (Team::ElTruua, 19575, Team::Valdebernardo, 18160),
        (Team::Gamonal, 20200, Team::MiRondo, 20090),
        (Team::DonJoseLuis, 19925, Team::Losantos, 21550),
        (Team::Blazers, 19365, Team::Indiana, 17595),
        (Team::Catalonia, 19710, Team::NewJersey, 19235),
    ]
}

#[test]
fn one_game_scenario_renders_updated_row() {
    // Start at wins=39, average=197.8, games=57; win one game scoring
    // 204.2: wins=40, games=58, record "40-18", and average
    // (197.8*57 + 204.2)/58 = 197.910... rounded to 197.91.
    let mut s = season_start();
    assert_eq!(s.add_game((Team::Gamonal, 16135), (Team::Sillazo, 20420)), Ok(()));
    let out = s.render();
    assert!(out.contains("| Sillazo Krstićs | 40-18 | 197.91 |"));
}

#[test]
fn rendering_is_pure() {
    let mut s = season_start();
    assert_eq!(s.add_game((Team::Gamonal, 16135), (Team::Sillazo, 20420)), Ok(()));
    let first = s.render();
    let second = s.render();
    assert_eq!(first, second);
}

#[test]
fn rows_are_sorted_by_wins_then_average() {
    let s = season_start();
    let ranked = s.ranking();
    assert_eq!(ranked.len(), 18);
    for w in ranked.windows(2) {
        let a = *s.get(w[0]);
        let b = *s.get(w[1]);
        let a_avg_cmp = (a.total_points as u128) * (b.games_played.max(1) as u128);
        let b_avg_cmp = (b.total_points as u128) * (a.games_played.max(1) as u128);
        assert!(a.wins > b.wins || (a.wins == b.wins && a_avg_cmp >= b_avg_cmp));
    }
    // Equal wins, distinct averages: Catalonia (191.9) above Narraweena
    // (189.6), both at 31 wins.
    let cat = ranked.iter().position(|t| *t == Team::Catalonia).unwrap();
    let nar = ranked.iter().position(|t| *t == Team::Narraweena).unwrap();
    assert!(cat < nar);
}

#[test]
fn full_tie_breaks_by_team_index() {
    let initial: Vec<Record> = vec![Record::new(2, 10000, 4); 18];
    let s = Standings::new(initial).expect("well-formed");
    let ranked = s.ranking();
    assert_eq!(ranked[0], Team::Sillazo);
    assert_eq!(ranked[1], Team::Francia);
    assert_eq!(ranked[17], Team::ElTruua);
}

#[test]
fn halves_round_away_from_zero() {
    // One team ends at exactly 191.925 (total 383.85 over 2 games): the
    // rendered average must be 191.93, not 191.92.
    let mut initial: Vec<Record> = vec![Record::new(0, 0, 1); 18];
    initial[0] = Record::new(1, 19180, 1);
    let mut s = Standings::new(initial).expect("well-formed");
    assert_eq!(s.add_game((Team::Sillazo, 19205), (Team::Francia, 19300)), Ok(()));
    let out = s.render();
    assert!(out.contains("| Sillazo Krstićs | 1-1 | 191.93 |"));
}

#[test]
fn teams_with_no_games_render_zero_average() {
    let initial: Vec<Record> = vec![Record::new(0, 0, 0); 18];
    let s = Standings::new(initial).expect("well-formed");
    let out = s.render();
    assert!(out.contains("| EL TRUUA BATTLELISTA | 0-0 | 0.00 |"));
}

#[test]
fn full_season_renders_expected_table() {
    let mut s = season_start();
    for (at, ap, ht, hp) in season_games() {
        assert_eq!(s.add_game((at, ap), (ht, hp)), Ok(()));
    }
    let expected = "| Team | Record | Average |\n\
| --- | --- | --- |\n\
| Sillazo Krstićs | 42-18 | 198.30 |\n\
| Francia Franceses | 39-21 | 207.11 |\n\
| Exiled Brownies | 38-22 | 202.49 |\n\
| Sierra Mágina PERs | 37-23 | 201.87 |\n\
| New Jersey Kinkis | 35-25 | 193.21 |\n\
| Catalonia Midecráneos | 34-26 | 193.00 |\n\
| Gamonal Sinoneveros | 34-26 | 182.26 |\n\
| Narraweena Whippets | 33-27 | 190.88 |\n\
| Chocolate Milk | 32-28 | 197.36 |\n\
| Losantos Lakers | 32-28 | 194.75 |\n\
| Blazers Argento | 30-30 | 173.25 |\n\
| Withington Aparachiquis | 29-31 | 185.30 |\n\
| Indiana Clínicas | 27-33 | 183.60 |\n\
| MiRondo Randoms | 24-36 | 180.32 |\n\
| Don José Luis 4 ermitas | 24-36 | 175.96 |\n\
| Valdebernardo Caprichitos | 22-38 | 172.43 |\n\
| Historiador C.Sirera | 21-39 | 170.57 |\n\
| EL TRUUA BATTLELISTA | 7-53 | 146.54 |\n";
    assert_eq!(s.render(), expected);
}
