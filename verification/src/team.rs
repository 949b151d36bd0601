//! The fixed, closed set of teams, with a total index and display-name
//! mapping. Teams serve only as mapping keys and display subjects.

use vstd::prelude::*;

verus! {

/// Number of teams in the league; a `Standings` holds exactly one record per
/// team.
pub const TEAM_COUNT: usize = 18;

/// The closed set of team identifiers.
#[derive(Clone, Copy, PartialEq, Eq, Structural, Debug)]
pub enum Team {
    Sillazo,
    Francia,
    Exiled,
    SierraMagina,
    NewJersey,
    Gamonal,
    Catalonia,
    Narraweena,
    Chocolate,
    Losantos,
    Withington,
    Blazers,
    Indiana,
    MiRondo,
    DonJoseLuis,
    Historiador,
    Valdebernardo,
    ElTruua,
}

impl Team {
    /// Position of this team in the fixed enumeration; `Standings` stores
    /// the team's record at this index.
    pub open spec fn index_spec(self) -> int {
        match self {
            Team::Sillazo => 0,
            Team::Francia => 1,
            Team::Exiled => 2,
            Team::SierraMagina => 3,
            Team::NewJersey => 4,
            Team::Gamonal => 5,
            Team::Catalonia => 6,
            Team::Narraweena => 7,
            Team::Chocolate => 8,
            Team::Losantos => 9,
            Team::Withington => 10,
            Team::Blazers => 11,
            Team::Indiana => 12,
            Team::MiRondo => 13,
            Team::DonJoseLuis => 14,
            Team::Historiador => 15,
            Team::Valdebernardo => 16,
            Team::ElTruua => 17,
        }
    }

    /// Human-readable display name, as it appears in the rendered table.
    pub open spec fn name_spec(self) -> Seq<char> {
        match self {
            Team::Sillazo => "Sillazo Krstićs"@,
            Team::Francia => "Francia Franceses"@,
            Team::Exiled => "Exiled Brownies"@,
            Team::SierraMagina => "Sierra Mágina PERs"@,
            Team::NewJersey => "New Jersey Kinkis"@,
            Team::Gamonal => "Gamonal Sinoneveros"@,
            Team::Catalonia => "Catalonia Midecráneos"@,
            Team::Narraweena => "Narraweena Whippets"@,
            Team::Chocolate => "Chocolate Milk"@,
            Team::Losantos => "Losantos Lakers"@,
            Team::Withington => "Withington Aparachiquis"@,
            Team::Blazers => "Blazers Argento"@,
            Team::Indiana => "Indiana Clínicas"@,
            Team::MiRondo => "MiRondo Randoms"@,
            Team::DonJoseLuis => "Don José Luis 4 ermitas"@,
            Team::Historiador => "Historiador C.Sirera"@,
            Team::Valdebernardo => "Valdebernardo Caprichitos"@,
            Team::ElTruua => "EL TRUUA BATTLELISTA"@,
        }
    }

    pub fn index(&self) -> (i: usize)
        ensures
            i == self.index_spec(),
            i < TEAM_COUNT,
    {
        match self {
            Team::Sillazo => 0,
            Team::Francia => 1,
            Team::Exiled => 2,
            Team::SierraMagina => 3,
            Team::NewJersey => 4,
            Team::Gamonal => 5,
            Team::Catalonia => 6,
            Team::Narraweena => 7,
            Team::Chocolate => 8,
            Team::Losantos => 9,
            Team::Withington => 10,
            Team::Blazers => 11,
            Team::Indiana => 12,
            Team::MiRondo => 13,
            Team::DonJoseLuis => 14,
            Team::Historiador => 15,
            Team::Valdebernardo => 16,
            Team::ElTruua => 17,
        }
    }

    pub fn name(&self) -> (n: &'static str)
        ensures
            n@ == self.name_spec(),
    {
        match self {
            Team::Sillazo => "Sillazo Krstićs",
            Team::Francia => "Francia Franceses",
            Team::Exiled => "Exiled Brownies",
            Team::SierraMagina => "Sierra Mágina PERs",
            Team::NewJersey => "New Jersey Kinkis",
            Team::Gamonal => "Gamonal Sinoneveros",
            Team::Catalonia => "Catalonia Midecráneos",
            Team::Narraweena => "Narraweena Whippets",
            Team::Chocolate => "Chocolate Milk",
            Team::Losantos => "Losantos Lakers",
            Team::Withington => "Withington Aparachiquis",
            Team::Blazers => "Blazers Argento",
            Team::Indiana => "Indiana Clínicas",
            Team::MiRondo => "MiRondo Randoms",
            Team::DonJoseLuis => "Don José Luis 4 ermitas",
            Team::Historiador => "Historiador C.Sirera",
            Team::Valdebernardo => "Valdebernardo Caprichitos",
            Team::ElTruua => "EL TRUUA BATTLELISTA",
        }
    }
}

/// The team standing at a given index: inverse of [`Team::index_spec`].
pub open spec fn team_at(i: int) -> Team {
    if i == 0 {
        Team::Sillazo
    } else if i == 1 {
        Team::Francia
    } else if i == 2 {
        Team::Exiled
    } else if i == 3 {
        Team::SierraMagina
    } else if i == 4 {
        Team::NewJersey
    } else if i == 5 {
        Team::Gamonal
    } else if i == 6 {
        Team::Catalonia
    } else if i == 7 {
        Team::Narraweena
    } else if i == 8 {
        Team::Chocolate
    } else if i == 9 {
        Team::Losantos
    } else if i == 10 {
        Team::Withington
    } else if i == 11 {
        Team::Blazers
    } else if i == 12 {
        Team::Indiana
    } else if i == 13 {
        Team::MiRondo
    } else if i == 14 {
        Team::DonJoseLuis
    } else if i == 15 {
        Team::Historiador
    } else if i == 16 {
        Team::Valdebernardo
    } else {
        Team::ElTruua
    }
}

/// `team_at` and `index_spec` are mutually inverse on the valid index range.
pub proof fn lemma_team_index_inverse(t: Team, i: int)
    ensures
        team_at(t.index_spec()) == t,
        0 <= i < TEAM_COUNT ==> team_at(i).index_spec() == i,
{
    match t {
        Team::Sillazo => {},
        Team::Francia => {},
        Team::Exiled => {},
        Team::SierraMagina => {},
        Team::NewJersey => {},
        Team::Gamonal => {},
        Team::Catalonia => {},
        Team::Narraweena => {},
        Team::Chocolate => {},
        Team::Losantos => {},
        Team::Withington => {},
        Team::Blazers => {},
        Team::Indiana => {},
        Team::MiRondo => {},
        Team::DonJoseLuis => {},
        Team::Historiador => {},
        Team::Valdebernardo => {},
        Team::ElTruua => {},
    }
}

/// Executable inverse of [`Team::index`].
pub fn team_of_index(i: usize) -> (t: Team)
    requires
        i < TEAM_COUNT,
    ensures
        t == team_at(i as int),
        t.index_spec() == i,
{
    let t = match i {
        0 => Team::Sillazo,
        1 => Team::Francia,
        2 => Team::Exiled,
        3 => Team::SierraMagina,
        4 => Team::NewJersey,
        5 => Team::Gamonal,
        6 => Team::Catalonia,
        7 => Team::Narraweena,
        8 => Team::Chocolate,
        9 => Team::Losantos,
        10 => Team::Withington,
        11 => Team::Blazers,
        12 => Team::Indiana,
        13 => Team::MiRondo,
        14 => Team::DonJoseLuis,
        15 => Team::Historiador,
        16 => Team::Valdebernardo,
        _ => Team::ElTruua,
    };
    t
}

/// All teams, in enumeration (index) order.
pub fn all_teams() -> (r: Vec<Team>)
    ensures
        r@.len() == TEAM_COUNT,
        forall|i: int| 0 <= i < TEAM_COUNT ==> r@[i] == team_at(i),
{
    let mut r: Vec<Team> = Vec::new();
    let mut i: usize = 0;
    while i < TEAM_COUNT
        invariant
            i <= TEAM_COUNT,
            r@.len() == i,
            forall|k: int| 0 <= k < i ==> r@[k] == team_at(k),
        decreases TEAM_COUNT - i,
    {
        r.push(team_of_index(i));
        i = i + 1;
    }
    r
}

} // verus!
