//! A decoded replay's rows: what the replay's own bytes know (the match id is supplied by
//! whoever fetched the file).
use vstd::prelude::*;

use crate::replay::extract::opt_view;
use crate::replay::parsed::ids::{Age, GameCivId, MatchId, ProfileId};

verus! {

/// Everything decoded from one replay.
#[derive(Debug, Clone, PartialEq)]
pub struct ParsedReplay {
    pub match_id: MatchId,
    pub build: Option<i32>,
    /// `None` if the replay carries no resolvable map id.
    pub map_id: Option<i32>,
    pub duration_ms: i32,
    pub n_players: i16,
    pub players: Vec<ReplayPlayer>,
    pub events: Vec<ReplayEvent>,
    pub ages: Vec<ReplayAge>,
}

/// One real player (gaia and empty slots dropped).
#[derive(Debug, Clone, PartialEq)]
pub struct ReplayPlayer {
    pub player_number: i16,
    pub profile_id: ProfileId,
    pub civ_id: GameCivId,
    pub name: String,
    pub team: i16,
    pub color: i32,
    /// `None` when the replay alone does not decide the result.
    pub won: Option<bool>,
    /// Ranked ELO from the post-game leaderboard (1v1 RM, else team RM).
    pub elo: Option<i32>,
}

/// One action of the replay's stream.
#[derive(Debug, Clone, PartialEq)]
pub struct ReplayEvent {
    /// `None` when the acting player number is not a real player's.
    pub profile_id: Option<ProfileId>,
    pub player_number: i16,
    pub t_ms: i32,
    pub kind: String,
    pub target_id: Option<i64>,
    pub amount: Option<i64>,
    pub detail: Option<String>,
}

/// One `(player, age)` age-up summary: the cumulative composition up to the player's first
/// click of that age.
#[derive(Debug, Clone, PartialEq)]
pub struct ReplayAge {
    pub profile_id: ProfileId,
    pub civ_id: GameCivId,
    pub won: Option<bool>,
    pub age: Age,
    pub uptime_ms: i32,
    pub villagers: i32,
    pub military: i32,
    pub n_buildings: i32,
    pub n_research: i32,
}

impl View for ReplayPlayer {
    type V = (i16, i64, i32, Seq<char>, i16, i32, Option<bool>, Option<i32>);

    open spec fn view(&self) -> Self::V {
        (
            self.player_number,
            self.profile_id.0,
            self.civ_id.0,
            self.name@,
            self.team,
            self.color,
            self.won,
            self.elo,
        )
    }
}

impl View for ReplayEvent {
    type V = (Option<i64>, i16, i32, Seq<char>, Option<i64>, Option<i64>, Option<Seq<char>>);

    open spec fn view(&self) -> Self::V {
        (
            match self.profile_id {
                Some(p) => Some(p.0),
                None => None,
            },
            self.player_number,
            self.t_ms,
            self.kind@,
            self.target_id,
            self.amount,
            opt_view(self.detail),
        )
    }
}

impl View for ReplayAge {
    type V = (i64, i32, Option<bool>, Age, i32, i32, i32, i32, i32);

    open spec fn view(&self) -> Self::V {
        (
            self.profile_id.0,
            self.civ_id.0,
            self.won,
            self.age,
            self.uptime_ms,
            self.villagers,
            self.military,
            self.n_buildings,
            self.n_research,
        )
    }
}

} // verus!
