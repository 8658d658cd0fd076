//! Shared data types of the replay analyzer: map families, per-game and per-player facts,
//! roles, and the findings a report carries.
use vstd::prelude::*;

verus! {

/// A map's family.
#[derive(Debug, Clone, Copy, PartialEq, Eq, Structural)]
pub enum Family {
    Open,
    Closed,
    Hybrid,
    Water,
    Nomad,
    Special,
    Other,
}

/// Per-game facts read from a replay.
#[derive(Debug, Clone, Copy, PartialEq, Eq, Structural)]
pub struct GameMeta {
    pub map_id: u32,
    pub duration_ms: u32,
    pub rec_player: i32,
}

/// Per-player facts read from a replay.
#[derive(Debug, Clone)]
pub struct PlayerInfo {
    pub player_number: i32,
    /// Stable player identity across matches.
    pub profile_id: i64,
    pub civ_id: u32,
    pub name: String,
    pub color_id: i32,
    pub team_id: u8,
    /// Won/lost from the team-aware resignation logic; `None` when undecided.
    pub won: Option<bool>,
}

/// A player's position within a team.
#[derive(Debug, Clone, Copy, PartialEq, Eq, Structural)]
pub enum Role {
    Flank,
    Pocket,
}

/// The four comparison bases of a finding.
#[derive(Debug, Clone, Copy, PartialEq, Eq, Structural)]
pub enum Basis {
    YourElo,
    Pro,
    Opponent,
    Absolute,
}

/// How much a finding matters; `High` orders last.
#[derive(Debug, Clone, Copy, PartialEq, Eq, PartialOrd, Ord, Structural)]
pub enum Severity {
    Low,
    Med,
    High,
}

/// One coaching finding about one player.
#[derive(Debug, Clone)]
pub struct Finding {
    pub player_number: i32,
    /// Stable snake_case code, one per emit site.
    pub code: &'static str,
    pub metric: String,
    pub your: String,
    pub reference: String,
    pub basis: Basis,
    pub severity: Severity,
    pub note: String,
    /// Template values for the localized note, keyed by name in ascending order.
    pub vars: Vec<(&'static str, String)>,
}

/// The report schema's version.
pub const SCHEMA_VERSION: u32 = 1;

/// Honesty footer shared by the terminal and JSON reports.
pub const MACRO_CAVEAT: &'static str =
    "macro coach only — no fights, micro, map control, or exact resources.";

/// How the "you" player is picked: by name (case-insensitive) or by profile id.
#[derive(Debug, Clone)]
pub enum YouSel {
    Auto,
    Name(String),
    ProfileId(i64),
}

/// The report's game-level header.
#[derive(Debug, Clone)]
pub struct ReportMeta {
    pub map_id: u32,
    pub map_name: String,
    pub family: Family,
    /// `"1v1"` or `"team"`.
    pub mode: String,
    pub duration_ms: u32,
    /// The player number of "you".
    pub you: i32,
}

} // verus!
