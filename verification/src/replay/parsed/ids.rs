//! The identifier types the decoded rows carry.
use vstd::prelude::*;

verus! {

/// A player's stable profile id.
#[derive(Debug, Clone, Copy, PartialEq, Eq, Hash, Structural)]
pub struct ProfileId(pub i64);

/// A civilization's in-game id.
#[derive(Debug, Clone, Copy, PartialEq, Eq, Hash, Structural)]
pub struct GameCivId(pub i32);

/// A unit's in-game id.
#[derive(Debug, Clone, Copy, PartialEq, Eq, Hash, Structural)]
pub struct GameUnitId(pub i32);

/// A technology's in-game id.
#[derive(Debug, Clone, Copy, PartialEq, Eq, Hash, Structural)]
pub struct TechId(pub i32);

/// A match's id.
#[derive(Debug, Clone, Copy, PartialEq, Eq, Hash, Structural)]
pub struct MatchId(pub i64);

/// An age of the game.
#[derive(Debug, Clone, Copy, PartialEq, Eq, Hash, Structural)]
pub enum Age {
    Dark,
    Feudal,
    Castle,
    Imperial,
}

/// The closed opening vocabulary a rich opening tag reconciles onto.
#[derive(Debug, Clone, Copy, PartialEq, Eq, Hash, Structural)]
pub enum OpeningKind {
    Scouts,
    Archers,
    Skirms,
    Eagles,
    ManAtArms,
    Spears,
    Drush,
    FastCastle,
}

} // verus!
