//! From a decoded replay (header players and the operation stream) to the four tables the
//! pipeline stores: one meta row, one row per real player, every player action as an
//! event (nothing dropped), and per player per age reached the up-time and cumulative
//! composition up to it.
use vstd::prelude::*;

use crate::replay::config::eco_unit;
use crate::replay::postgame::{
    blocks_entries, blocks_in_range, collect_leaderboard_elo, elo_merge, EloTable, PostGameBlock,
};
use crate::str_map::{assoc_get, assoc_index, assoc_insert, lemma_assoc_index};
use crate::text::{lowercase_of, str_to_lowercase};

verus! {

// --- the decoded replay -------------------------------------------------------------

/// One action of the operation stream, with what the pipeline reads of it.
#[derive(Debug, Clone)]
pub enum ActionData {
    /// A unit queued for training.
    DeQueue { player_id: u8, unit_id: u16, amount: u16 },
    Research { player_id: u8, technology_type: u16 },
    /// A building placed; `data` is the raw record (the building id is at bytes 12..16).
    Build { player_id: u8, data: Vec<u8> },
    /// A game sub-command, with its variant name where it has one.
    Game { player_id: u8, game_command: Option<String> },
    /// An order, with its order type's name where it has one.
    Order { player_id: u8, order_type: Option<String> },
    Resign { player_id: u8 },
    /// A move order to a map position (coordinates as the record's `f32` bit patterns).
    Move { player_id: u8, x_bits: u32, y_bits: u32 },
    /// An interact order at a map position (coordinates as `f32` bit patterns).
    Interact { player_id: u8, x_bits: u32, y_bits: u32 },
    /// A market purchase.
    Buy { player_id: u8 },
    /// A market sale.
    Sell { player_id: u8 },
    /// Any other action: its variant name and its `player_id` field, if any.
    Other { variant: String, player_id: Option<i64> },
}

/// One player slot of the replay header.
#[derive(Debug, Clone)]
pub struct HeaderPlayer {
    pub player_number: i32,
    pub profile_id: i32,
    pub civ_id: u32,
    pub name: String,
    pub resolved_team_id: u8,
    pub color_id: i32,
}

/// What the pipeline reads of a replay header.
#[derive(Debug, Clone)]
pub struct ReplayHeader {
    pub build: u32,
    pub version_major: u16,
    pub resolved_map_id: u32,
    pub players: Vec<HeaderPlayer>,
}

/// One operation of the replay's stream.
#[derive(Debug)]
pub enum Operation {
    Action { world_time: u32, action_data: ActionData },
    PostGame { blocks: Vec<PostGameBlock> },
    /// Sync, view lock, chat and the like: not events.
    Other,
}

/// A decoded replay: its header, its operation stream, and what the decoder computes
/// over them (the resigned player numbers, the recording player, the duration).
#[derive(Debug)]
pub struct Savegame {
    pub header: ReplayHeader,
    pub operations: Vec<Operation>,
    pub resignations: Vec<i32>,
    pub rec_player: i32,
    pub duration_ms: u32,
}

// --- output rows --------------------------------------------------------------------

/// The replay's one meta row.
#[derive(Debug, Clone, PartialEq, Eq, Structural)]
pub struct MetaRow {
    pub match_id: i64,
    pub build: Option<u32>,
    pub version_major: Option<u16>,
    pub map_id: Option<u32>,
    pub duration_ms: u32,
    pub n_players: usize,
}

/// One real player.
#[derive(Debug, Clone)]
pub struct PlayerRow {
    pub match_id: i64,
    pub player_number: i32,
    pub profile_id: i32,
    pub civ_id: u32,
    pub name: String,
    pub team: u8,
    pub color: i32,
    pub won: Option<bool>,
    /// Ranked ELO from the post-game leaderboard (1v1 RM, else team RM); `None` when the
    /// replay has none.
    pub elo: Option<i32>,
}

/// One player action.
#[derive(Debug, Clone)]
pub struct EventRow {
    pub match_id: i64,
    pub profile_id: Option<i32>,
    pub player_number: i32,
    pub t_ms: u32,
    pub kind: String,
    pub target_id: Option<i64>,
    pub amount: Option<i64>,
    pub detail: Option<String>,
}

/// One player's state at an age boundary: up-time and what it had queued, placed and
/// researched by then.
#[derive(Debug, Clone)]
pub struct AgeRow {
    pub match_id: i64,
    pub profile_id: i32,
    pub civ_id: u32,
    pub won: Option<bool>,
    pub age: String,
    pub uptime_ms: u32,
    pub villagers: i64,
    pub military: i64,
    pub n_buildings: i64,
    pub n_research: i64,
}

/// The four tables of one replay.
#[derive(Debug, Clone)]
pub struct Extracted {
    pub meta: MetaRow,
    pub players: Vec<PlayerRow>,
    pub events: Vec<EventRow>,
    pub ages: Vec<AgeRow>,
}

/// The view of an optional string.
pub open spec fn opt_view(o: Option<String>) -> Option<Seq<char>> {
    match o {
        Some(s) => Some(s@),
        None => None,
    }
}

impl View for PlayerRow {
    type V = (i64, i32, i32, u32, Seq<char>, u8, i32, Option<bool>, Option<i32>);

    open spec fn view(&self) -> Self::V {
        (
            self.match_id,
            self.player_number,
            self.profile_id,
            self.civ_id,
            self.name@,
            self.team,
            self.color,
            self.won,
            self.elo,
        )
    }
}

impl View for EventRow {
    type V = (i64, Option<i32>, i32, u32, Seq<char>, Option<i64>, Option<i64>, Option<Seq<char>>);

    open spec fn view(&self) -> Self::V {
        (
            self.match_id,
            self.profile_id,
            self.player_number,
            self.t_ms,
            self.kind@,
            self.target_id,
            self.amount,
            opt_view(self.detail),
        )
    }
}

impl View for AgeRow {
    type V = (i64, i32, u32, Option<bool>, Seq<char>, u32, i64, i64, i64, i64);

    open spec fn view(&self) -> Self::V {
        (
            self.match_id,
            self.profile_id,
            self.civ_id,
            self.won,
            self.age@,
            self.uptime_ms,
            self.villagers,
            self.military,
            self.n_buildings,
            self.n_research,
        )
    }
}

// --- one action ---------------------------------------------------------------------

/// The value of four little-endian bytes as a two's-complement `i32`.
pub open spec fn le_i32(b0: u8, b1: u8, b2: u8, b3: u8) -> i32 {
    (b0 + b1 * 0x100 + b2 * 0x1_0000 + b3 * 0x100_0000) as i32
}

/// The building id of a build record: the little-endian `i32` at bytes 12..16, if the
/// record is that long.
pub open spec fn build_id_of(data: Seq<u8>) -> Option<i64> {
    if data.len() < 16 {
        None
    } else {
        Some(le_i32(data[12], data[13], data[14], data[15]) as i64)
    }
}

/// Reads the building id of a build record.
pub fn decode_build_id(data: &[u8]) -> (r: Option<i64>)
    ensures
        r == build_id_of(data@),
{
    if data.len() < 16 {
        return None;
    }
    let u: u32 = data[12] as u32 + (data[13] as u32) * 0x100 + (data[14] as u32) * 0x1_0000
        + (data[15] as u32) * 0x100_0000;
    let v: i32 = u as i32;
    Some(v as i64)
}

/// What an action decodes to: `(player number, kind, target id, amount, detail)`.
pub open spec fn decoded(a: ActionData) -> (i32, Seq<char>, Option<i64>, Option<i64>, Option<Seq<char>>) {
    match a {
        ActionData::DeQueue { player_id, unit_id, amount } => (
            player_id as i32,
            "train"@,
            Some(unit_id as i64),
            Some(
                if amount == 0 {
                    1i64
                } else {
                    amount as i64
                },
            ),
            None,
        ),
        ActionData::Research { player_id, technology_type } => (
            player_id as i32,
            "research"@,
            Some(technology_type as i64),
            None,
            None,
        ),
        ActionData::Build { player_id, data } => (
            player_id as i32,
            "build"@,
            build_id_of(data@),
            None,
            None,
        ),
        ActionData::Game { player_id, game_command } => (
            player_id as i32,
            "game"@,
            None,
            None,
            opt_view(game_command),
        ),
        ActionData::Order { player_id, order_type } => (
            player_id as i32,
            "order"@,
            None,
            None,
            opt_view(order_type),
        ),
        ActionData::Resign { player_id } => (player_id as i32, "resign"@, None, None, None),
        ActionData::Move { player_id, .. } => (player_id as i32, "move"@, None, None, None),
        ActionData::Interact { player_id, .. } => (player_id as i32, "interact"@, None, None, None),
        ActionData::Buy { player_id } => (player_id as i32, "buy"@, None, None, None),
        ActionData::Sell { player_id } => (player_id as i32, "sell"@, None, None, None),
        ActionData::Other { variant, player_id } => (
            match player_id {
                Some(p) => p as i32,
                None => 0i32,
            },
            lowercase_of(variant@),
            None,
            None,
            None,
        ),
    }
}

/// One decoded action.
#[derive(Debug)]
pub struct Decoded {
    pub player_number: i32,
    pub kind: String,
    pub target_id: Option<i64>,
    pub amount: Option<i64>,
    pub detail: Option<String>,
}

impl View for Decoded {
    type V = (i32, Seq<char>, Option<i64>, Option<i64>, Option<Seq<char>>);

    open spec fn view(&self) -> Self::V {
        (self.player_number, self.kind@, self.target_id, self.amount, opt_view(self.detail))
    }
}

fn clone_opt(o: &Option<String>) -> (r: Option<String>)
    ensures
        opt_view(r) == opt_view(*o),
{
    match o {
        Some(s) => Some(s.clone()),
        None => None,
    }
}

/// Decodes one action: the named kinds, and for the long tail the lowercased variant
/// name with the action's player id (0 when it has none).
pub fn classify(ad: &ActionData) -> (d: Decoded)
    ensures
        d@ == decoded(*ad),
{
    match ad {
        ActionData::DeQueue { player_id, unit_id, amount } => Decoded {
            player_number: *player_id as i32,
            kind: "train".to_string(),
            target_id: Some(*unit_id as i64),
            amount: Some(
                if *amount == 0 {
                    1
                } else {
                    *amount as i64
                },
            ),
            detail: None,
        },
        ActionData::Research { player_id, technology_type } => Decoded {
            player_number: *player_id as i32,
            kind: "research".to_string(),
            target_id: Some(*technology_type as i64),
            amount: None,
            detail: None,
        },
        ActionData::Build { player_id, data } => Decoded {
            player_number: *player_id as i32,
            kind: "build".to_string(),
            target_id: decode_build_id(data.as_slice()),
            amount: None,
            detail: None,
        },
        ActionData::Game { player_id, game_command } => Decoded {
            player_number: *player_id as i32,
            kind: "game".to_string(),
            target_id: None,
            amount: None,
            detail: clone_opt(game_command),
        },
        ActionData::Order { player_id, order_type } => Decoded {
            player_number: *player_id as i32,
            kind: "order".to_string(),
            target_id: None,
            amount: None,
            detail: clone_opt(order_type),
        },
        ActionData::Resign { player_id } => Decoded {
            player_number: *player_id as i32,
            kind: "resign".to_string(),
            target_id: None,
            amount: None,
            detail: None,
        },
        ActionData::Move { player_id, .. } => Decoded {
            player_number: *player_id as i32,
            kind: "move".to_string(),
            target_id: None,
            amount: None,
            detail: None,
        },
        ActionData::Interact { player_id, .. } => Decoded {
            player_number: *player_id as i32,
            kind: "interact".to_string(),
            target_id: None,
            amount: None,
            detail: None,
        },
        ActionData::Buy { player_id } => Decoded {
            player_number: *player_id as i32,
            kind: "buy".to_string(),
            target_id: None,
            amount: None,
            detail: None,
        },
        ActionData::Sell { player_id } => Decoded {
            player_number: *player_id as i32,
            kind: "sell".to_string(),
            target_id: None,
            amount: None,
            detail: None,
        },
        ActionData::Other { variant, player_id } => {
            let pn: i32 = match player_id {
                Some(p) => *p as i32,
                None => 0,
            };
            Decoded {
                player_number: pn,
                kind: str_to_lowercase(variant.as_str()),
                target_id: None,
                amount: None,
                detail: None,
            }
        },
    }
}


// --- the whole replay ---------------------------------------------------------------

/// The real players of a header, keyed by player number: slots with civ 0 (gaia, empty)
/// skipped, a later slot replacing an earlier one with the same number.
pub open spec fn real_players(hp: Seq<HeaderPlayer>) -> Seq<(i32, HeaderPlayer)>
    decreases hp.len(),
{
    if hp.len() == 0 {
        Seq::empty()
    } else {
        let prev = real_players(hp.drop_last());
        if hp.last().civ_id == 0 {
            prev
        } else {
            assoc_insert(prev, hp.last().player_number, hp.last())
        }
    }
}

/// The actions of the operation stream, with their world times, in order.
pub open spec fn actions(ops: Seq<Operation>) -> Seq<(u32, ActionData)>
    decreases ops.len(),
{
    if ops.len() == 0 {
        Seq::empty()
    } else {
        let prev = actions(ops.drop_last());
        match ops.last() {
            Operation::Action { world_time, action_data } => prev.push((world_time, action_data)),
            _ => prev,
        }
    }
}

/// The event row of one action.
pub open spec fn event_of(match_id: i64, ps: Seq<(i32, HeaderPlayer)>, a: (u32, ActionData)) -> (
    i64,
    Option<i32>,
    i32,
    u32,
    Seq<char>,
    Option<i64>,
    Option<i64>,
    Option<Seq<char>>,
) {
    let d = decoded(a.1);
    (
        match_id,
        match assoc_get(ps, d.0) {
            Some(p) => Some(p.profile_id),
            None => None,
        },
        d.0,
        a.0,
        d.1,
        d.2,
        d.3,
        d.4,
    )
}

/// The replay's duration: the latest action time (0 without actions).
pub open spec fn max_time(acts: Seq<(u32, ActionData)>) -> u32
    decreases acts.len(),
{
    if acts.len() == 0 {
        0
    } else {
        let m = max_time(acts.drop_last());
        if acts.last().0 > m {
            acts.last().0
        } else {
            m
        }
    }
}

/// The distinct player numbers that resigned, in order of their first resignation.
pub open spec fn resigners(acts: Seq<(u32, ActionData)>) -> Seq<i32>
    decreases acts.len(),
{
    if acts.len() == 0 {
        Seq::empty()
    } else {
        let prev = resigners(acts.drop_last());
        let d = decoded(acts.last().1);
        if d.1 == "resign"@ && !prev.contains(d.0) {
            prev.push(d.0)
        } else {
            prev
        }
    }
}

/// Whether the winner is known: someone resigned, and fewer players than all (at least one).
pub open spec fn winner_known(acts: Seq<(u32, ActionData)>, n_players: nat) -> bool {
    resigners(acts).len() > 0 && resigners(acts).len() < (if n_players > 1 {
        n_players
    } else {
        1
    })
}

/// Whether a player won: with a known winner, exactly the players who did not resign.
pub open spec fn won_of(acts: Seq<(u32, ActionData)>, n_players: nat, pn: i32) -> Option<bool> {
    if winner_known(acts, n_players) {
        Some(!resigners(acts).contains(pn))
    } else {
        None
    }
}

/// The post-game ELO entries of the stream, in order.
pub open spec fn elo_entries(ops: Seq<Operation>) -> Seq<(u32, i32, i32)>
    decreases ops.len(),
{
    if ops.len() == 0 {
        Seq::empty()
    } else {
        elo_entries(ops.drop_last()) + match ops.last() {
            Operation::PostGame { blocks } => blocks_entries(blocks@),
            _ => Seq::empty(),
        }
    }
}

/// A player's ELO: on the 1v1 ladder (3), else on the team ladder (4).
pub open spec fn elo_of(m: Map<(u32, i32), i32>, pn: i32) -> Option<i32> {
    if m.contains_key((3u32, pn)) {
        Some(m[(3u32, pn)])
    } else if m.contains_key((4u32, pn)) {
        Some(m[(4u32, pn)])
    } else {
        None
    }
}

/// The time of a player's first research of tech `tid` from index `i` on.
pub open spec fn first_research(acts: Seq<(u32, ActionData)>, pn: i32, tid: i64, i: int) -> Option<
    u32,
>
    decreases acts.len() - i,
{
    if i < 0 || i >= acts.len() {
        None
    } else {
        let d = decoded(acts[i].1);
        if d.0 == pn && d.1 == "research"@ && d.2 == Some(tid) {
            Some(acts[i].0)
        } else {
            first_research(acts, pn, tid, i + 1)
        }
    }
}

/// What one action adds to a player's `(villagers, military, buildings, research)` by
/// time `t`: a train counts its amount (at least 1) as villagers for the villager, as
/// nothing for another economy unit, and as military otherwise (an unknown or out-of-range
/// id included).
pub open spec fn comp_step(a: (u32, ActionData), pn: i32, t: u32) -> (int, int, int, int) {
    let d = decoded(a.1);
    if d.0 != pn || a.0 > t {
        (0, 0, 0, 0)
    } else if d.1 == "train"@ {
        let tid: int = match d.2 {
            Some(x) => x as int,
            None => -1,
        };
        let amt: int = match d.3 {
            Some(x) => if x >= 1 {
                x as int
            } else {
                1
            },
            None => 1,
        };
        if 0 <= tid <= 65535 {
            if eco_unit(tid as u16) {
                if tid == 83 {
                    (amt, 0, 0, 0)
                } else {
                    (0, 0, 0, 0)
                }
            } else {
                (0, amt, 0, 0)
            }
        } else {
            (0, amt, 0, 0)
        }
    } else if d.1 == "build"@ {
        (0, 0, 1, 0)
    } else if d.1 == "research"@ {
        (0, 0, 0, 1)
    } else {
        (0, 0, 0, 0)
    }
}

/// A player's cumulative `(villagers, military, buildings, research)` up to time `t`.
pub open spec fn composition(acts: Seq<(u32, ActionData)>, pn: i32, t: u32) -> (int, int, int, int)
    decreases acts.len(),
{
    if acts.len() == 0 {
        (0, 0, 0, 0)
    } else {
        let p = composition(acts.drop_last(), pn, t);
        let s = comp_step(acts.last(), pn, t);
        (p.0 + s.0, p.1 + s.1, p.2 + s.2, p.3 + s.3)
    }
}

/// The name of the age with index `a` (0 feudal, 1 castle, 2 imperial).
pub open spec fn age_label(a: int) -> Seq<char> {
    if a == 0 {
        "feudal"@
    } else if a == 1 {
        "castle"@
    } else {
        "imperial"@
    }
}

/// The age row of one player and age, if the player reached it.
pub open spec fn age_row(
    match_id: i64,
    acts: Seq<(u32, ActionData)>,
    n_players: nat,
    pn: i32,
    p: HeaderPlayer,
    a: int,
) -> Seq<(i64, i32, u32, Option<bool>, Seq<char>, u32, i64, i64, i64, i64)> {
    match first_research(acts, pn, (101 + a) as i64, 0) {
        None => Seq::empty(),
        Some(t) => {
            let c = composition(acts, pn, t);
            seq![
                (
                    match_id,
                    p.profile_id,
                    p.civ_id,
                    won_of(acts, n_players, pn),
                    age_label(a),
                    t,
                    c.0 as i64,
                    c.1 as i64,
                    c.2 as i64,
                    c.3 as i64,
                ),
            ]
        },
    }
}

/// The age rows of the players `ps`, player by player, each in age order.
pub open spec fn age_rows(
    match_id: i64,
    acts: Seq<(u32, ActionData)>,
    n_players: nat,
    ps: Seq<(i32, HeaderPlayer)>,
) -> Seq<(i64, i32, u32, Option<bool>, Seq<char>, u32, i64, i64, i64, i64)>
    decreases ps.len(),
{
    if ps.len() == 0 {
        Seq::empty()
    } else {
        let (pn, p) = ps.last();
        age_rows(match_id, acts, n_players, ps.drop_last()) + age_row(
            match_id,
            acts,
            n_players,
            pn,
            p,
            0,
        ) + age_row(match_id, acts, n_players, pn, p, 1) + age_row(
            match_id,
            acts,
            n_players,
            pn,
            p,
            2,
        )
    }
}

/// The player row of one real player.
pub open spec fn player_row(
    match_id: i64,
    acts: Seq<(u32, ActionData)>,
    n_players: nat,
    elo: Map<(u32, i32), i32>,
    e: (i32, HeaderPlayer),
) -> (i64, i32, i32, u32, Seq<char>, u8, i32, Option<bool>, Option<i32>) {
    let (pn, p) = e;
    (
        match_id,
        pn,
        p.profile_id,
        p.civ_id,
        p.name@,
        p.resolved_team_id,
        p.color_id,
        won_of(acts, n_players, pn),
        elo_of(elo, pn),
    )
}

/// Every post-game block of the stream has its leaderboard player numbers in range.
pub open spec fn ops_in_range(ops: Seq<Operation>) -> bool {
    forall|k: int|
        0 <= k < ops.len() && (#[trigger] ops[k]) is PostGame ==> blocks_in_range(
            ops[k]->blocks@,
        )
}

/// Every decoded amount is absent or between 1 and 65535.
proof fn lemma_decoded_amount(a: ActionData)
    ensures
        match decoded(a).3 {
            Some(x) => 1 <= x <= 65535,
            None => true,
        },
{
}

proof fn lemma_composition_bounds(acts: Seq<(u32, ActionData)>, pn: i32, t: u32)
    ensures
        0 <= composition(acts, pn, t).0 <= 65535 * acts.len(),
        0 <= composition(acts, pn, t).1 <= 65535 * acts.len(),
        0 <= composition(acts, pn, t).2 <= acts.len(),
        0 <= composition(acts, pn, t).3 <= acts.len(),
    decreases acts.len(),
{
    if acts.len() > 0 {
        lemma_composition_bounds(acts.drop_last(), pn, t);
        lemma_decoded_amount(acts.last().1);
    }
}

/// The index of the entry keyed `key`, if any.
fn index_of_key<V>(v: &Vec<(i32, V)>, key: i32) -> (r: Option<usize>)
    ensures
        match r {
            Some(k) => assoc_index(v@, key) == k && k < v@.len() && v@[k as int].0 == key
                && assoc_get(v@, key) == Some(v@[k as int].1),
            None => assoc_index(v@, key) == -1 && assoc_get(v@, key) is None,
        },
{
    proof {
        lemma_assoc_index(v@, key);
    }
    let mut k: usize = 0;
    while k < v.len()
        invariant
            k <= v@.len(),
            forall|j: int| 0 <= j < k ==> (#[trigger] v@[j]).0 != key,
        decreases v@.len() - k,
    {
        if v[k].0 == key {
            proof {
                lemma_assoc_index(v@, key);
                let i = assoc_index(v@, key);
                if i != -1 && i != k {
                    if i < k {
                        assert(v@[i].0 != key);
                    } else {
                        assert(v@[k as int].0 != key);
                    }
                }
                if i == -1 {
                    assert(v@[k as int].0 != key);
                }
            }
            return Some(k);
        }
        k = k + 1;
    }
    None
}

/// Builds the real-player table of a header.
fn players_of(hp: &[HeaderPlayer]) -> (r: Vec<(i32, HeaderPlayer)>)
    ensures
        r@ == real_players(hp@),
{
    let mut out: Vec<(i32, HeaderPlayer)> = Vec::new();
    let mut i: usize = 0;
    while i < hp.len()
        invariant
            i <= hp@.len(),
            out@ == real_players(hp@.subrange(0, i as int)),
        decreases hp@.len() - i,
    {
        assert(hp@.subrange(0, i + 1).drop_last() == hp@.subrange(0, i as int));
        let p = &hp[i];
        if p.civ_id != 0 {
            let copy = HeaderPlayer {
                player_number: p.player_number,
                profile_id: p.profile_id,
                civ_id: p.civ_id,
                name: p.name.clone(),
                resolved_team_id: p.resolved_team_id,
                color_id: p.color_id,
            };
            assert(copy == *p);
            match index_of_key(&out, p.player_number) {
                Some(k) => {
                    out.set(k, (p.player_number, copy));
                },
                None => {
                    out.push((p.player_number, copy));
                },
            }
        }
        i = i + 1;
    }
    assert(hp@.subrange(0, hp@.len() as int) == hp@);
    out
}

/// The profile id of a real player, if `pn` is one.
fn profile_of(ps: &Vec<(i32, HeaderPlayer)>, pn: i32) -> (r: Option<i32>)
    ensures
        r == match assoc_get(ps@, pn) {
            Some(p) => Some(p.profile_id),
            None => None,
        },
{
    match index_of_key(ps, pn) {
        Some(k) => Some(ps[k].1.profile_id),
        None => None,
    }
}

fn contains_i32(v: &Vec<i32>, x: i32) -> (r: bool)
    ensures
        r == v@.contains(x),
{
    let mut k: usize = 0;
    while k < v.len()
        invariant
            k <= v@.len(),
            forall|j: int| 0 <= j < k ==> v@[j] != x,
        decreases v@.len() - k,
    {
        if v[k] == x {
            return true;
        }
        k = k + 1;
    }
    false
}

/// The event rows agree with the actions they came from.
pub open spec fn events_match(evs: Seq<EventRow>, acts: Seq<(u32, ActionData)>) -> bool {
    &&& evs.len() == acts.len()
    &&& forall|i: int|
        0 <= i < evs.len() ==> {
            let d = decoded(acts[i].1);
            &&& (#[trigger] evs[i]).player_number == d.0
            &&& evs[i].t_ms == acts[i].0
            &&& evs[i].kind@ == d.1
            &&& evs[i].target_id == d.2
            &&& evs[i].amount == d.3
        }
}

fn first_research_time(evs: &Vec<EventRow>, Ghost(acts): Ghost<Seq<(u32, ActionData)>>, pn: i32, tid: i64) -> (r: Option<u32>)
    requires
        events_match(evs@, acts),
    ensures
        r == first_research(acts, pn, tid, 0),
{
    let mut i: usize = 0;
    while i < evs.len()
        invariant
            i <= evs@.len(),
            events_match(evs@, acts),
            first_research(acts, pn, tid, 0) == first_research(acts, pn, tid, i as int),
        decreases evs@.len() - i,
    {
        let e = &evs[i];
        if e.player_number == pn && crate::text::str_eq(e.kind.as_str(), "research")
            && e.target_id == Some(tid) {
            return Some(e.t_ms);
        }
        i = i + 1;
    }
    None
}

fn composition_at(evs: &Vec<EventRow>, Ghost(acts): Ghost<Seq<(u32, ActionData)>>, pn: i32, t: u32) -> (r: (i64, i64, i64, i64))
    requires
        events_match(evs@, acts),
        acts.len() < 0x4000_0000_0000,
    ensures
        r.0 == composition(acts, pn, t).0,
        r.1 == composition(acts, pn, t).1,
        r.2 == composition(acts, pn, t).2,
        r.3 == composition(acts, pn, t).3,
{
    let mut vils: i64 = 0;
    let mut mil: i64 = 0;
    let mut nb: i64 = 0;
    let mut nr: i64 = 0;
    let mut i: usize = 0;
    while i < evs.len()
        invariant
            i <= evs@.len(),
            events_match(evs@, acts),
            acts.len() < 0x4000_0000_0000,
            vils == composition(acts.subrange(0, i as int), pn, t).0,
            mil == composition(acts.subrange(0, i as int), pn, t).1,
            nb == composition(acts.subrange(0, i as int), pn, t).2,
            nr == composition(acts.subrange(0, i as int), pn, t).3,
        decreases evs@.len() - i,
    {
        let ghost pre = acts.subrange(0, i as int);
        let ghost cur = acts.subrange(0, i + 1);
        assert(cur.drop_last() == pre);
        assert(cur.last() == acts[i as int]);
        proof {
            lemma_composition_bounds(cur, pn, t);
            lemma_composition_bounds(pre, pn, t);
            lemma_decoded_amount(acts[i as int].1);
        }
        let e = &evs[i];
        if e.player_number == pn && e.t_ms <= t {
            if crate::text::str_eq(e.kind.as_str(), "train") {
                let tid: i64 = match e.target_id {
                    Some(x) => x,
                    None => -1,
                };
                let amt: i64 = match e.amount {
                    Some(x) => if x >= 1 {
                        x
                    } else {
                        1
                    },
                    None => 1,
                };
                if 0 <= tid && tid <= 65535 {
                    let u: u16 = tid as u16;
                    if crate::replay::config::is_eco_unit(u) {
                        if tid == 83 {
                            vils = vils + amt;
                        }
                    } else {
                        mil = mil + amt;
                    }
                } else {
                    mil = mil + amt;
                }
            } else if crate::text::str_eq(e.kind.as_str(), "build") {
                nb = nb + 1;
            } else if crate::text::str_eq(e.kind.as_str(), "research") {
                nr = nr + 1;
            }
        }
        i = i + 1;
    }
    assert(acts.subrange(0, evs@.len() as int) == acts);
    (vils, mil, nb, nr)
}


/// The four tables of one decoded replay. `match_id` comes from the caller (a replay's own
/// bytes never encode it). The players are the header's real players in slot order;
/// every action of the stream becomes an event, in order; a player's age is reached at
/// their first research of its age-up tech, and its row counts what they had queued,
/// placed and researched up to then. The winner is known when someone resigned and not
/// everyone did; then exactly the non-resigners won.
pub fn extract_from(match_id: i64, header: &ReplayHeader, ops: &[Operation]) -> (r: Extracted)
    requires
        ops@.len() < 0x4000_0000_0000,
        ops_in_range(ops@),
    ensures
        ({
            let ps = real_players(header.players@);
            let acts = actions(ops@);
            let n = ps.len();
            let elo = elo_merge(Map::empty(), elo_entries(ops@));
            &&& r.meta == (MetaRow {
                match_id,
                build: Some(header.build),
                version_major: Some(header.version_major),
                map_id: Some(header.resolved_map_id),
                duration_ms: max_time(acts),
                n_players: n as usize,
            })
            &&& r.players@.len() == n
            &&& forall|i: int|
                0 <= i < n ==> (#[trigger] r.players@[i])@ == player_row(
                    match_id,
                    acts,
                    n,
                    elo,
                    ps[i],
                )
            &&& r.events@.len() == acts.len()
            &&& forall|i: int|
                0 <= i < acts.len() ==> (#[trigger] r.events@[i])@ == event_of(
                    match_id,
                    ps,
                    acts[i],
                )
            &&& r.ages@.map_values(|a: AgeRow| a@) == age_rows(match_id, acts, n, ps)
        }),
{
    let players = players_of(header.players.as_slice());
    let ghost ps = players@;
    let mut events: Vec<EventRow> = Vec::new();
    let mut resigned: Vec<i32> = Vec::new();
    let mut last_t: u32 = 0;
    let mut elo = EloTable::new();
    let mut k: usize = 0;
    while k < ops.len()
        invariant
            k <= ops@.len(),
            ops_in_range(ops@),
            ps == players@,
            ({
                let acts = actions(ops@.subrange(0, k as int));
                &&& events_match(events@, acts)
                &&& forall|i: int|
                    0 <= i < acts.len() ==> (#[trigger] events@[i])@ == event_of(
                        match_id,
                        ps,
                        acts[i],
                    )
                &&& resigned@ == resigners(acts)
                &&& last_t == max_time(acts)
            }),
            elo@ == elo_merge(Map::empty(), elo_entries(ops@.subrange(0, k as int))),
        decreases ops@.len() - k,
    {
        let ghost pre = ops@.subrange(0, k as int);
        let ghost cur = ops@.subrange(0, k + 1);
        assert(cur.drop_last() == pre);
        assert(cur.last() == ops@[k as int]);
        match &ops[k] {
            Operation::Action { world_time, action_data } => {
                let ghost acts_pre = actions(pre);
                let wt = *world_time;
                if wt > last_t {
                    last_t = wt;
                }
                let d = classify(action_data);
                let profile_id = profile_of(&players, d.player_number);
                if crate::text::str_eq(d.kind.as_str(), "resign") {
                    if !contains_i32(&resigned, d.player_number) {
                        resigned.push(d.player_number);
                    }
                }
                let ev = EventRow {
                    match_id,
                    profile_id,
                    player_number: d.player_number,
                    t_ms: wt,
                    kind: d.kind,
                    target_id: d.target_id,
                    amount: d.amount,
                    detail: d.detail,
                };
                events.push(ev);
                proof {
                    let acts = actions(cur);
                    assert(acts == acts_pre.push((wt, *action_data)));
                    assert(acts.drop_last() == acts_pre);
                    assert forall|i: int|
                        0 <= i < acts.len() implies (#[trigger] events@[i])@ == event_of(
                        match_id,
                        ps,
                        acts[i],
                    ) by {
                        if i < acts_pre.len() {
                            assert(acts[i] == acts_pre[i]);
                        }
                    }
                    assert(elo_entries(cur) == elo_entries(pre) + Seq::<(u32, i32, i32)>::empty());
                    assert(elo_entries(pre) + Seq::<(u32, i32, i32)>::empty() == elo_entries(pre));
                }
            },
            Operation::PostGame { blocks } => {
                proof {
                    assert(ops@[k as int] is PostGame);
                }
                collect_leaderboard_elo(blocks.as_slice(), &mut elo);
                proof {
                    assert(actions(cur) == actions(pre));
                    crate::replay::postgame::lemma_elo_merge_append(
                        Map::empty(),
                        elo_entries(pre),
                        blocks_entries(blocks@),
                    );
                }
            },
            Operation::Other => {
                proof {
                    assert(actions(cur) == actions(pre));
                    assert(elo_entries(cur) == elo_entries(pre) + Seq::<(u32, i32, i32)>::empty());
                    assert(elo_entries(pre) + Seq::<(u32, i32, i32)>::empty() == elo_entries(pre));
                }
            },
        }
        k = k + 1;
    }
    assert(ops@.subrange(0, ops@.len() as int) == ops@);
    let ghost acts = actions(ops@);
    proof {
        lemma_actions_len(ops@);
    }
    let n_players = players.len();
    let bound: usize = if n_players > 1 {
        n_players
    } else {
        1
    };
    let winner_known = resigned.len() > 0 && resigned.len() < bound;
    assert(winner_known == crate::replay::extract::winner_known(acts, n_players as nat));
    // ages: cumulative composition up to each reached age boundary
    let mut ages: Vec<AgeRow> = Vec::new();
    let mut pi: usize = 0;
    while pi < players.len()
        invariant
            pi <= players@.len(),
            ps == players@,
            n_players == players@.len(),
            acts == actions(ops@),
            acts.len() < 0x4000_0000_0000,
            events_match(events@, acts),
            resigned@ == resigners(acts),
            winner_known == crate::replay::extract::winner_known(acts, n_players as nat),
            ages@.map_values(|a: AgeRow| a@) == age_rows(
                match_id,
                acts,
                n_players as nat,
                ps.subrange(0, pi as int),
            ),
        decreases players@.len() - pi,
    {
        let pn = players[pi].0;
        let p = &players[pi].1;
        let won: Option<bool> = if winner_known {
            Some(!contains_i32(&resigned, pn))
        } else {
            None
        };
        let ghost before = ages@.map_values(|a: AgeRow| a@);
        let mut a: usize = 0;
        while a < 3
            invariant
                a <= 3,
                pi < players@.len(),
                pn == players@[pi as int].0,
                *p == players@[pi as int].1,
                ps == players@,
                n_players == players@.len(),
                acts.len() < 0x4000_0000_0000,
                events_match(events@, acts),
                won == won_of(acts, n_players as nat, pn),
                ages@.map_values(|a: AgeRow| a@) == before + (if a >= 1 {
                    age_row(match_id, acts, n_players as nat, pn, *p, 0)
                } else {
                    Seq::empty()
                }) + (if a >= 2 {
                    age_row(match_id, acts, n_players as nat, pn, *p, 1)
                } else {
                    Seq::empty()
                }) + (if a >= 3 {
                    age_row(match_id, acts, n_players as nat, pn, *p, 2)
                } else {
                    Seq::empty()
                }),
            decreases 3 - a,
        {
            let tid: i64 = 101 + a as i64;
            let ghost old_ages = ages@.map_values(|a: AgeRow| a@);
            match first_research_time(&events, Ghost(acts), pn, tid) {
                None => {
                    assert(age_row(match_id, acts, n_players as nat, pn, *p, a as int)
                        == Seq::<(i64, i32, u32, Option<bool>, Seq<char>, u32, i64, i64, i64, i64)>::empty());
                },
                Some(t) => {
                    let c = composition_at(&events, Ghost(acts), pn, t);
                    let age: &str = if a == 0 {
                        "feudal"
                    } else if a == 1 {
                        "castle"
                    } else {
                        "imperial"
                    };
                    let row = AgeRow {
                        match_id,
                        profile_id: p.profile_id,
                        civ_id: p.civ_id,
                        won,
                        age: age.to_string(),
                        uptime_ms: t,
                        villagers: c.0,
                        military: c.1,
                        n_buildings: c.2,
                        n_research: c.3,
                    };
                    ages.push(row);
                    assert(ages@.map_values(|a: AgeRow| a@) == old_ages.push(row@));
                    assert(age_row(match_id, acts, n_players as nat, pn, *p, a as int) == seq![row@]);
                },
            }
            a = a + 1;
        }
        proof {
            let cur = ps.subrange(0, pi + 1);
            assert(cur.drop_last() == ps.subrange(0, pi as int));
            assert(cur.last() == (pn, *p));
        }
        pi = pi + 1;
    }
    assert(ps.subrange(0, players@.len() as int) == ps);
    // player rows
    let mut rows: Vec<PlayerRow> = Vec::new();
    let mut pi: usize = 0;
    while pi < players.len()
        invariant
            pi <= players@.len(),
            ps == players@,
            n_players == players@.len(),
            acts == actions(ops@),
            resigned@ == resigners(acts),
            winner_known == crate::replay::extract::winner_known(acts, n_players as nat),
            elo@ == elo_merge(Map::empty(), elo_entries(ops@)),
            rows@.len() == pi,
            forall|i: int|
                0 <= i < pi ==> (#[trigger] rows@[i])@ == player_row(
                    match_id,
                    acts,
                    n_players as nat,
                    elo@,
                    ps[i],
                ),
        decreases players@.len() - pi,
    {
        let pn = players[pi].0;
        let p = &players[pi].1;
        let won: Option<bool> = if winner_known {
            Some(!contains_i32(&resigned, pn))
        } else {
            None
        };
        let e = match elo.elo(pn, 3) {
            Some(x) => Some(x),
            None => elo.elo(pn, 4),
        };
        let row = PlayerRow {
            match_id,
            player_number: pn,
            profile_id: p.profile_id,
            civ_id: p.civ_id,
            name: p.name.clone(),
            team: p.resolved_team_id,
            color: p.color_id,
            won,
            elo: e,
        };
        rows.push(row);
        pi = pi + 1;
    }
    let meta = MetaRow {
        match_id,
        build: Some(header.build),
        version_major: Some(header.version_major),
        map_id: Some(header.resolved_map_id),
        duration_ms: last_t,
        n_players,
    };
    Extracted { meta, players: rows, events, ages }
}

proof fn lemma_actions_len(ops: Seq<Operation>)
    ensures
        actions(ops).len() <= ops.len(),
    decreases ops.len(),
{
    if ops.len() > 0 {
        lemma_actions_len(ops.drop_last());
    }
}

} // verus!
