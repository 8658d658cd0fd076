//! From a decoded replay to the analyzer's inputs: the normalized event stream, the
//! per-game meta, the real players with the team-aware result, the post-game ELO, and
//! per-player command counts (total, per minute, and eco/military).
use std::collections::HashMap;

use vstd::prelude::*;

use crate::replay::analyze::metrics::{classify_cmd, cmd_class, Ev, EvKind};
use crate::replay::analyze::model::{GameMeta, PlayerInfo};
use crate::replay::extract::{build_id_of, le_i32, ActionData, HeaderPlayer, Operation, ops_in_range, elo_entries, Savegame};
use crate::replay::postgame::{collect_leaderboard_elo, elo_merge, lemma_elo_merge_append, EloTable};

verus! {

broadcast use vstd::std_specs::hash::group_hash_axioms;

// --- one action -----------------------------------------------------------------------

/// The value of four little-endian bytes as a `u32`.
pub open spec fn le_u32(b0: u8, b1: u8, b2: u8, b3: u8) -> u32 {
    (b0 + b1 * 0x100 + b2 * 0x1_0000 + b3 * 0x100_0000) as u32
}

/// A build record's `(building id, x bits, y bits)`: the id is the little-endian `i32` at
/// bytes 12..16, the coordinates the `f32` bit patterns at 4..8 and 8..12; `None` for a
/// record shorter than 16 bytes.
pub open spec fn build_of(d: Seq<u8>) -> Option<(i64, u32, u32)> {
    if d.len() < 16 {
        None
    } else {
        Some(
            (
                le_i32(d[12], d[13], d[14], d[15]) as i64,
                le_u32(d[4], d[5], d[6], d[7]),
                le_u32(d[8], d[9], d[10], d[11]),
            ),
        )
    }
}

fn le_u32_at(d: &[u8], i: usize) -> (r: u32)
    requires
        i + 4 <= d@.len(),
    ensures
        r == le_u32(d@[i as int], d@[i + 1], d@[i + 2], d@[i + 3]),
{
    d[i] as u32 + (d[i + 1] as u32) * 0x100 + (d[i + 2] as u32) * 0x1_0000 + (d[i + 3] as u32)
        * 0x100_0000
}

/// Decodes a build record's building id and position.
pub fn decode_build(d: &[u8]) -> (r: Option<(i64, u32, u32)>)
    ensures
        r == build_of(d@),
{
    if d.len() < 16 {
        return None;
    }
    let x = le_u32_at(d, 4);
    let y = le_u32_at(d, 8);
    let u = le_u32_at(d, 12);
    let id: i32 = u as i32;
    Some((id as i64, x, y))
}

/// The signed value of four little-endian bytes, read as a 32-bit two's-complement integer.
proof fn lemma_le_i32_value(b0: u8, b1: u8, b2: u8, b3: u8)
    ensures
        le_i32(b0, b1, b2, b3) as int == if b0 + b1 * 256 + b2 * 65536 + b3 * 16777216
            < 0x8000_0000 {
            b0 + b1 * 256 + b2 * 65536 + b3 * 16777216
        } else {
            b0 + b1 * 256 + b2 * 65536 + b3 * 16777216 - 0x1_0000_0000
        },
{
    assert((((b0 + b1 * 0x100 + b2 * 0x1_0000 + b3 * 0x100_0000) as i32) as int) == if b0 + b1
        * 256 + b2 * 65536 + b3 * 16777216 < 0x8000_0000 {
        b0 + b1 * 256 + b2 * 65536 + b3 * 16777216
    } else {
        b0 + b1 * 256 + b2 * 65536 + b3 * 16777216 - 0x1_0000_0000
    }) by (bit_vector);
}

/// The building id that an action row carries for a build record is the little-endian
/// two's-complement `i32` at bytes 12..16 of the record — the id that `build_of` reports
/// beside the position; a record shorter than 16 bytes has neither.
pub proof fn lemma_build_id_at_12(d: Seq<u8>)
    ensures
        d.len() < 16 ==> build_id_of(d) is None && build_of(d) is None,
        d.len() >= 16 ==> build_of(d) is Some && build_id_of(d) == Some(build_of(d).unwrap().0),
        d.len() >= 16 ==> build_id_of(d) is Some && build_id_of(d)->0 == if d[12] + d[13] * 256
            + d[14] * 65536 + d[15] * 16777216 < 0x8000_0000 {
            d[12] + d[13] * 256 + d[14] * 65536 + d[15] * 16777216
        } else {
            d[12] + d[13] * 256 + d[14] * 65536 + d[15] * 16777216 - 0x1_0000_0000
        },
{
    if d.len() >= 16 {
        lemma_le_i32_value(d[12], d[13], d[14], d[15]);
    }
}

/// The acting player of an action: its `player_id` (0 for a long-tail action that has
/// none).
pub open spec fn pid_of(a: ActionData) -> i32 {
    match a {
        ActionData::DeQueue { player_id, .. } => player_id as i32,
        ActionData::Research { player_id, .. } => player_id as i32,
        ActionData::Build { player_id, .. } => player_id as i32,
        ActionData::Game { player_id, .. } => player_id as i32,
        ActionData::Order { player_id, .. } => player_id as i32,
        ActionData::Resign { player_id } => player_id as i32,
        ActionData::Move { player_id, .. } => player_id as i32,
        ActionData::Interact { player_id, .. } => player_id as i32,
        ActionData::Buy { player_id } => player_id as i32,
        ActionData::Sell { player_id } => player_id as i32,
        ActionData::Other { player_id, .. } => match player_id {
            Some(p) => p as i32,
            None => 0i32,
        },
    }
}

/// The acting player of an action.
pub fn pid(ad: &ActionData) -> (r: i32)
    ensures
        r == pid_of(*ad),
{
    match ad {
        ActionData::DeQueue { player_id, .. } => *player_id as i32,
        ActionData::Research { player_id, .. } => *player_id as i32,
        ActionData::Build { player_id, .. } => *player_id as i32,
        ActionData::Game { player_id, .. } => *player_id as i32,
        ActionData::Order { player_id, .. } => *player_id as i32,
        ActionData::Resign { player_id } => *player_id as i32,
        ActionData::Move { player_id, .. } => *player_id as i32,
        ActionData::Interact { player_id, .. } => *player_id as i32,
        ActionData::Buy { player_id } => *player_id as i32,
        ActionData::Sell { player_id } => *player_id as i32,
        ActionData::Other { player_id, .. } => match player_id {
            Some(p) => *p as i32,
            None => 0,
        },
    }
}

/// The normalized kind of one command.
pub open spec fn kind_of(a: ActionData) -> EvKind {
    match a {
        ActionData::DeQueue { unit_id, .. } => EvKind::Train(unit_id),
        ActionData::Research { technology_type, .. } => EvKind::Research(technology_type),
        ActionData::Build { data, .. } => match build_of(data@) {
            Some((id, x, y)) => EvKind::Build { id, x_bits: x, y_bits: y },
            None => EvKind::Other,
        },
        ActionData::Move { x_bits, y_bits, .. } => EvKind::Move { x_bits, y_bits },
        ActionData::Interact { x_bits, y_bits, .. } => EvKind::Interact { x_bits, y_bits },
        ActionData::Buy { .. } => EvKind::MarketBuy,
        ActionData::Sell { .. } => EvKind::MarketSell,
        _ => EvKind::Other,
    }
}

fn kind(ad: &ActionData) -> (r: EvKind)
    ensures
        r == kind_of(*ad),
{
    match ad {
        ActionData::DeQueue { unit_id, .. } => EvKind::Train(*unit_id),
        ActionData::Research { technology_type, .. } => EvKind::Research(*technology_type),
        ActionData::Build { data, .. } => match decode_build(data.as_slice()) {
            Some((id, x, y)) => EvKind::Build { id, x_bits: x, y_bits: y },
            None => EvKind::Other,
        },
        ActionData::Move { x_bits, y_bits, .. } => EvKind::Move { x_bits: *x_bits, y_bits: *y_bits },
        ActionData::Interact { x_bits, y_bits, .. } => EvKind::Interact {
            x_bits: *x_bits,
            y_bits: *y_bits,
        },
        ActionData::Buy { .. } => EvKind::MarketBuy,
        ActionData::Sell { .. } => EvKind::MarketSell,
        _ => EvKind::Other,
    }
}

/// How many events one command becomes: a queue of `amount` units is `amount` train
/// events, clamped to 1..=60 (a corrupt record can carry a huge amount); any other
/// command is one event.
pub open spec fn copies_of(a: ActionData) -> nat {
    match a {
        ActionData::DeQueue { amount, .. } => if amount < 1 {
            1
        } else if amount > 60 {
            60
        } else {
            amount as nat
        },
        _ => 1,
    }
}

// --- the whole stream -----------------------------------------------------------------

/// The normalized event stream: every command, in order, as `copies_of` events of its
/// player, time and kind.
pub open spec fn walk_evs(ops: Seq<Operation>) -> Seq<Ev>
    decreases ops.len(),
{
    if ops.len() == 0 {
        Seq::empty()
    } else {
        let prev = walk_evs(ops.drop_last());
        match ops.last() {
            Operation::Action { world_time, action_data } => prev + Seq::new(
                copies_of(action_data),
                |i: int| Ev { player: pid_of(action_data), t_ms: world_time, kind: kind_of(action_data) },
            ),
            _ => prev,
        }
    }
}

/// The number of commands `(world time, action)` of the stream satisfying `p`.
pub open spec fn count_cmds(ops: Seq<Operation>, p: spec_fn(u32, ActionData) -> bool) -> nat
    decreases ops.len(),
{
    if ops.len() == 0 {
        0
    } else {
        count_cmds(ops.drop_last(), p) + match ops.last() {
            Operation::Action { world_time, action_data } => if p(world_time, action_data) {
                1nat
            } else {
                0nat
            },
            _ => 0nat,
        }
    }
}

/// A command of player `pl`.
pub open spec fn by_player(pl: i32) -> spec_fn(u32, ActionData) -> bool {
    |t: u32, a: ActionData| pid_of(a) == pl
}

/// A command of player `pl` in minute `m` since the start.
pub open spec fn in_minute(pl: i32, m: int) -> spec_fn(u32, ActionData) -> bool {
    |t: u32, a: ActionData| pid_of(a) == pl && t / 60_000 == m
}

/// A command of player `pl` classed as eco (`eco`) or military (`!eco`).
pub open spec fn classed(pl: i32, eco: bool) -> spec_fn(u32, ActionData) -> bool {
    |t: u32, a: ActionData| pid_of(a) == pl && cmd_class(kind_of(a)) == Some(eco)
}

/// One past the latest minute of a command of `pl` (0 when it has none).
pub open spec fn minutes_of(ops: Seq<Operation>, pl: i32) -> nat
    decreases ops.len(),
{
    if ops.len() == 0 {
        0
    } else {
        let prev = minutes_of(ops.drop_last(), pl);
        match ops.last() {
            Operation::Action { world_time, action_data } => if pid_of(action_data) == pl
                && world_time / 60_000 + 1 > prev {
                (world_time / 60_000 + 1) as nat
            } else {
                prev
            },
            _ => prev,
        }
    }
}

proof fn lemma_count_le(ops: Seq<Operation>, p: spec_fn(u32, ActionData) -> bool)
    ensures
        count_cmds(ops, p) <= ops.len(),
    decreases ops.len(),
{
    if ops.len() > 0 {
        lemma_count_le(ops.drop_last(), p);
    }
}

proof fn lemma_minutes_bound(ops: Seq<Operation>, pl: i32, m: int)
    requires
        m >= minutes_of(ops, pl),
    ensures
        count_cmds(ops, in_minute(pl, m)) == 0,
    decreases ops.len(),
{
    if ops.len() > 0 {
        lemma_minutes_bound(ops.drop_last(), pl, m);
    }
}

/// One more build command by player `p` adds one to `p`'s military command count when it
/// places a military building (12, 87, 101, 49, 82, 79), one to its eco count when it
/// places an economy building (70, 68, 50, 562, 584, 45, 84, 199, 109, 621), and leaves
/// both unchanged otherwise; no other player's counts move.
pub proof fn lemma_build_adds_to_split(ops: Seq<Operation>, t: u32, p: u8, data: Vec<u8>, pl: i32)
    ensures
        ({
            let cur = ops.push(
                Operation::Action { world_time: t, action_data: ActionData::Build { player_id: p, data } },
            );
            let mil = build_of(data@) matches Some((id, _, _)) && (id == 12 || id == 87 || id == 101
                || id == 49 || id == 82 || id == 79);
            let eco = build_of(data@) matches Some((id, _, _)) && (id == 70 || id == 68 || id == 50
                || id == 562 || id == 584 || id == 45 || id == 84 || id == 199 || id == 109
                || id == 621);
            &&& count_cmds(cur, classed(pl, false)) == count_cmds(ops, classed(pl, false)) + if pl
                == p as i32 && mil {
                1int
            } else {
                0int
            }
            &&& count_cmds(cur, classed(pl, true)) == count_cmds(ops, classed(pl, true)) + if pl
                == p as i32 && eco {
                1int
            } else {
                0int
            }
        }),
{
    let cur = ops.push(
        Operation::Action { world_time: t, action_data: ActionData::Build { player_id: p, data } },
    );
    assert(cur.drop_last() =~= ops);
    match build_of(data@) {
        Some((id, x, y)) => {
            crate::replay::analyze::metrics::lemma_build_classes(id, x, y);
        },
        None => {},
    }
}

proof fn lemma_minutes_zero(ops: Seq<Operation>, pl: i32)
    ensures
        count_cmds(ops, by_player(pl)) == 0 <==> minutes_of(ops, pl) == 0,
    decreases ops.len(),
{
    if ops.len() > 0 {
        lemma_minutes_zero(ops.drop_last(), pl);
    }
}

// --- the players and the result --------------------------------------------------------

/// The real player slots (civ other than 0), in header order.
pub open spec fn real_slots(hp: Seq<HeaderPlayer>) -> Seq<HeaderPlayer>
    decreases hp.len(),
{
    if hp.len() == 0 {
        Seq::empty()
    } else if hp.last().civ_id == 0 {
        real_slots(hp.drop_last())
    } else {
        real_slots(hp.drop_last()).push(hp.last())
    }
}

/// The distinct teams of the slots, in order of first appearance.
pub open spec fn teams_of(ps: Seq<HeaderPlayer>) -> Seq<u8>
    decreases ps.len(),
{
    if ps.len() == 0 {
        Seq::empty()
    } else {
        let prev = teams_of(ps.drop_last());
        if prev.contains(ps.last().resolved_team_id) {
            prev
        } else {
            prev.push(ps.last().resolved_team_id)
        }
    }
}

/// Whether a member of team `t` among the slots resigned.
pub open spec fn team_resigned(ps: Seq<HeaderPlayer>, resigned: Seq<i32>, t: u8) -> bool {
    exists|i: int|
        0 <= i < ps.len() && (#[trigger] ps[i]).resolved_team_id == t && resigned.contains(
            ps[i].player_number,
        )
}

/// The teams of `teams` none of whose members resigned, in order.
pub open spec fn unresigned(teams: Seq<u8>, ps: Seq<HeaderPlayer>, resigned: Seq<i32>) -> Seq<u8>
    decreases teams.len(),
{
    if teams.len() == 0 {
        Seq::empty()
    } else {
        let prev = unresigned(teams.drop_last(), ps, resigned);
        if team_resigned(ps, resigned, teams.last()) {
            prev
        } else {
            prev.push(teams.last())
        }
    }
}

/// The winning team: the one team without a resignation, when someone resigned and
/// there are at least two teams; undecided otherwise (nobody resigned, one team, or
/// several teams without a resignation).
pub open spec fn winning_team(hp: Seq<HeaderPlayer>, resigned: Seq<i32>) -> Option<u8> {
    let ps = real_slots(hp);
    let teams = teams_of(ps);
    let zero = unresigned(teams, ps, resigned);
    if resigned.len() > 0 && teams.len() >= 2 && zero.len() == 1 {
        Some(zero[0])
    } else {
        None
    }
}

/// Whether `info` describes slot `h` under winning team `w`.
pub open spec fn info_of(info: PlayerInfo, h: HeaderPlayer, w: Option<u8>) -> bool {
    &&& info.player_number == h.player_number
    &&& info.profile_id == h.profile_id as i64
    &&& info.civ_id == h.civ_id
    &&& info.name@ == h.name@
    &&& info.color_id == h.color_id
    &&& info.team_id == h.resolved_team_id
    &&& info.won == match w {
        Some(t) => Some(h.resolved_team_id == t),
        None => None,
    }
}

fn real_slots_of(hp: &Vec<HeaderPlayer>) -> (r: Vec<HeaderPlayer>)
    ensures
        r@.len() == real_slots(hp@).len(),
        forall|i: int| 0 <= i < r@.len() ==> {
            let (a, b) = (#[trigger] r@[i], real_slots(hp@)[i]);
            &&& a.player_number == b.player_number
            &&& a.profile_id == b.profile_id
            &&& a.civ_id == b.civ_id
            &&& a.name@ == b.name@
            &&& a.resolved_team_id == b.resolved_team_id
            &&& a.color_id == b.color_id
        },
{
    let mut out: Vec<HeaderPlayer> = Vec::new();
    let mut i: usize = 0;
    while i < hp.len()
        invariant
            i <= hp@.len(),
            out@.len() == real_slots(hp@.subrange(0, i as int)).len(),
            forall|j: int| 0 <= j < out@.len() ==> {
                let (a, b) = (#[trigger] out@[j], real_slots(hp@.subrange(0, i as int))[j]);
                &&& a.player_number == b.player_number
                &&& a.profile_id == b.profile_id
                &&& a.civ_id == b.civ_id
                &&& a.name@ == b.name@
                &&& a.resolved_team_id == b.resolved_team_id
                &&& a.color_id == b.color_id
            },
        decreases hp@.len() - i,
    {
        assert(hp@.subrange(0, i + 1).drop_last() == hp@.subrange(0, i as int));
        let h = &hp[i];
        if h.civ_id != 0 {
            let c = HeaderPlayer {
                player_number: h.player_number,
                profile_id: h.profile_id,
                civ_id: h.civ_id,
                name: h.name.clone(),
                resolved_team_id: h.resolved_team_id,
                color_id: h.color_id,
            };
            out.push(c);
        }
        i = i + 1;
    }
    assert(hp@.subrange(0, hp@.len() as int) == hp@);
    out
}

/// The slots' properties that decide the result.
pub open spec fn slot_keys(ps: Seq<HeaderPlayer>) -> Seq<(i32, u8)> {
    ps.map_values(|h: HeaderPlayer| (h.player_number, h.resolved_team_id))
}

proof fn lemma_teams_keys(a: Seq<HeaderPlayer>, b: Seq<HeaderPlayer>)
    requires
        slot_keys(a) == slot_keys(b),
    ensures
        teams_of(a) == teams_of(b),
        forall|t: u8, resigned: Seq<i32>| team_resigned(a, resigned, t) == team_resigned(b, resigned, t),
    decreases a.len(),
{
    assert(a.len() == slot_keys(a).len());
    assert(b.len() == slot_keys(b).len());
    assert forall|i: int| 0 <= i < a.len() implies a[i].player_number == b[i].player_number
        && a[i].resolved_team_id == b[i].resolved_team_id by {
        assert(slot_keys(a)[i] == slot_keys(b)[i]);
    }
    if a.len() > 0 {
        assert(slot_keys(a.drop_last()) == slot_keys(b.drop_last()));
        lemma_teams_keys(a.drop_last(), b.drop_last());
    }
    assert forall|t: u8, resigned: Seq<i32>| team_resigned(a, resigned, t) implies team_resigned(b, resigned, t) by {
        let i = choose|i: int| 0 <= i < a.len() && (#[trigger] a[i]).resolved_team_id == t && resigned.contains(a[i].player_number);
        assert(b[i].resolved_team_id == t);
    }
    assert forall|t: u8, resigned: Seq<i32>| team_resigned(b, resigned, t) implies team_resigned(a, resigned, t) by {
        let i = choose|i: int| 0 <= i < b.len() && (#[trigger] b[i]).resolved_team_id == t && resigned.contains(b[i].player_number);
        assert(a[i].resolved_team_id == t);
    }
}

fn contains_i32(v: &[i32], x: i32) -> (r: bool)
    ensures
        r == v@.contains(x),
{
    let mut i: usize = 0;
    while i < v.len()
        invariant
            i <= v@.len(),
            forall|j: int| 0 <= j < i ==> v@[j] != x,
        decreases v@.len() - i,
    {
        if v[i] == x {
            return true;
        }
        i = i + 1;
    }
    false
}

fn distinct_teams(ps: &Vec<HeaderPlayer>) -> (r: Vec<u8>)
    ensures
        r@ == teams_of(ps@),
{
    let mut out: Vec<u8> = Vec::new();
    let mut i: usize = 0;
    while i < ps.len()
        invariant
            i <= ps@.len(),
            out@ == teams_of(ps@.subrange(0, i as int)),
        decreases ps@.len() - i,
    {
        assert(ps@.subrange(0, i + 1).drop_last() == ps@.subrange(0, i as int));
        let t = ps[i].resolved_team_id;
        let mut seen = false;
        let mut k: usize = 0;
        while k < out.len()
            invariant
                k <= out@.len(),
                seen == exists|a: int| 0 <= a < k && out@[a] == t,
            decreases out@.len() - k,
        {
            if out[k] == t {
                seen = true;
            }
            k = k + 1;
        }
        if !seen {
            out.push(t);
        }
        i = i + 1;
    }
    assert(ps@.subrange(0, ps@.len() as int) == ps@);
    out
}

fn resigned_team(ps: &Vec<HeaderPlayer>, resigned: &[i32], t: u8) -> (r: bool)
    ensures
        r == team_resigned(ps@, resigned@, t),
{
    let mut i: usize = 0;
    while i < ps.len()
        invariant
            i <= ps@.len(),
            forall|j: int|
                0 <= j < i ==> !((#[trigger] ps@[j]).resolved_team_id == t && resigned@.contains(
                    ps@[j].player_number,
                )),
        decreases ps@.len() - i,
    {
        if ps[i].resolved_team_id == t && contains_i32(resigned, ps[i].player_number) {
            return true;
        }
        i = i + 1;
    }
    false
}

/// Decides the winning team (see [`winning_team`]).
pub fn decide_winner(header_players: &Vec<HeaderPlayer>, resigned: &[i32]) -> (r: Option<u8>)
    ensures
        r == winning_team(header_players@, resigned@),
{
    let ps = real_slots_of(header_players);
    proof {
        assert(slot_keys(ps@) =~= slot_keys(real_slots(header_players@)));
        lemma_teams_keys(ps@, real_slots(header_players@));
    }
    let teams = distinct_teams(&ps);
    let mut zero: Vec<u8> = Vec::new();
    let mut i: usize = 0;
    while i < teams.len()
        invariant
            i <= teams@.len(),
            zero@ == unresigned(teams@.subrange(0, i as int), ps@, resigned@),
        decreases teams@.len() - i,
    {
        assert(teams@.subrange(0, i + 1).drop_last() == teams@.subrange(0, i as int));
        if !resigned_team(&ps, resigned, teams[i]) {
            zero.push(teams[i]);
        }
        i = i + 1;
    }
    assert(teams@.subrange(0, teams@.len() as int) == teams@);
    proof {
        lemma_unresigned_same(teams@, ps@, real_slots(header_players@), resigned@);
    }
    if resigned.len() > 0 && teams.len() >= 2 && zero.len() == 1 {
        Some(zero[0])
    } else {
        None
    }
}

proof fn lemma_unresigned_same(teams: Seq<u8>, a: Seq<HeaderPlayer>, b: Seq<HeaderPlayer>, resigned: Seq<i32>)
    requires
        forall|t: u8| team_resigned(a, resigned, t) == team_resigned(b, resigned, t),
    ensures
        unresigned(teams, a, resigned) == unresigned(teams, b, resigned),
    decreases teams.len(),
{
    if teams.len() > 0 {
        lemma_unresigned_same(teams.drop_last(), a, b, resigned);
        assert(team_resigned(a, resigned, teams.last()) == team_resigned(b, resigned, teams.last()));
    }
}

fn player_infos(hp: &Vec<HeaderPlayer>, w: Option<u8>) -> (r: Vec<PlayerInfo>)
    ensures
        r@.len() == real_slots(hp@).len(),
        forall|i: int| 0 <= i < r@.len() ==> info_of(#[trigger] r@[i], real_slots(hp@)[i], w),
{
    let mut out: Vec<PlayerInfo> = Vec::new();
    let mut i: usize = 0;
    while i < hp.len()
        invariant
            i <= hp@.len(),
            out@.len() == real_slots(hp@.subrange(0, i as int)).len(),
            forall|j: int|
                0 <= j < out@.len() ==> info_of(
                    #[trigger] out@[j],
                    real_slots(hp@.subrange(0, i as int))[j],
                    w,
                ),
        decreases hp@.len() - i,
    {
        assert(hp@.subrange(0, i + 1).drop_last() == hp@.subrange(0, i as int));
        let h = &hp[i];
        if h.civ_id != 0 {
            let won = match w {
                Some(t) => Some(h.resolved_team_id == t),
                None => None,
            };
            out.push(
                PlayerInfo {
                    player_number: h.player_number,
                    profile_id: h.profile_id as i64,
                    civ_id: h.civ_id,
                    name: h.name.clone(),
                    color_id: h.color_id,
                    team_id: h.resolved_team_id,
                    won,
                },
            );
        }
        i = i + 1;
    }
    assert(hp@.subrange(0, hp@.len() as int) == hp@);
    out
}

// --- the per-player counters -----------------------------------------------------------

/// Whether `m` holds, for every player with a command in `ops`, its command count.
pub open spec fn counts_match(m: Map<i32, u32>, ops: Seq<Operation>) -> bool {
    forall|pl: i32|
        #![trigger m.contains_key(pl)]
        #![trigger count_cmds(ops, by_player(pl))]
        (m.contains_key(pl) <==> count_cmds(ops, by_player(pl)) > 0) && (m.contains_key(pl) ==> m[pl]
            == count_cmds(ops, by_player(pl)))
}

/// Whether `m` holds, for every player with a command in `ops`, its per-minute command
/// counts over `0..minutes_of(ops, pl)`.
pub open spec fn series_match(m: Map<i32, Vec<u32>>, ops: Seq<Operation>) -> bool {
    &&& forall|pl: i32|
        #![trigger m.contains_key(pl)]
        #![trigger count_cmds(ops, by_player(pl))]
        m.contains_key(pl) <==> count_cmds(ops, by_player(pl)) > 0
    &&& forall|pl: i32| #[trigger] m.contains_key(pl) ==> m[pl]@.len() == minutes_of(ops, pl)
    &&& forall|pl: i32, k: int|
        #[trigger] m.contains_key(pl) && 0 <= k < m[pl]@.len() ==> #[trigger] m[pl]@[k]
            == count_cmds(ops, in_minute(pl, k))
}

/// Whether `m` holds, for every player with a classed command in `ops`, its
/// `(eco, military)` command counts.
pub open spec fn split_match(m: Map<i32, (u32, u32)>, ops: Seq<Operation>) -> bool {
    forall|pl: i32|
        #![trigger m.contains_key(pl)]
        #![trigger count_cmds(ops, classed(pl, true))]
        (m.contains_key(pl) <==> count_cmds(ops, classed(pl, true)) + count_cmds(ops, classed(pl, false)) > 0)
            && (m.contains_key(pl) ==> m[pl] == (
            count_cmds(ops, classed(pl, true)) as u32,
            count_cmds(ops, classed(pl, false)) as u32,
        ))
}

/// Everything walked out of one replay.
#[derive(Debug)]
pub struct Walked {
    pub meta: GameMeta,
    pub players: Vec<PlayerInfo>,
    pub evs: Vec<Ev>,
    pub elo: EloTable,
    /// One count per raw command per player (before the queue expansion): the basis of
    /// the effective APM.
    pub actions: HashMap<i32, u32>,
    /// The same count per minute since the start.
    pub action_series: HashMap<i32, Vec<u32>>,
    /// Per player, the `(eco, military)` counts of the commands [`classify_cmd`]
    /// attributes.
    pub cmd_split: HashMap<i32, (u32, u32)>,
}

fn push_copies(evs: &mut Vec<Ev>, e: Ev, n: usize)
    ensures
        final(evs)@ == old(evs)@ + Seq::new(n as nat, |i: int| e),
{
    let mut k: usize = 0;
    while k < n
        invariant
            k <= n,
            evs@ == old(evs)@ + Seq::new(k as nat, |i: int| e),
        decreases n - k,
    {
        evs.push(e);
        k = k + 1;
        assert(evs@ =~= old(evs)@ + Seq::new(k as nat, |i: int| e));
    }
}

fn bump_series(m: &mut HashMap<i32, Vec<u32>>, pl: i32, minute: usize)
    requires
        minute < 100_000,
        old(m)@.contains_key(pl) ==> forall|k: int| 0 <= k < old(m)@[pl]@.len() ==> old(m)@[pl]@[k] < u32::MAX,
    ensures
        ({
            let old_s: Seq<u32> = if old(m)@.contains_key(pl) {
                old(m)@[pl]@
            } else {
                Seq::empty()
            };
            let len = if old_s.len() > minute {
                old_s.len()
            } else {
                (minute + 1) as nat
            };
            &&& final(m)@.contains_key(pl)
            &&& final(m)@.remove(pl) == old(m)@.remove(pl)
            &&& final(m)@[pl]@.len() == len
            &&& forall|k: int|
                0 <= k < len ==> #[trigger] final(m)@[pl]@[k] == (if k < old_s.len() {
                    old_s[k] as int
                } else {
                    0
                }) + (if k == minute {
                    1int
                } else {
                    0
                })
        }),
{
    let ghost old_s: Seq<u32> = if m@.contains_key(pl) {
        m@[pl]@
    } else {
        Seq::empty()
    };
    let ghost old_m = m@;
    let mut s: Vec<u32> = match m.remove(&pl) {
        Some(v) => v,
        None => Vec::new(),
    };
    assert(s@ == old_s);
    while s.len() <= minute
        invariant
            old_s.len() <= s@.len(),
            s@.len() <= if old_s.len() > minute { old_s.len() } else { (minute + 1) as nat },
            forall|k: int| 0 <= k < s@.len() ==> s@[k] == if k < old_s.len() { old_s[k] } else { 0 },
        decreases minute + 1 - s@.len(),
    {
        s.push(0);
    }
    let cur = s[minute];
    assert(cur < u32::MAX) by {
        if minute < old_s.len() {
            assert(old_m.contains_key(pl));
        }
    }
    s.set(minute, cur + 1);
    m.insert(pl, s);
    assert(m@.remove(pl) =~= old_m.remove(pl));
}

/// Walks a decoded replay: the normalized events (a queue of `n` units as `n` train
/// events, `n` clamped to 1..=60), the real players with the team-aware result, the
/// post-game ELO, and per player the command count, its per-minute series and its
/// eco/military split.
pub fn walk(game: &Savegame) -> (r: Walked)
    requires
        game.operations@.len() < u32::MAX,
        ops_in_range(game.operations@),
    ensures
        r.meta == (GameMeta {
            map_id: game.header.resolved_map_id,
            duration_ms: game.duration_ms,
            rec_player: game.rec_player,
        }),
        r.players@.len() == real_slots(game.header.players@).len(),
        forall|i: int|
            0 <= i < r.players@.len() ==> info_of(
                #[trigger] r.players@[i],
                real_slots(game.header.players@)[i],
                winning_team(game.header.players@, game.resignations@),
            ),
        r.evs@ == walk_evs(game.operations@),
        r.elo@ == elo_merge(Map::empty(), elo_entries(game.operations@)),
        counts_match(r.actions@, game.operations@),
        series_match(r.action_series@, game.operations@),
        split_match(r.cmd_split@, game.operations@),
{
    let ops = &game.operations;
    let w = decide_winner(&game.header.players, game.resignations.as_slice());
    let players = player_infos(&game.header.players, w);
    let mut evs: Vec<Ev> = Vec::new();
    let mut elo = EloTable::new();
    let mut actions: HashMap<i32, u32> = HashMap::new();
    let mut action_series: HashMap<i32, Vec<u32>> = HashMap::new();
    let mut cmd_split: HashMap<i32, (u32, u32)> = HashMap::new();
    let mut k: usize = 0;
    while k < ops.len()
        invariant
            k <= ops@.len(),
            ops@.len() < u32::MAX,
            ops_in_range(ops@),
            evs@ == walk_evs(ops@.subrange(0, k as int)),
            elo@ == elo_merge(Map::empty(), elo_entries(ops@.subrange(0, k as int))),
            counts_match(actions@, ops@.subrange(0, k as int)),
            series_match(action_series@, ops@.subrange(0, k as int)),
            split_match(cmd_split@, ops@.subrange(0, k as int)),
        decreases ops@.len() - k,
    {
        let ghost pre = ops@.subrange(0, k as int);
        let ghost cur = ops@.subrange(0, k + 1);
        assert(cur.drop_last() == pre);
        assert(cur.last() == ops@[k as int]);
        match &ops[k] {
            Operation::Action { world_time, action_data } => {
                let p = pid(action_data);
                let t = *world_time;
                // one per raw command
                let ghost old_actions = actions@;
                let n0: u32 = match actions.get(&p) {
                    Some(v) => *v,
                    None => 0,
                };
                proof {
                    lemma_count_le(pre, by_player(p));
                }
                actions.insert(p, n0 + 1);
                assert forall|pl: i32| #![trigger actions@.contains_key(pl)] #![trigger count_cmds(cur, by_player(pl))]
                    (actions@.contains_key(pl) <==> count_cmds(cur, by_player(pl)) > 0) && (actions@.contains_key(pl)
                        ==> actions@[pl] == count_cmds(cur, by_player(pl))) by {
                    assert(count_cmds(cur, by_player(pl)) == count_cmds(pre, by_player(pl)) + if pl == p {
                        1nat
                    } else {
                        0nat
                    });
                    if pl != p {
                        assert(old_actions.contains_key(pl) == actions@.contains_key(pl));
                    }
                }
                // the same, per minute
                let minute: usize = (t / 60_000) as usize;
                let ghost old_series = action_series@;
                proof {
                    if old_series.contains_key(p) {
                        assert forall|j: int| 0 <= j < old_series[p]@.len() implies old_series[p]@[j] < u32::MAX by {
                            lemma_count_le(pre, in_minute(p, j));
                        }
                    }
                }
                bump_series(&mut action_series, p, minute);
                proof {
                    lemma_series_step(old_series, action_series@, pre, cur, p, t, *action_data);
                }
                // the kind, its eco/military class, and the events
                let kd = kind(action_data);
                match classify_cmd(&kd) {
                    Some(is_eco) => {
                        let ghost old_split = cmd_split@;
                        let e: (u32, u32) = match cmd_split.get(&p) {
                            Some(v) => *v,
                            None => (0, 0),
                        };
                        proof {
                            lemma_count_le(pre, classed(p, true));
                            lemma_count_le(pre, classed(p, false));
                            assert(count_cmds(pre, classed(p, true)) + count_cmds(pre, classed(p, false)) > 0 || e == (0u32, 0u32));
                        }
                        let ne: (u32, u32) = if is_eco {
                            (e.0 + 1, e.1)
                        } else {
                            (e.0, e.1 + 1)
                        };
                        cmd_split.insert(p, ne);
                        assert forall|pl: i32| #![trigger cmd_split@.contains_key(pl)] #![trigger count_cmds(cur, classed(pl, true))]
                            (cmd_split@.contains_key(pl) <==> count_cmds(cur, classed(pl, true)) + count_cmds(cur, classed(pl, false)) > 0)
                            && (cmd_split@.contains_key(pl) ==> cmd_split@[pl] == (
                            count_cmds(cur, classed(pl, true)) as u32,
                            count_cmds(cur, classed(pl, false)) as u32,
                        )) by {
                            assert(count_cmds(cur, classed(pl, true)) == count_cmds(pre, classed(pl, true)) + if pl == p && is_eco {
                                1nat
                            } else {
                                0nat
                            });
                            assert(count_cmds(cur, classed(pl, false)) == count_cmds(pre, classed(pl, false)) + if pl == p && !is_eco {
                                1nat
                            } else {
                                0nat
                            });
                            if pl != p {
                                assert(old_split.contains_key(pl) == cmd_split@.contains_key(pl));
                                assert(count_cmds(pre, classed(pl, false)) == count_cmds(cur, classed(pl, false)));
                            }
                        }
                    },
                    None => {
                        assert forall|pl: i32| #![trigger cmd_split@.contains_key(pl)] #![trigger count_cmds(cur, classed(pl, true))]
                            (cmd_split@.contains_key(pl) <==> count_cmds(cur, classed(pl, true)) + count_cmds(cur, classed(pl, false)) > 0)
                            && (cmd_split@.contains_key(pl) ==> cmd_split@[pl] == (
                            count_cmds(cur, classed(pl, true)) as u32,
                            count_cmds(cur, classed(pl, false)) as u32,
                        )) by {
                            assert(count_cmds(cur, classed(pl, true)) == count_cmds(pre, classed(pl, true)));
                            assert(count_cmds(cur, classed(pl, false)) == count_cmds(pre, classed(pl, false)));
                        }
                    },
                }
                let n: usize = match action_data {
                    ActionData::DeQueue { amount, .. } => if *amount < 1 {
                        1
                    } else if *amount > 60 {
                        60
                    } else {
                        *amount as usize
                    },
                    _ => 1,
                };
                push_copies(&mut evs, Ev { player: p, t_ms: t, kind: kd }, n);
                assert(elo_entries(cur) == elo_entries(pre) + Seq::<(u32, i32, i32)>::empty());
                assert(elo_entries(pre) + Seq::<(u32, i32, i32)>::empty() == elo_entries(pre));
            },
            Operation::PostGame { blocks } => {
                assert(ops@[k as int] is PostGame);
                collect_leaderboard_elo(blocks.as_slice(), &mut elo);
                proof {
                    lemma_elo_merge_append(Map::empty(), elo_entries(pre), blocks_entries_of(ops@[k as int]));
                    lemma_no_cmd_step(pre, cur);
                }
                assert(walk_evs(cur) == walk_evs(pre));
            },
            Operation::Other => {
                assert(elo_entries(cur) == elo_entries(pre) + Seq::<(u32, i32, i32)>::empty());
                assert(elo_entries(pre) + Seq::<(u32, i32, i32)>::empty() == elo_entries(pre));
                proof {
                    lemma_no_cmd_step(pre, cur);
                }
                assert(walk_evs(cur) == walk_evs(pre));
            },
        }
        k = k + 1;
    }
    assert(ops@.subrange(0, ops@.len() as int) == ops@);
    Walked {
        meta: GameMeta {
            map_id: game.header.resolved_map_id,
            duration_ms: game.duration_ms,
            rec_player: game.rec_player,
        },
        players,
        evs,
        elo,
        actions,
        action_series,
        cmd_split,
    }
}

/// The leaderboard entries one post-game operation contributes.
pub open spec fn blocks_entries_of(op: Operation) -> Seq<(u32, i32, i32)> {
    match op {
        Operation::PostGame { blocks } => crate::replay::postgame::blocks_entries(blocks@),
        _ => Seq::empty(),
    }
}

proof fn lemma_no_cmd_step(pre: Seq<Operation>, cur: Seq<Operation>)
    requires
        cur.len() == pre.len() + 1,
        cur.drop_last() == pre,
        !(cur.last() is Action),
    ensures
        forall|p: spec_fn(u32, ActionData) -> bool| #[trigger] count_cmds(cur, p) == count_cmds(pre, p),
        forall|pl: i32| #[trigger] minutes_of(cur, pl) == minutes_of(pre, pl),
{
}

proof fn lemma_series_step(
    old_m: Map<i32, Vec<u32>>,
    new_m: Map<i32, Vec<u32>>,
    pre: Seq<Operation>,
    cur: Seq<Operation>,
    p: i32,
    t: u32,
    a: ActionData,
)
    requires
        cur.len() == pre.len() + 1,
        cur.drop_last() == pre,
        cur.last() == (Operation::Action { world_time: t, action_data: a }),
        pid_of(a) == p,
        series_match(old_m, pre),
        ({
            let minute = (t / 60_000) as int;
            let old_s: Seq<u32> = if old_m.contains_key(p) {
                old_m[p]@
            } else {
                Seq::empty()
            };
            let len = if old_s.len() > minute {
                old_s.len()
            } else {
                (minute + 1) as nat
            };
            &&& new_m.contains_key(p)
            &&& new_m.remove(p) == old_m.remove(p)
            &&& new_m[p]@.len() == len
            &&& forall|k: int|
                0 <= k < len ==> #[trigger] new_m[p]@[k] == (if k < old_s.len() {
                    old_s[k] as int
                } else {
                    0
                }) + (if k == minute {
                    1int
                } else {
                    0
                })
        }),
    ensures
        series_match(new_m, cur),
{
    let minute = (t / 60_000) as int;
    assert forall|pl: i32| #![trigger new_m.contains_key(pl)] #![trigger count_cmds(cur, by_player(pl))]
        new_m.contains_key(pl) <==> count_cmds(cur, by_player(pl)) > 0 by {
        if pl != p {
            assert(new_m.remove(p).contains_key(pl) == new_m.contains_key(pl));
            assert(old_m.remove(p).contains_key(pl) == old_m.contains_key(pl));
        }
    }
    assert forall|pl: i32| #[trigger] new_m.contains_key(pl) implies new_m[pl]@.len() == minutes_of(cur, pl) by {
        assert(minutes_of(cur, pl) == if pid_of(a) == pl && t / 60_000 + 1 > minutes_of(pre, pl) {
            (t / 60_000 + 1) as nat
        } else {
            minutes_of(pre, pl)
        });
        if pl != p {
            assert(new_m.remove(p).contains_key(pl));
            assert(new_m.remove(p)[pl] == new_m[pl]);
            assert(old_m.remove(p)[pl] == old_m[pl]);
            assert(old_m.contains_key(pl));
        } else {
            if !old_m.contains_key(p) {
                lemma_minutes_zero(pre, p);
            } else {
                assert(old_m[p]@.len() == minutes_of(pre, p));
            }
        }
    }
    assert forall|pl: i32, k: int| #[trigger] new_m.contains_key(pl) && 0 <= k < new_m[pl]@.len() implies #[trigger] new_m[pl]@[k]
        == count_cmds(cur, in_minute(pl, k)) by {
        if pl != p {
            assert(new_m.remove(p)[pl] == new_m[pl]);
            assert(old_m.remove(p)[pl] == old_m[pl]);
            assert(old_m.contains_key(pl));
        } else {
            let old_len: int = if old_m.contains_key(p) { old_m[p]@.len() as int } else { 0 };
            if old_m.contains_key(p) {
                assert(old_len == minutes_of(pre, p));
            } else {
                lemma_minutes_zero(pre, p);
            }
            if k >= old_len {
                lemma_minutes_bound(pre, p, k);
            }
        }
    }
}

// --- laws ------------------------------------------------------------------------------

/// The sum of a player's per-minute command counts over minutes `0..n`.
pub open spec fn series_sum(ops: Seq<Operation>, pl: i32, n: int) -> int
    decreases n,
{
    if n <= 0 {
        0
    } else {
        series_sum(ops, pl, n - 1) + count_cmds(ops, in_minute(pl, n - 1))
    }
}

proof fn lemma_series_sum_step(pre: Seq<Operation>, cur: Seq<Operation>, pl: i32, n: int, t: u32, a: ActionData)
    requires
        cur.len() == pre.len() + 1,
        cur.drop_last() == pre,
        cur.last() == (Operation::Action { world_time: t, action_data: a }),
        n >= 0,
    ensures
        series_sum(cur, pl, n) == series_sum(pre, pl, n) + if pid_of(a) == pl && t / 60_000 < n {
            1int
        } else {
            0
        },
    decreases n,
{
    if n > 0 {
        lemma_series_sum_step(pre, cur, pl, n - 1, t, a);
    }
}

proof fn lemma_series_sum_other(pre: Seq<Operation>, cur: Seq<Operation>, pl: i32, n: int)
    requires
        cur.len() == pre.len() + 1,
        cur.drop_last() == pre,
        !(cur.last() is Action),
        n >= 0,
    ensures
        series_sum(cur, pl, n) == series_sum(pre, pl, n),
    decreases n,
{
    if n > 0 {
        lemma_series_sum_other(pre, cur, pl, n - 1);
    }
}

proof fn lemma_series_sum_beyond(ops: Seq<Operation>, pl: i32, n: int)
    requires
        n >= minutes_of(ops, pl),
    ensures
        series_sum(ops, pl, n) == series_sum(ops, pl, minutes_of(ops, pl) as int),
    decreases n,
{
    if n > minutes_of(ops, pl) {
        lemma_minutes_bound(ops, pl, n - 1);
        lemma_series_sum_beyond(ops, pl, n - 1);
    }
}

/// A player's per-minute command counts add up to its command count: every command
/// falls in exactly one minute of the series.
pub proof fn lemma_series_sums_to_count(ops: Seq<Operation>, pl: i32)
    ensures
        series_sum(ops, pl, minutes_of(ops, pl) as int) == count_cmds(ops, by_player(pl)),
    decreases ops.len(),
{
    if ops.len() > 0 {
        let pre = ops.drop_last();
        lemma_series_sums_to_count(pre, pl);
        let m = minutes_of(ops, pl) as int;
        assert(m >= minutes_of(pre, pl));
        lemma_series_sum_beyond(pre, pl, m);
        match ops.last() {
            Operation::Action { world_time, action_data } => {
                lemma_series_sum_step(pre, ops, pl, m, world_time, action_data);
            },
            _ => {
                lemma_series_sum_other(pre, ops, pl, m);
            },
        }
    }
}

/// The eco/military split counts only some commands: for every player, its eco and
/// military command counts together are at most its command count.
pub proof fn lemma_split_within_count(ops: Seq<Operation>, pl: i32)
    ensures
        count_cmds(ops, classed(pl, true)) + count_cmds(ops, classed(pl, false)) <= count_cmds(ops, by_player(pl)),
    decreases ops.len(),
{
    if ops.len() > 0 {
        lemma_split_within_count(ops.drop_last(), pl);
    }
}

/// Each command becomes between one and sixty events: the stream is at least as long as
/// the command count and at most sixty times it.
pub proof fn lemma_events_per_command(ops: Seq<Operation>)
    ensures
        count_cmds(ops, |t: u32, a: ActionData| true) <= walk_evs(ops).len() <= 60 * count_cmds(
            ops,
            |t: u32, a: ActionData| true,
        ),
    decreases ops.len(),
{
    if ops.len() > 0 {
        lemma_events_per_command(ops.drop_last());
    }
}

} // verus!
