//! From a decoded replay to a [`ParsedReplay`]: the four tables of the extractor, every
//! value narrowed to the store's signed width with a check; a value that does not fit is an
//! [`Error::Overflow`] naming its field, never a silent truncation.
use vstd::prelude::*;

use crate::replay::extract::{
    actions, age_rows, elo_entries, event_of, extract_from, max_time, ops_in_range, player_row,
    real_players, ActionData, Operation, ReplayHeader, Savegame,
};
use crate::replay::parsed::error::Error;
use crate::replay::parsed::ids::{Age, GameCivId, MatchId, ProfileId};
use crate::replay::parsed::types::{ParsedReplay, ReplayAge, ReplayEvent, ReplayPlayer};
use crate::replay::postgame::elo_merge;
use crate::text::str_eq;

verus! {

/// Whether `x` fits an `i32`.
pub open spec fn fits_i32(x: int) -> bool {
    i32::MIN <= x <= i32::MAX
}

/// Whether `x` fits an `i16`.
pub open spec fn fits_i16(x: int) -> bool {
    i16::MIN <= x <= i16::MAX
}

/// The view of an extracted player row.
pub type PlayerRowView = (i64, i32, i32, u32, Seq<char>, u8, i32, Option<bool>, Option<i32>);

/// The view of an extracted event row.
pub type EventRowView = (i64, Option<i32>, i32, u32, Seq<char>, Option<i64>, Option<i64>, Option<Seq<char>>);

/// The view of an extracted age row.
pub type AgeRowView = (i64, i32, u32, Option<bool>, Seq<char>, u32, i64, i64, i64, i64);

/// A player row narrowed to the stored widths; `None` when its player number does not fit
/// `i16` or its civ id does not fit `i32`.
pub open spec fn narrow_player(v: PlayerRowView) -> Option<(i16, i64, i32, Seq<char>, i16, i32, Option<bool>, Option<i32>)> {
    if fits_i16(v.1 as int) && fits_i32(v.3 as int) {
        Some((v.1 as i16, v.2 as i64, v.3 as i32, v.4, v.5 as i16, v.6, v.7, v.8))
    } else {
        None
    }
}

/// An event row narrowed; `None` when its player number does not fit `i16` or its time
/// does not fit `i32`.
pub open spec fn narrow_event(v: EventRowView) -> Option<(Option<i64>, i16, i32, Seq<char>, Option<i64>, Option<i64>, Option<Seq<char>>)> {
    if fits_i16(v.2 as int) && fits_i32(v.3 as int) {
        Some(
            (
                match v.1 {
                    Some(p) => Some(p as i64),
                    None => None,
                },
                v.2 as i16,
                v.3 as i32,
                v.4,
                v.5,
                v.6,
                v.7,
            ),
        )
    } else {
        None
    }
}

/// The age an age name denotes.
pub open spec fn age_of_name(s: Seq<char>) -> Option<Age> {
    if s == "dark"@ {
        Some(Age::Dark)
    } else if s == "feudal"@ {
        Some(Age::Feudal)
    } else if s == "castle"@ {
        Some(Age::Castle)
    } else if s == "imperial"@ {
        Some(Age::Imperial)
    } else {
        None
    }
}

/// Whether every count of an age row fits `i32`.
pub open spec fn age_fits(v: AgeRowView) -> bool {
    &&& fits_i32(v.2 as int)
    &&& fits_i32(v.5 as int)
    &&& fits_i32(v.6 as int)
    &&& fits_i32(v.7 as int)
    &&& fits_i32(v.8 as int)
    &&& fits_i32(v.9 as int)
}

/// An age row narrowed; `None` when a value does not fit or its age name is unknown.
pub open spec fn narrow_age(v: AgeRowView) -> Option<(i64, i32, Option<bool>, Age, i32, i32, i32, i32, i32)> {
    if age_fits(v) && age_of_name(v.4) is Some {
        Some(
            (
                v.1 as i64,
                v.2 as i32,
                v.3,
                age_of_name(v.4)->0,
                v.5 as i32,
                v.6 as i32,
                v.7 as i32,
                v.8 as i32,
                v.9 as i32,
            ),
        )
    } else {
        None
    }
}

/// A long-tail action whose player id does not fit `i32`.
pub open spec fn bad_player_id(op: Operation) -> bool {
    op matches Operation::Action { action_data: ActionData::Other { player_id: Some(p), .. }, .. }
        && !fits_i32(p as int)
}

/// Whether some action of the stream has a player id that does not fit `i32`.
pub open spec fn player_id_overflow(ops: Seq<Operation>) -> bool {
    exists|k: int| 0 <= k < ops.len() && bad_player_id(#[trigger] ops[k])
}

/// The extracted rows of a replay (see [`extract_from`]).
pub open spec fn rows_of(match_id: i64, header: ReplayHeader, ops: Seq<Operation>) -> (
    Seq<PlayerRowView>,
    Seq<EventRowView>,
    Seq<AgeRowView>,
) {
    let ps = real_players(header.players@);
    let acts = actions(ops);
    let n = ps.len();
    let elo = elo_merge(Map::empty(), elo_entries(ops));
    (
        Seq::new(n, |i: int| player_row(match_id, acts, n, elo, ps[i])),
        Seq::new(acts.len(), |i: int| event_of(match_id, ps, acts[i])),
        age_rows(match_id, acts, n, ps),
    )
}

/// Whether the meta values fit: build, map id and duration in `i32`, the player count in
/// `i16`.
pub open spec fn meta_fits(header: ReplayHeader, ops: Seq<Operation>) -> bool {
    &&& header.build <= i32::MAX
    &&& header.resolved_map_id <= i32::MAX
    &&& max_time(actions(ops)) <= i32::MAX
    &&& real_players(header.players@).len() <= i16::MAX
}

/// Whether every value of the replay fits the width it is stored in.
pub open spec fn all_fit(match_id: i64, header: ReplayHeader, ops: Seq<Operation>) -> bool {
    let rows = rows_of(match_id, header, ops);
    &&& meta_fits(header, ops)
    &&& forall|i: int| 0 <= i < rows.0.len() ==> narrow_player(#[trigger] rows.0[i]) is Some
    &&& forall|i: int| 0 <= i < rows.1.len() ==> narrow_event(#[trigger] rows.1[i]) is Some
    &&& forall|i: int| 0 <= i < rows.2.len() ==> narrow_age(#[trigger] rows.2[i]) is Some
}

/// Whether `field` names a value of the replay that does not fit.
pub open spec fn overflow_named(field: Seq<char>, match_id: i64, header: ReplayHeader, ops: Seq<Operation>) -> bool {
    let rows = rows_of(match_id, header, ops);
    let ages = rows.2;
    ||| field == "event.player_id"@ && player_id_overflow(ops)
    ||| field == "age.civ_id"@ && exists|i: int| 0 <= i < ages.len() && !fits_i32(#[trigger] ages[i].2 as int)
    ||| field == "age.uptime_ms"@ && exists|i: int| 0 <= i < ages.len() && !fits_i32(#[trigger] ages[i].5 as int)
    ||| field == "age.villagers"@ && exists|i: int| 0 <= i < ages.len() && !fits_i32(#[trigger] ages[i].6 as int)
    ||| field == "age.military"@ && exists|i: int| 0 <= i < ages.len() && !fits_i32(#[trigger] ages[i].7 as int)
    ||| field == "age.n_buildings"@ && exists|i: int| 0 <= i < ages.len() && !fits_i32(#[trigger] ages[i].8 as int)
    ||| field == "age.n_research"@ && exists|i: int| 0 <= i < ages.len() && !fits_i32(#[trigger] ages[i].9 as int)
    ||| field == "meta.build"@ && header.build > i32::MAX
    ||| field == "meta.map_id"@ && header.resolved_map_id > i32::MAX
    ||| field == "meta.duration_ms"@ && max_time(actions(ops)) > i32::MAX
    ||| field == "meta.n_players"@ && real_players(header.players@).len() > i16::MAX
    ||| field == "player.player_number"@ && exists|i: int| 0 <= i < rows.0.len() && !fits_i16(#[trigger] rows.0[i].1 as int)
    ||| field == "player.civ_id"@ && exists|i: int| 0 <= i < rows.0.len() && !fits_i32(#[trigger] rows.0[i].3 as int)
    ||| field == "event.player_number"@ && exists|i: int| 0 <= i < rows.1.len() && !fits_i16(#[trigger] rows.1[i].2 as int)
    ||| field == "event.t_ms"@ && exists|i: int| 0 <= i < rows.1.len() && !fits_i32(#[trigger] rows.1[i].3 as int)
}

fn check_player_ids(ops: &[Operation]) -> (r: bool)
    ensures
        r == player_id_overflow(ops@),
{
    let mut k: usize = 0;
    while k < ops.len()
        invariant
            k <= ops@.len(),
            forall|j: int| 0 <= j < k ==> !bad_player_id(#[trigger] ops@[j]),
        decreases ops@.len() - k,
    {
        match &ops[k] {
            Operation::Action { action_data: ActionData::Other { player_id: Some(p), .. }, .. } => {
                if *p < i32::MIN as i64 || *p > i32::MAX as i64 {
                    assert(bad_player_id(ops@[k as int]));
                    return true;
                }
            },
            _ => {},
        }
        k = k + 1;
    }
    false
}

fn age_named(s: &String) -> (r: Option<Age>)
    ensures
        r == age_of_name(s@),
{
    if str_eq(s.as_str(), "dark") {
        Some(Age::Dark)
    } else if str_eq(s.as_str(), "feudal") {
        Some(Age::Feudal)
    } else if str_eq(s.as_str(), "castle") {
        Some(Age::Castle)
    } else if str_eq(s.as_str(), "imperial") {
        Some(Age::Imperial)
    } else {
        None
    }
}

fn fit_i32(x: i64) -> (r: Option<i32>)
    ensures
        match r {
            Some(v) => fits_i32(x as int) && v == x,
            None => !fits_i32(x as int),
        },
{
    if x < i32::MIN as i64 || x > i32::MAX as i64 {
        None
    } else {
        Some(x as i32)
    }
}

/// Narrows the extracted rows of a replay (see [`parse_game`]).
#[verifier::loop_isolation(false)]
fn narrow_all(
    match_id: MatchId,
    header: &ReplayHeader,
    e: crate::replay::extract::Extracted,
    Ghost(ops): Ghost<Seq<Operation>>,
) -> (r: Result<ParsedReplay, Error>)
    requires
        ({
            let rows = rows_of(match_id.0, *header, ops);
            &&& e.meta.build == Some(header.build)
            &&& e.meta.map_id == Some(header.resolved_map_id)
            &&& e.meta.duration_ms == max_time(actions(ops))
            &&& e.meta.n_players as int == real_players(header.players@).len()
            &&& e.players@.len() == rows.0.len()
            &&& forall|i: int| 0 <= i < rows.0.len() ==> (#[trigger] e.players@[i])@ == rows.0[i]
            &&& e.events@.len() == rows.1.len()
            &&& forall|i: int| 0 <= i < rows.1.len() ==> (#[trigger] e.events@[i])@ == rows.1[i]
            &&& e.ages@.len() == rows.2.len()
            &&& forall|i: int| 0 <= i < rows.2.len() ==> (#[trigger] e.ages@[i])@ == rows.2[i]
        }),
    ensures
        parse_result_ok(r, match_id, *header, ops),
{
    let ghost rows = rows_of(match_id.0, *header, ops);
    // ages
    let mut ages: Vec<ReplayAge> = Vec::new();
    let mut i: usize = 0;
    while i < e.ages.len()
        invariant
            i <= e.ages@.len(),
            e.ages@.len() == rows.2.len(),
            forall|j: int| 0 <= j < rows.2.len() ==> (#[trigger] e.ages@[j])@ == rows.2[j],
            ages@.len() == i,
            forall|j: int| 0 <= j < i ==> narrow_age(rows.2[j]) == Some((#[trigger] ages@[j])@),
        decreases e.ages@.len() - i,
    {
        let a = &e.ages[i];
        assert(a@ == rows.2[i as int]);
        if a.civ_id > i32::MAX as u32 {
            assert(!fits_i32(rows.2[i as int].2 as int));
            return Err(Error::Overflow { field: "age.civ_id" });
        }
        let age = match age_named(&a.age) {
            Some(x) => x,
            None => return Err(Error::UnknownAge(a.age.clone())),
        };
        if a.uptime_ms > i32::MAX as u32 {
            assert(!fits_i32(rows.2[i as int].5 as int));
            return Err(Error::Overflow { field: "age.uptime_ms" });
        }
        let villagers = match fit_i32(a.villagers) {
            Some(v) => v,
            None => {
                assert(!fits_i32(rows.2[i as int].6 as int));
                return Err(Error::Overflow { field: "age.villagers" });
            },
        };
        let military = match fit_i32(a.military) {
            Some(v) => v,
            None => {
                assert(!fits_i32(rows.2[i as int].7 as int));
                return Err(Error::Overflow { field: "age.military" });
            },
        };
        let n_buildings = match fit_i32(a.n_buildings) {
            Some(v) => v,
            None => {
                assert(!fits_i32(rows.2[i as int].8 as int));
                return Err(Error::Overflow { field: "age.n_buildings" });
            },
        };
        let n_research = match fit_i32(a.n_research) {
            Some(v) => v,
            None => {
                assert(!fits_i32(rows.2[i as int].9 as int));
                return Err(Error::Overflow { field: "age.n_research" });
            },
        };
        ages.push(
            ReplayAge {
                profile_id: ProfileId(a.profile_id as i64),
                civ_id: GameCivId(a.civ_id as i32),
                won: a.won,
                age,
                uptime_ms: a.uptime_ms as i32,
                villagers,
                military,
                n_buildings,
                n_research,
            },
        );
        i = i + 1;
    }
    // meta
    let build: u32 = match e.meta.build {
        Some(b) => b,
        None => 0,
    };
    if build > i32::MAX as u32 {
        return Err(Error::Overflow { field: "meta.build" });
    }
    let map_id: u32 = match e.meta.map_id {
        Some(m) => m,
        None => 0,
    };
    if map_id > i32::MAX as u32 {
        return Err(Error::Overflow { field: "meta.map_id" });
    }
    if e.meta.duration_ms > i32::MAX as u32 {
        return Err(Error::Overflow { field: "meta.duration_ms" });
    }
    if e.meta.n_players > 0x7fff {
        return Err(Error::Overflow { field: "meta.n_players" });
    }
    // players
    let mut players: Vec<ReplayPlayer> = Vec::new();
    let mut i: usize = 0;
    while i < e.players.len()
        invariant
            i <= e.players@.len(),
            e.players@.len() == rows.0.len(),
            forall|j: int| 0 <= j < rows.0.len() ==> (#[trigger] e.players@[j])@ == rows.0[j],
            players@.len() == i,
            forall|j: int| 0 <= j < i ==> narrow_player(rows.0[j]) == Some((#[trigger] players@[j])@),
        decreases e.players@.len() - i,
    {
        let p = &e.players[i];
        assert(p@ == rows.0[i as int]);
        if p.player_number < -0x8000 || p.player_number > 0x7fff {
            assert(!fits_i16(rows.0[i as int].1 as int));
            return Err(Error::Overflow { field: "player.player_number" });
        }
        if p.civ_id > i32::MAX as u32 {
            assert(!fits_i32(rows.0[i as int].3 as int));
            return Err(Error::Overflow { field: "player.civ_id" });
        }
        players.push(
            ReplayPlayer {
                player_number: p.player_number as i16,
                profile_id: ProfileId(p.profile_id as i64),
                civ_id: GameCivId(p.civ_id as i32),
                name: p.name.clone(),
                team: p.team as i16,
                color: p.color,
                won: p.won,
                elo: p.elo,
            },
        );
        i = i + 1;
    }
    // events
    let mut events: Vec<ReplayEvent> = Vec::new();
    let mut i: usize = 0;
    while i < e.events.len()
        invariant
            i <= e.events@.len(),
            e.events@.len() == rows.1.len(),
            forall|j: int| 0 <= j < rows.1.len() ==> (#[trigger] e.events@[j])@ == rows.1[j],
            events@.len() == i,
            forall|j: int| 0 <= j < i ==> narrow_event(rows.1[j]) == Some((#[trigger] events@[j])@),
        decreases e.events@.len() - i,
    {
        let ev = &e.events[i];
        assert(ev@ == rows.1[i as int]);
        if ev.player_number < -0x8000 || ev.player_number > 0x7fff {
            assert(!fits_i16(rows.1[i as int].2 as int));
            return Err(Error::Overflow { field: "event.player_number" });
        }
        if ev.t_ms > i32::MAX as u32 {
            assert(!fits_i32(rows.1[i as int].3 as int));
            return Err(Error::Overflow { field: "event.t_ms" });
        }
        let detail = match &ev.detail {
            Some(d) => Some(d.clone()),
            None => None,
        };
        events.push(
            ReplayEvent {
                profile_id: match ev.profile_id {
                    Some(pid) => Some(ProfileId(pid as i64)),
                    None => None,
                },
                player_number: ev.player_number as i16,
                t_ms: ev.t_ms as i32,
                kind: ev.kind.clone(),
                target_id: ev.target_id,
                amount: ev.amount,
                detail,
            },
        );
        i = i + 1;
    }
    proof {
        assert forall|j: int| 0 <= j < rows.0.len() implies narrow_player(#[trigger] rows.0[j]) is Some by {
            assert(narrow_player(rows.0[j]) == Some(players@[j]@));
        }
        assert forall|j: int| 0 <= j < rows.1.len() implies narrow_event(#[trigger] rows.1[j]) is Some by {
            assert(narrow_event(rows.1[j]) == Some(events@[j]@));
        }
        assert forall|j: int| 0 <= j < rows.2.len() implies narrow_age(#[trigger] rows.2[j]) is Some by {
            assert(narrow_age(rows.2[j]) == Some(ages@[j]@));
        }
    }
    Ok(
        ParsedReplay {
            match_id,
            build: Some(build as i32),
            map_id: Some(map_id as i32),
            duration_ms: e.meta.duration_ms as i32,
            n_players: e.meta.n_players as i16,
            players,
            events,
            ages,
        },
    )
}

/// What [`parse_game`] promises of its result once the player ids are known to fit: `Ok`
/// exactly when every value fits, holding the narrowed rows; an overflow names a field
/// that does not fit; an unknown age names the row's age.
pub open spec fn parse_result_ok(r: Result<ParsedReplay, Error>, match_id: MatchId, header: ReplayHeader, ops: Seq<Operation>) -> bool {
    let rows = rows_of(match_id.0, header, ops);
    &&& (r is Ok <==> all_fit(match_id.0, header, ops))
    &&& (r matches Ok(p) ==> {
        &&& p.match_id == match_id
        &&& p.build == Some(header.build as i32)
        &&& p.map_id == Some(header.resolved_map_id as i32)
        &&& p.duration_ms == max_time(actions(ops)) as i32
        &&& p.n_players == real_players(header.players@).len() as i16
        &&& p.players@.len() == rows.0.len()
        &&& forall|i: int| 0 <= i < rows.0.len() ==> narrow_player(rows.0[i]) == Some((#[trigger] p.players@[i])@)
        &&& p.events@.len() == rows.1.len()
        &&& forall|i: int| 0 <= i < rows.1.len() ==> narrow_event(rows.1[i]) == Some((#[trigger] p.events@[i])@)
        &&& p.ages@.len() == rows.2.len()
        &&& forall|i: int| 0 <= i < rows.2.len() ==> narrow_age(rows.2[i]) == Some((#[trigger] p.ages@[i])@)
    })
    &&& (r matches Err(Error::Overflow { field }) ==> overflow_named(field@, match_id.0, header, ops))
    &&& (r matches Err(Error::UnknownAge(s)) ==> exists|i: int|
        0 <= i < rows.2.len() && (#[trigger] rows.2[i]).4 == s@ && age_of_name(s@) is None)
    &&& !(r matches Err(Error::Parse(_)))
}

/// Decodes a replay into a [`ParsedReplay`]: the extractor's four tables (see
/// [`extract_from`]), every value narrowed with a check. A long-tail action whose player id
/// does not fit `i32` fails first, as `event.player_id`; otherwise the result is `Ok`
/// exactly when every value fits.
pub fn parse_game(match_id: MatchId, game: &Savegame) -> (r: Result<ParsedReplay, Error>)
    requires
        game.operations@.len() < 0x4000_0000_0000,
        ops_in_range(game.operations@),
    ensures
        player_id_overflow(game.operations@) ==> r == Err::<ParsedReplay, Error>(Error::Overflow { field: "event.player_id" }),
        !player_id_overflow(game.operations@) ==> parse_result_ok(r, match_id, game.header, game.operations@),
{
    let ops = game.operations.as_slice();
    if check_player_ids(ops) {
        return Err(Error::Overflow { field: "event.player_id" });
    }
    let e = extract_from(match_id.0, &game.header, ops);
    let ghost rows = rows_of(match_id.0, game.header, ops@);
    let np = e.players.len();
    proof {
        assert forall|i: int| 0 <= i < rows.2.len() implies (#[trigger] e.ages@[i])@ == rows.2[i] by {
            assert(e.ages@.map_values(|a: crate::replay::extract::AgeRow| a@)[i] == e.ages@[i]@);
        }
        assert(e.ages@.len() == e.ages@.map_values(|a: crate::replay::extract::AgeRow| a@).len());
        assert(e.players@.len() == rows.0.len());
        assert(real_players(game.header.players@).len() == np);
    }
    narrow_all(match_id, &game.header, e, Ghost(ops@))
}

} // verus!
