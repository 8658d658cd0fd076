//! Per-player metrics over the normalized event stream: age-up clicks, villagers queued,
//! idle town-center time, first military, watched eco techs, production over time, the
//! eco/military split of commands, market use and the opening.
use vstd::prelude::*;

use crate::replay::config::{eco_unit, is_eco_unit, is_watched_tech, watched_tech_ids, WATCHED_TECHS};
use crate::text::{chars_of, push_all, string_of};

verus! {

/// One command's kind, normalized. Map coordinates are kept as the raw `f32` bit
/// patterns of the record (nothing here reads them).
#[derive(Debug, Clone, Copy, PartialEq, Eq, Structural)]
pub enum EvKind {
    /// A unit queued (one per queued unit).
    Train(u16),
    Research(u16),
    Build { id: i64, x_bits: u32, y_bits: u32 },
    Move { x_bits: u32, y_bits: u32 },
    Interact { x_bits: u32, y_bits: u32 },
    MarketBuy,
    MarketSell,
    Other,
}

/// One player event.
#[derive(Debug, Clone, Copy, PartialEq, Eq, Structural)]
pub struct Ev {
    pub player: i32,
    pub t_ms: u32,
    pub kind: EvKind,
}

/// Villager train time.
pub const VIL_TRAIN_MS: u32 = 25_000;

/// Economy buildings: house, mill, farm, lumber camp, mining camp, dock, market, fish
/// trap, town centers.
pub const ECO_BUILDINGS: [i64; 10] = [70, 68, 50, 562, 584, 45, 84, 199, 109, 621];

/// Military buildings: barracks, archery range, stable, siege workshop, castle, watch
/// tower.
pub const MIL_BUILDINGS: [i64; 6] = [12, 87, 101, 49, 82, 79];

/// The age-up techs (feudal, castle, imperial).
pub const AGE_TECHS: [u16; 3] = [101, 102, 103];

/// The earliest time of an event of `player` satisfying `p`, folded over `evs`.
pub open spec fn min_time(evs: Seq<Ev>, player: i32, p: spec_fn(Ev) -> bool) -> Option<u32>
    decreases evs.len(),
{
    if evs.len() == 0 {
        None
    } else {
        let prev = min_time(evs.drop_last(), player, p);
        let e = evs.last();
        if e.player == player && p(e) {
            match prev {
                Some(t) => if e.t_ms < t { Some(e.t_ms) } else { Some(t) },
                None => Some(e.t_ms),
            }
        } else {
            prev
        }
    }
}

/// The number of events of `player` satisfying `p`.
pub open spec fn count_evs(evs: Seq<Ev>, player: i32, p: spec_fn(Ev) -> bool) -> nat
    decreases evs.len(),
{
    if evs.len() == 0 {
        0
    } else {
        count_evs(evs.drop_last(), player, p) + if evs.last().player == player && p(evs.last()) {
            1nat
        } else {
            0nat
        }
    }
}

proof fn lemma_count_le(evs: Seq<Ev>, player: i32, p: spec_fn(Ev) -> bool)
    ensures
        count_evs(evs, player, p) <= evs.len(),
    decreases evs.len(),
{
    if evs.len() > 0 {
        lemma_count_le(evs.drop_last(), player, p);
    }
}

/// A research of `tech`.
pub open spec fn is_research(tech: u16) -> spec_fn(Ev) -> bool {
    |e: Ev| e.kind == EvKind::Research(tech)
}

fn first_matching(evs: &[Ev], player: i32, p: Ghost<spec_fn(Ev) -> bool>, tech: Option<u16>) -> (r: Option<u32>)
    requires
        match tech {
            Some(t) => p@ == is_research(t),
            None => p@ == is_military_train(),
        },
    ensures
        r == min_time(evs@, player, p@),
{
    let mut best: Option<u32> = None;
    let mut i: usize = 0;
    while i < evs.len()
        invariant
            i <= evs@.len(),
            match tech {
                Some(t) => p@ == is_research(t),
                None => p@ == is_military_train(),
            },
            best == min_time(evs@.subrange(0, i as int), player, p@),
        decreases evs@.len() - i,
    {
        assert(evs@.subrange(0, i + 1).drop_last() == evs@.subrange(0, i as int));
        let e = evs[i];
        let hit = match tech {
            Some(t) => match e.kind {
                EvKind::Research(x) => x == t,
                _ => false,
            },
            None => match e.kind {
                EvKind::Train(u) => !is_eco_unit(u),
                _ => false,
            },
        };
        assert(hit == (p@)(e));
        if e.player == player && hit {
            best = match best {
                Some(t) => if e.t_ms < t { Some(e.t_ms) } else { Some(t) },
                None => Some(e.t_ms),
            };
        }
        i = i + 1;
    }
    assert(evs@.subrange(0, evs@.len() as int) == evs@);
    best
}

/// The earliest research of `tech` by `player`.
pub fn first_research(evs: &[Ev], player: i32, tech: u16) -> (r: Option<u32>)
    ensures
        r == min_time(evs@, player, is_research(tech)),
{
    first_matching(evs, player, Ghost(is_research(tech)), Some(tech))
}

/// `(feudal, castle, imperial)` age-up click times: the earliest research of 101, 102,
/// 103.
pub fn age_clicks(evs: &[Ev], player: i32) -> (r: (Option<u32>, Option<u32>, Option<u32>))
    ensures
        r == (
            min_time(evs@, player, is_research(101)),
            min_time(evs@, player, is_research(102)),
            min_time(evs@, player, is_research(103)),
        ),
{
    (first_research(evs, player, 101), first_research(evs, player, 102), first_research(evs, player, 103))
}

/// A villager queued by `until_ms`.
pub open spec fn is_vil_by(until_ms: u32) -> spec_fn(Ev) -> bool {
    |e: Ev| e.t_ms <= until_ms && e.kind == EvKind::Train(83)
}

/// Villagers `player` queued by `until_ms` (the count narrowed to `u32`).
pub fn vils_at(evs: &[Ev], player: i32, until_ms: u32) -> (r: u32)
    ensures
        r == count_evs(evs@, player, is_vil_by(until_ms)) as u32,
{
    let mut n: usize = 0;
    let mut i: usize = 0;
    while i < evs.len()
        invariant
            i <= evs@.len(),
            n == count_evs(evs@.subrange(0, i as int), player, is_vil_by(until_ms)),
        decreases evs@.len() - i,
    {
        assert(evs@.subrange(0, i + 1).drop_last() == evs@.subrange(0, i as int));
        proof {
            lemma_count_le(evs@.subrange(0, i + 1), player, is_vil_by(until_ms));
        }
        let e = evs[i];
        if e.player == player && e.t_ms <= until_ms && e.kind == EvKind::Train(83) {
            n = n + 1;
        }
        i = i + 1;
    }
    assert(evs@.subrange(0, evs@.len() as int) == evs@);
    n as u32
}

/// Idle town-center estimate over `[0, until_ms]`: the window minus 25 s per villager
/// queued, both saturating.
pub open spec fn idle_tc_spec(vils: nat, until_ms: u32) -> u32 {
    let busy = if vils * 25_000 > u32::MAX {
        u32::MAX as int
    } else {
        (vils * 25_000) as int
    };
    if until_ms >= busy {
        (until_ms - busy) as u32
    } else {
        0
    }
}

/// Crude idle town-center time over `[0, until_ms]`.
pub fn idle_tc_ms(evs: &[Ev], player: i32, until_ms: u32) -> (r: u32)
    ensures
        r == idle_tc_spec((count_evs(evs@, player, is_vil_by(until_ms)) as u32) as nat, until_ms),
{
    let vils = vils_at(evs, player, until_ms);
    let wide: u64 = vils as u64 * VIL_TRAIN_MS as u64;
    let busy: u32 = if wide > u32::MAX as u64 {
        u32::MAX
    } else {
        wide as u32
    };
    if until_ms >= busy {
        until_ms - busy
    } else {
        0
    }
}

/// A train of a non-economy unit.
pub open spec fn is_military_train() -> spec_fn(Ev) -> bool {
    |e: Ev| e.kind matches EvKind::Train(u) && !eco_unit(u)
}

/// The earliest non-economy unit `player` queued.
pub fn first_military_ms(evs: &[Ev], player: i32) -> (r: Option<u32>)
    ensures
        r == min_time(evs@, player, is_military_train()),
{
    first_matching(evs, player, Ghost(is_military_train()), None)
}

/// The watched techs `player` researched, in the watched list's order, each with its
/// earliest research time.
pub open spec fn eco_techs_spec(evs: Seq<Ev>, player: i32, ids: Seq<u16>) -> Seq<(u16, u32)>
    decreases ids.len(),
{
    if ids.len() == 0 {
        Seq::empty()
    } else {
        let prev = eco_techs_spec(evs, player, ids.drop_last());
        match min_time(evs, player, is_research(ids.last())) {
            Some(t) => prev.push((ids.last(), t)),
            None => prev,
        }
    }
}

/// Watched eco upgrades and their first-research time.
pub fn eco_tech_times(evs: &[Ev], player: i32) -> (r: Vec<(u16, u32)>)
    ensures
        r@ == eco_techs_spec(evs@, player, watched_tech_ids()),
{
    let techs = WATCHED_TECHS;
    let mut out: Vec<(u16, u32)> = Vec::new();
    let mut i: usize = 0;
    while i < 10
        invariant
            i <= 10,
            forall|j: int| 0 <= j < 10 ==> (#[trigger] techs@[j]).0 == watched_tech_ids()[j],
            out@ == eco_techs_spec(evs@, player, watched_tech_ids().subrange(0, i as int)),
        decreases 10 - i,
    {
        let id = techs[i].0;
        assert(watched_tech_ids().subrange(0, i + 1).drop_last() == watched_tech_ids().subrange(0, i as int));
        assert(watched_tech_ids().subrange(0, i + 1).last() == id);
        match first_research(evs, player, id) {
            Some(t) => out.push((id, t)),
            None => {},
        }
        i = i + 1;
    }
    assert(watched_tech_ids().subrange(0, 10) == watched_tech_ids());
    out
}

/// Whether a building id is an economy / military building.
pub open spec fn eco_building(id: i64) -> bool {
    id == 70 || id == 68 || id == 50 || id == 562 || id == 584 || id == 45 || id == 84 || id == 199
        || id == 109 || id == 621
}

/// Whether a building id is a military building.
pub open spec fn mil_building(id: i64) -> bool {
    id == 12 || id == 87 || id == 101 || id == 49 || id == 82 || id == 79
}

/// The eco/military class of one command: a train by its unit, a build by its building
/// set, an age-up or watched tech as eco; anything else unattributable.
pub open spec fn cmd_class(kind: EvKind) -> Option<bool> {
    match kind {
        EvKind::Train(u) => Some(eco_unit(u)),
        EvKind::Build { id, .. } => if eco_building(id) {
            Some(true)
        } else if mil_building(id) {
            Some(false)
        } else {
            None
        },
        EvKind::Research(t) => if t == 101 || t == 102 || t == 103 || watched_tech_ids().contains(t) {
            Some(true)
        } else {
            None
        },
        _ => None,
    }
}

/// Classifies one command as eco (`Some(true)`), military (`Some(false)`) or
/// unattributable (`None`).
pub fn classify_cmd(kind: &EvKind) -> (r: Option<bool>)
    ensures
        r == cmd_class(*kind),
{
    match *kind {
        EvKind::Train(u) => Some(is_eco_unit(u)),
        EvKind::Build { id, .. } => {
            if id == 70 || id == 68 || id == 50 || id == 562 || id == 584 || id == 45 || id == 84
                || id == 199 || id == 109 || id == 621 {
                Some(true)
            } else if id == 12 || id == 87 || id == 101 || id == 49 || id == 82 || id == 79 {
                Some(false)
            } else {
                None
            }
        },
        EvKind::Research(t) => {
            if t == 101 || t == 102 || t == 103 || is_watched_tech(t) {
                Some(true)
            } else {
                None
            }
        },
        _ => None,
    }
}

/// A build is military exactly for Barracks (12), Archery Range (87), Stable (101), Siege
/// Workshop (49), Castle (82) and Watch Tower (79); eco exactly for the economy buildings
/// (70, 68, 50, 562, 584, 45, 84, 199, 109, 621); unattributable otherwise. The position
/// plays no part.
pub proof fn lemma_build_classes(id: i64, x_bits: u32, y_bits: u32)
    ensures
        cmd_class(EvKind::Build { id, x_bits, y_bits }) == Some(false) <==> (id == 12 || id == 87
            || id == 101 || id == 49 || id == 82 || id == 79),
        cmd_class(EvKind::Build { id, x_bits, y_bits }) == Some(true) <==> (id == 70 || id == 68
            || id == 50 || id == 562 || id == 584 || id == 45 || id == 84 || id == 199 || id == 109
            || id == 621),
        cmd_class(EvKind::Build { id, x_bits, y_bits }) is None <==> !(id == 12 || id == 87
            || id == 101 || id == 49 || id == 82 || id == 79 || id == 70 || id == 68 || id == 50
            || id == 562 || id == 584 || id == 45 || id == 84 || id == 199 || id == 109
            || id == 621),
{
}

/// A market buy / sell.
pub open spec fn is_buy() -> spec_fn(Ev) -> bool {
    |e: Ev| e.kind == EvKind::MarketBuy
}

/// A market sell.
pub open spec fn is_sell() -> spec_fn(Ev) -> bool {
    |e: Ev| e.kind == EvKind::MarketSell
}

/// `player`'s market buy and sell command counts.
pub fn market_counts(evs: &[Ev], player: i32) -> (r: (u32, u32))
    requires
        evs@.len() <= u32::MAX,
    ensures
        r == (count_evs(evs@, player, is_buy()) as u32, count_evs(evs@, player, is_sell()) as u32),
{
    let mut buys: u32 = 0;
    let mut sells: u32 = 0;
    let mut i: usize = 0;
    while i < evs.len()
        invariant
            i <= evs@.len(),
            evs@.len() <= u32::MAX,
            buys == count_evs(evs@.subrange(0, i as int), player, is_buy()),
            sells == count_evs(evs@.subrange(0, i as int), player, is_sell()),
        decreases evs@.len() - i,
    {
        assert(evs@.subrange(0, i + 1).drop_last() == evs@.subrange(0, i as int));
        proof {
            lemma_count_le(evs@.subrange(0, i + 1), player, is_buy());
            lemma_count_le(evs@.subrange(0, i + 1), player, is_sell());
        }
        let e = evs[i];
        if e.player == player {
            match e.kind {
                EvKind::MarketBuy => buys = buys + 1,
                EvKind::MarketSell => sells = sells + 1,
                _ => {},
            }
        }
        i = i + 1;
    }
    assert(evs@.subrange(0, evs@.len() as int) == evs@);
    (buys, sells)
}

/// A train of an economy / non-economy unit in minute `m` or earlier.
pub open spec fn is_train_by_minute(eco: bool, m: int) -> spec_fn(Ev) -> bool {
    |e: Ev| e.kind matches EvKind::Train(u) && eco_unit(u) == eco && (e.t_ms / 60_000) as int <= m
}

/// Cumulative eco and military units queued per minute, for the minutes
/// `0..=duration_ms / 60000`: entry `m` counts the trains in minute `m` or earlier.
pub fn production_series(evs: &[Ev], player: i32, duration_ms: u32) -> (r: (Vec<u32>, Vec<u32>))
    requires
        evs@.len() <= u32::MAX,
    ensures
        r.0@.len() == duration_ms / 60_000 + 1,
        r.1@.len() == duration_ms / 60_000 + 1,
        forall|m: int| 0 <= m < r.0@.len() ==> r.0@[m] == count_evs(evs@, player, is_train_by_minute(true, m)),
        forall|m: int| 0 <= m < r.1@.len() ==> r.1@[m] == count_evs(evs@, player, is_train_by_minute(false, m)),
{
    let mins: usize = (duration_ms / 60_000) as usize + 1;
    let mut eco: Vec<u32> = Vec::new();
    let mut mil: Vec<u32> = Vec::new();
    let mut m: usize = 0;
    while m < mins
        invariant
            m <= mins,
            mins == duration_ms / 60_000 + 1,
            evs@.len() <= u32::MAX,
            eco@.len() == m,
            mil@.len() == m,
            forall|k: int| 0 <= k < m ==> eco@[k] == count_evs(evs@, player, is_train_by_minute(true, k)),
            forall|k: int| 0 <= k < m ==> mil@[k] == count_evs(evs@, player, is_train_by_minute(false, k)),
        decreases mins - m,
    {
        let mut e_n: u32 = 0;
        let mut m_n: u32 = 0;
        let mut i: usize = 0;
        while i < evs.len()
            invariant
                i <= evs@.len(),
                evs@.len() <= u32::MAX,
                e_n == count_evs(evs@.subrange(0, i as int), player, is_train_by_minute(true, m as int)),
                m_n == count_evs(evs@.subrange(0, i as int), player, is_train_by_minute(false, m as int)),
            decreases evs@.len() - i,
        {
            assert(evs@.subrange(0, i + 1).drop_last() == evs@.subrange(0, i as int));
            proof {
                lemma_count_le(evs@.subrange(0, i + 1), player, is_train_by_minute(true, m as int));
                lemma_count_le(evs@.subrange(0, i + 1), player, is_train_by_minute(false, m as int));
            }
            let e = evs[i];
            if e.player == player {
                match e.kind {
                    EvKind::Train(u) => {
                        if (e.t_ms / 60_000) as usize <= m {
                            if is_eco_unit(u) {
                                e_n = e_n + 1;
                            } else {
                                m_n = m_n + 1;
                            }
                        }
                    },
                    _ => {},
                }
            }
            i = i + 1;
        }
        assert(evs@.subrange(0, evs@.len() as int) == evs@);
        eco.push(e_n);
        mil.push(m_n);
        m = m + 1;
    }
    (eco, mil)
}

// --- the opening ----------------------------------------------------------------------

/// Whether unit `u` belongs to feudal-opening line `k`: scouts, archers, skirmishers,
/// eagles, the militia line, spearmen.
pub open spec fn opener_line(k: int, u: u16) -> bool {
    if k == 0 {
        u == 448
    } else if k == 1 {
        u == 4
    } else if k == 2 {
        u == 7
    } else if k == 3 {
        u == 751
    } else if k == 4 {
        u == 74 || u == 75
    } else if k == 5 {
        u == 93
    } else {
        false
    }
}

/// The tag of feudal-opening line `k`.
pub open spec fn opener_tag(k: int) -> Seq<char> {
    if k == 0 {
        "Scouts"@
    } else if k == 1 {
        "Archers"@
    } else if k == 2 {
        "Skirms"@
    } else if k == 3 {
        "Eagles"@
    } else if k == 4 {
        "M@A"@
    } else {
        "Spears"@
    }
}

fn in_opener_line(k: usize, u: u16) -> (r: bool)
    requires
        k < 6,
    ensures
        r == opener_line(k as int, u),
{
    if k == 0 {
        u == 448
    } else if k == 1 {
        u == 4
    } else if k == 2 {
        u == 7
    } else if k == 3 {
        u == 751
    } else if k == 4 {
        u == 74 || u == 75
    } else {
        u == 93
    }
}

fn opener_tag_chars(k: usize) -> (r: Vec<char>)
    requires
        k < 6,
    ensures
        r@ == opener_tag(k as int),
{
    if k == 0 {
        chars_of("Scouts")
    } else if k == 1 {
        chars_of("Archers")
    } else if k == 2 {
        chars_of("Skirms")
    } else if k == 3 {
        chars_of("Eagles")
    } else if k == 4 {
        chars_of("M@A")
    } else {
        chars_of("Spears")
    }
}

/// A train of opening line `k` at a time in `[lo, hi)`.
pub open spec fn line_train_in(k: int, lo: int, hi: int) -> spec_fn(Ev) -> bool {
    |e: Ev| lo <= e.t_ms < hi && (e.kind matches EvKind::Train(u) && opener_line(k, u))
}

/// A militia-line train before `feudal`.
pub open spec fn dark_militia(feudal: u32) -> spec_fn(Ev) -> bool {
    |e: Ev| e.t_ms < feudal && (e.kind matches EvKind::Train(u) && (u == 74 || u == 75))
}

/// `(first train time, line)` of each of the first `n` opening lines that `player`
/// trained in `[lo, hi)`, in line order.
pub open spec fn opened_lines(evs: Seq<Ev>, player: i32, lo: int, hi: int, n: int) -> Seq<(u32, usize)>
    decreases n,
{
    if n <= 0 {
        Seq::empty()
    } else {
        let prev = opened_lines(evs, player, lo, hi, n - 1);
        match min_time(evs, player, line_train_in(n - 1, lo, hi)) {
            Some(t) => prev.push((t, (n - 1) as usize)),
            None => prev,
        }
    }
}

/// The position of the earliest entry, the first one among equally early entries.
pub open spec fn earliest_index(s: Seq<(u32, usize)>) -> int
    decreases s.len(),
{
    if s.len() <= 1 {
        0
    } else {
        let i = earliest_index(s.drop_last());
        if s.last().0 < s[i].0 {
            s.len() - 1
        } else {
            i
        }
    }
}

proof fn lemma_earliest_index_bound(s: Seq<(u32, usize)>)
    requires
        s.len() >= 1,
    ensures
        0 <= earliest_index(s) < s.len(),
    decreases s.len(),
{
    if s.len() > 1 {
        lemma_earliest_index_bound(s.drop_last());
    }
}

/// The opening's body: the first two distinct lines opened, in train order ("A into B");
/// "Fast Castle" when no line opened but Castle was reached; nothing otherwise.
pub open spec fn opening_body(opened: Seq<(u32, usize)>, castle_known: bool) -> Option<Seq<char>> {
    if opened.len() == 0 {
        if castle_known {
            Some("Fast Castle"@)
        } else {
            None
        }
    } else {
        let i = earliest_index(opened);
        let first = opener_tag(opened[i].1 as int);
        if opened.len() == 1 {
            Some(first)
        } else {
            let rest = opened.remove(i);
            Some(first + " into "@ + opener_tag(rest[earliest_index(rest)].1 as int))
        }
    }
}

/// The opening tag: none without a feudal click; else the body of the lines opened in
/// `[feudal, castle)` (castle defaulting to feudal + 12 min), prefixed "Drush + " when
/// three or more militia were queued before feudal.
pub open spec fn opening_spec(evs: Seq<Ev>, player: i32, feudal_ms: Option<u32>, castle_ms: Option<u32>) -> Option<Seq<char>> {
    match feudal_ms {
        None => None,
        Some(f) => {
            let hi: int = match castle_ms {
                Some(c) => c as int,
                None => f + 720_000,
            };
            match opening_body(opened_lines(evs, player, f as int, hi, 6), castle_ms is Some) {
                None => None,
                Some(b) => if count_evs(evs, player, dark_militia(f)) >= 3 {
                    Some("Drush + "@ + b)
                } else {
                    Some(b)
                },
            }
        },
    }
}

fn first_line_train(evs: &[Ev], player: i32, k: usize, lo: u32, hi: u32) -> (r: Option<u32>)
    requires
        k < 6,
    ensures
        r == min_time(evs@, player, line_train_in(k as int, lo as int, hi as int)),
{
    let ghost p = line_train_in(k as int, lo as int, hi as int);
    let mut best: Option<u32> = None;
    let mut i: usize = 0;
    while i < evs.len()
        invariant
            i <= evs@.len(),
            k < 6,
            p == line_train_in(k as int, lo as int, hi as int),
            best == min_time(evs@.subrange(0, i as int), player, p),
        decreases evs@.len() - i,
    {
        assert(evs@.subrange(0, i + 1).drop_last() == evs@.subrange(0, i as int));
        let e = evs[i];
        let hit = lo <= e.t_ms && e.t_ms < hi && match e.kind {
            EvKind::Train(u) => in_opener_line(k, u),
            _ => false,
        };
        assert(hit == p(e));
        if e.player == player && hit {
            best = match best {
                Some(t) => if e.t_ms < t { Some(e.t_ms) } else { Some(t) },
                None => Some(e.t_ms),
            };
        }
        i = i + 1;
    }
    assert(evs@.subrange(0, evs@.len() as int) == evs@);
    best
}

fn count_dark_militia(evs: &[Ev], player: i32, feudal: u32) -> (r: usize)
    ensures
        r == count_evs(evs@, player, dark_militia(feudal)),
{
    let mut n: usize = 0;
    let mut i: usize = 0;
    while i < evs.len()
        invariant
            i <= evs@.len(),
            n == count_evs(evs@.subrange(0, i as int), player, dark_militia(feudal)),
        decreases evs@.len() - i,
    {
        assert(evs@.subrange(0, i + 1).drop_last() == evs@.subrange(0, i as int));
        proof {
            lemma_count_le(evs@.subrange(0, i + 1), player, dark_militia(feudal));
        }
        let e = evs[i];
        if e.player == player && e.t_ms < feudal {
            match e.kind {
                EvKind::Train(u) => {
                    if u == 74 || u == 75 {
                        n = n + 1;
                    }
                },
                _ => {},
            }
        }
        i = i + 1;
    }
    assert(evs@.subrange(0, evs@.len() as int) == evs@);
    n
}

fn earliest_pos(v: &Vec<(u32, usize)>) -> (i: usize)
    requires
        v@.len() >= 1,
    ensures
        i == earliest_index(v@),
        i < v@.len(),
{
    let mut best: usize = 0;
    let mut j: usize = 1;
    while j < v.len()
        invariant
            1 <= j <= v@.len(),
            best == earliest_index(v@.subrange(0, j as int)),
            best < j,
        decreases v@.len() - j,
    {
        let ghost s = v@.subrange(0, j + 1);
        assert(s.drop_last() == v@.subrange(0, j as int));
        assert(s[best as int] == v@[best as int]);
        if v[j].0 < v[best].0 {
            best = j;
        }
        j = j + 1;
    }
    assert(v@.subrange(0, v@.len() as int) == v@);
    best
}

fn without(v: &Vec<(u32, usize)>, i: usize) -> (r: Vec<(u32, usize)>)
    requires
        i < v@.len(),
    ensures
        r@ == v@.remove(i as int),
{
    let mut out: Vec<(u32, usize)> = Vec::new();
    let mut j: usize = 0;
    while j < v.len()
        invariant
            j <= v@.len(),
            i < v@.len(),
            out@ == (if j <= i {
                v@.subrange(0, j as int)
            } else {
                v@.subrange(0, i as int) + v@.subrange(i + 1, j as int)
            }),
        decreases v@.len() - j,
    {
        if j != i {
            out.push(v[j]);
        }
        j = j + 1;
    }
    assert(v@.remove(i as int) == v@.subrange(0, i as int) + v@.subrange(i + 1, v@.len() as int));
    out
}

/// Rule-based opening tag: three or more dark-age militia make a "Drush + " prefix; the
/// body names the first two distinct unit lines opened in the Feudal window, in train
/// order ("Scouts into Archers"); with no feudal military but Castle reached it is
/// "Fast Castle". `None` when there is nothing to say: no Feudal click, or a passive
/// Feudal with no Castle.
pub fn classify_opening(evs: &[Ev], player: i32, feudal_ms: Option<u32>, castle_ms: Option<u32>) -> (r: Option<String>)
    requires
        feudal_ms matches Some(f) ==> f <= u32::MAX - 720_000,
    ensures
        match r {
            Some(s) => opening_spec(evs@, player, feudal_ms, castle_ms) == Some(s@),
            None => opening_spec(evs@, player, feudal_ms, castle_ms) is None,
        },
{
    let feudal = match feudal_ms {
        Some(f) => f,
        None => return None,
    };
    let default_castle: u32 = feudal + 720_000;
    let hi: u32 = match castle_ms {
        Some(c) => c,
        None => default_castle,
    };
    let dark = count_dark_militia(evs, player, feudal);
    let mut opened: Vec<(u32, usize)> = Vec::new();
    let mut k: usize = 0;
    while k < 6
        invariant
            k <= 6,
            opened@ == opened_lines(evs@, player, feudal as int, hi as int, k as int),
            forall|j: int| 0 <= j < opened@.len() ==> (#[trigger] opened@[j]).1 < k,
        decreases 6 - k,
    {
        match first_line_train(evs, player, k, feudal, hi) {
            Some(t) => opened.push((t, k)),
            None => {},
        }
        k = k + 1;
    }
    let ghost body_spec = opening_body(opened@, castle_ms is Some);
    let body: Vec<char> = if opened.len() == 0 {
        if castle_ms.is_some() {
            chars_of("Fast Castle")
        } else {
            return None;
        }
    } else {
        let i = earliest_pos(&opened);
        let mut b = opener_tag_chars(opened[i].1);
        if opened.len() >= 2 {
            let rest = without(&opened, i);
            proof {
                lemma_earliest_index_bound(rest@);
                assert forall|j: int| 0 <= j < rest@.len() implies (#[trigger] rest@[j]).1 < 6 by {
                    if j < i {
                        assert(rest@[j] == opened@[j]);
                    } else {
                        assert(rest@[j] == opened@[j + 1]);
                    }
                }
            }
            let j = earliest_pos(&rest);
            let sep = chars_of(" into ");
            push_all(&mut b, &sep);
            let second = opener_tag_chars(rest[j].1);
            push_all(&mut b, &second);
        }
        b
    };
    assert(body_spec == Some(body@));
    if dark >= 3 {
        let mut out = chars_of("Drush + ");
        push_all(&mut out, &body);
        Some(string_of(&out))
    } else {
        Some(string_of(&body))
    }
}

// --- laws ------------------------------------------------------------------------------

proof fn lemma_count_mono(evs: Seq<Ev>, player: i32, eco: bool, m1: int, m2: int)
    requires
        m1 <= m2,
    ensures
        count_evs(evs, player, is_train_by_minute(eco, m1)) <= count_evs(evs, player, is_train_by_minute(eco, m2)),
    decreases evs.len(),
{
    if evs.len() > 0 {
        lemma_count_mono(evs.drop_last(), player, eco, m1, m2);
    }
}

/// The production series are cumulative: a later minute never counts fewer units queued.
pub proof fn lemma_production_cumulative(evs: Seq<Ev>, player: i32, eco: bool, m1: int, m2: int)
    requires
        m1 <= m2,
    ensures
        count_evs(evs, player, is_train_by_minute(eco, m1)) <= count_evs(evs, player, is_train_by_minute(eco, m2)),
{
    lemma_count_mono(evs, player, eco, m1, m2);
}

/// The idle town-center estimate never exceeds the window it is taken over.
pub proof fn lemma_idle_within_window(vils: nat, until_ms: u32)
    ensures
        idle_tc_spec(vils, until_ms) <= until_ms,
{
}

/// Villagers queued by a later time are at least those queued by an earlier one.
pub proof fn lemma_vils_monotone(evs: Seq<Ev>, player: i32, t1: u32, t2: u32)
    requires
        t1 <= t2,
    ensures
        count_evs(evs, player, is_vil_by(t1)) <= count_evs(evs, player, is_vil_by(t2)),
    decreases evs.len(),
{
    if evs.len() > 0 {
        lemma_vils_monotone(evs.drop_last(), player, t1, t2);
    }
}

} // verus!
