//! Per-player facts derived from a parsed replay's own events: the opening, the age-up
//! click times, the units queued per unit id, the watched techs' first clicks, and the
//! command count (the timing and rate conversions to seconds live with the caller).
use vstd::prelude::*;

use crate::replay::analyze::metrics::{opener_line, opener_tag};
use crate::replay::config::{age_tech_id, tech_of_age};
use crate::replay::parsed::error::Error;
use crate::replay::parsed::ids::{GameUnitId, OpeningKind, ProfileId, TechId};
use crate::replay::parsed::types::{ParsedReplay, ReplayEvent};
use crate::text::{chars_of, push_all, str_eq, string_of};

verus! {

/// The earliest time of an event satisfying `p`.
pub open spec fn min_t(evs: Seq<ReplayEvent>, p: spec_fn(ReplayEvent) -> bool) -> Option<i32>
    decreases evs.len(),
{
    if evs.len() == 0 {
        None
    } else {
        let prev = min_t(evs.drop_last(), p);
        let e = evs.last();
        if p(e) {
            match prev {
                Some(t) => if e.t_ms < t { Some(e.t_ms) } else { Some(t) },
                None => Some(e.t_ms),
            }
        } else {
            prev
        }
    }
}

/// The number of events satisfying `p`.
pub open spec fn count_r(evs: Seq<ReplayEvent>, p: spec_fn(ReplayEvent) -> bool) -> nat
    decreases evs.len(),
{
    if evs.len() == 0 {
        0
    } else {
        count_r(evs.drop_last(), p) + if p(evs.last()) {
            1nat
        } else {
            0nat
        }
    }
}

proof fn lemma_count_r_le(evs: Seq<ReplayEvent>, p: spec_fn(ReplayEvent) -> bool)
    ensures
        count_r(evs, p) <= evs.len(),
    decreases evs.len(),
{
    if evs.len() > 0 {
        lemma_count_r_le(evs.drop_last(), p);
    }
}

/// A research of `tech` by player `pn`.
pub open spec fn research_of(pn: i16, tech: u16) -> spec_fn(ReplayEvent) -> bool {
    |e: ReplayEvent| e.player_number == pn && e.kind@ == "research"@ && e.target_id == Some(tech as i64)
}

/// The earliest click of `player_number`'s research of `tech_id`.
pub fn first_research_ms(evs: &[ReplayEvent], player_number: i16, tech_id: u16) -> (r: Option<i32>)
    ensures
        r == min_t(evs@, research_of(player_number, tech_id)),
{
    let ghost p = research_of(player_number, tech_id);
    let target: i64 = tech_id as i64;
    let mut best: Option<i32> = None;
    let mut i: usize = 0;
    while i < evs.len()
        invariant
            i <= evs@.len(),
            p == research_of(player_number, tech_id),
            target == tech_id as i64,
            best == min_t(evs@.subrange(0, i as int), p),
        decreases evs@.len() - i,
    {
        assert(evs@.subrange(0, i + 1).drop_last() == evs@.subrange(0, i as int));
        let e = &evs[i];
        let hit = e.player_number == player_number && str_eq(e.kind.as_str(), "research")
            && e.target_id == Some(target);
        assert(hit == p(*e));
        if hit {
            best = match best {
                Some(t) => if e.t_ms < t { Some(e.t_ms) } else { Some(t) },
                None => Some(e.t_ms),
            };
        }
        i = i + 1;
    }
    assert(evs@.subrange(0, evs@.len() as int) == evs@);
    best
}

/// The first age-up click of `age` (`feudal`, `castle`, `imperial`); `None` for another
/// name.
pub fn first_age_click(evs: &[ReplayEvent], player_number: i16, age: &str) -> (r: Option<i32>)
    ensures
        r == match tech_of_age(age@) {
            Some(t) => min_t(evs@, research_of(player_number, t)),
            None => None,
        },
{
    match age_tech_id(age) {
        Some(t) => first_research_ms(evs, player_number, t),
        None => None,
    }
}

/// `(feudal, castle, imperial)` age-up click times of one player.
pub fn age_clicks(evs: &[ReplayEvent], player_number: i16) -> (r: (Option<i32>, Option<i32>, Option<i32>))
    ensures
        r == (
            min_t(evs@, research_of(player_number, 101)),
            min_t(evs@, research_of(player_number, 102)),
            min_t(evs@, research_of(player_number, 103)),
        ),
{
    proof {
        reveal_strlit("feudal");
        reveal_strlit("castle");
        reveal_strlit("imperial");
        assert("feudal"@[0] != "castle"@[0]);
        assert("feudal"@.len() != "imperial"@.len());
        assert("castle"@.len() != "imperial"@.len());
    }
    (
        first_age_click(evs, player_number, "feudal"),
        first_age_click(evs, player_number, "castle"),
        first_age_click(evs, player_number, "imperial"),
    )
}

/// A train of a unit of opening line `k` (see [`opener_line`]); for `k == 6`, of the
/// militia line. The target must be a valid unit id.
pub open spec fn trains_line(e: ReplayEvent, k: int) -> bool {
    &&& e.kind@ == "train"@
    &&& e.target_id matches Some(t)
    &&& 0 <= t <= 65535
    &&& if k == 6 {
        t == 74 || t == 75
    } else {
        opener_line(k, t as u16)
    }
}

fn trains(e: &ReplayEvent, k: usize) -> (r: bool)
    requires
        k <= 6,
    ensures
        r == trains_line(*e, k as int),
{
    if !str_eq(e.kind.as_str(), "train") {
        return false;
    }
    match e.target_id {
        Some(t) => {
            if t < 0 || t > 65535 {
                false
            } else {
                let u: u16 = t as u16;
                if k == 6 {
                    u == 74 || u == 75
                } else if k == 0 {
                    u == 448
                } else if k == 1 {
                    u == 4
                } else if k == 2 {
                    u == 7
                } else if k == 3 {
                    u == 751
                } else if k == 4 {
                    u == 74 || u == 75
                } else {
                    u == 93
                }
            }
        },
        None => false,
    }
}

/// The kind a rich opening tag of line `k` reconciles onto.
pub open spec fn line_kind(k: int) -> OpeningKind {
    if k == 0 {
        OpeningKind::Scouts
    } else if k == 1 {
        OpeningKind::Archers
    } else if k == 2 {
        OpeningKind::Skirms
    } else if k == 3 {
        OpeningKind::Eagles
    } else if k == 4 {
        OpeningKind::ManAtArms
    } else {
        OpeningKind::Spears
    }
}

/// A train of line `k` by `pn` at a time in `[lo, hi)`.
pub open spec fn line_in(pn: i16, k: int, lo: int, hi: int) -> spec_fn(ReplayEvent) -> bool {
    |e: ReplayEvent| e.player_number == pn && lo <= e.t_ms < hi && trains_line(e, k)
}

/// A militia-line train by `pn` before `feudal`.
pub open spec fn militia_before(pn: i16, feudal: i32) -> spec_fn(ReplayEvent) -> bool {
    |e: ReplayEvent| e.player_number == pn && e.t_ms < feudal && trains_line(e, 6)
}

/// `(first train time, line)` of each of the first `n` lines `pn` trained in `[lo, hi)`,
/// in line order.
pub open spec fn opened(evs: Seq<ReplayEvent>, pn: i16, lo: int, hi: int, n: int) -> Seq<(i32, usize)>
    decreases n,
{
    if n <= 0 {
        Seq::empty()
    } else {
        let prev = opened(evs, pn, lo, hi, n - 1);
        match min_t(evs, line_in(pn, n - 1, lo, hi)) {
            Some(t) => prev.push((t, (n - 1) as usize)),
            None => prev,
        }
    }
}

/// The position of the earliest entry, the first among equally early ones.
pub open spec fn first_opened(s: Seq<(i32, usize)>) -> int
    decreases s.len(),
{
    if s.len() <= 1 {
        0
    } else {
        let i = first_opened(s.drop_last());
        if s.last().0 < s[i].0 {
            s.len() - 1
        } else {
            i
        }
    }
}

proof fn lemma_first_opened_bound(s: Seq<(i32, usize)>)
    requires
        s.len() >= 1,
    ensures
        0 <= first_opened(s) < s.len(),
    decreases s.len(),
{
    if s.len() > 1 {
        lemma_first_opened_bound(s.drop_last());
    }
}

/// The opening's body and its kind: the first two lines opened, in train order ("A into
/// B", the kind of A); "Fast Castle" when none opened but Castle was reached.
pub open spec fn body_of(o: Seq<(i32, usize)>, castle_known: bool) -> Option<(Seq<char>, OpeningKind)> {
    if o.len() == 0 {
        if castle_known {
            Some(("Fast Castle"@, OpeningKind::FastCastle))
        } else {
            None
        }
    } else {
        let i = first_opened(o);
        let first = opener_tag(o[i].1 as int);
        let kind = line_kind(o[i].1 as int);
        if o.len() == 1 {
            Some((first, kind))
        } else {
            let rest = o.remove(i);
            Some((first + " into "@ + opener_tag(rest[first_opened(rest)].1 as int), kind))
        }
    }
}

/// The opening tag and kind of one player: none without a feudal click; else the body of
/// the lines opened in `[feudal, castle)` (castle defaulting to feudal + 12 min), as
/// "Drush + body" with kind `Drush` after three or more dark-age militia.
pub open spec fn opening_of(evs: Seq<ReplayEvent>, pn: i16, feudal_ms: Option<i32>, castle_ms: Option<i32>) -> Option<(Seq<char>, OpeningKind)> {
    match feudal_ms {
        None => None,
        Some(f) => {
            let hi: int = match castle_ms {
                Some(c) => c as int,
                None => f + 720_000,
            };
            match body_of(opened(evs, pn, f as int, hi, 6), castle_ms is Some) {
                None => None,
                Some((b, k)) => if count_r(evs, militia_before(pn, f)) >= 3 {
                    Some(("Drush + "@ + b, OpeningKind::Drush))
                } else {
                    Some((b, k))
                },
            }
        },
    }
}

fn first_line_train(evs: &[ReplayEvent], pn: i16, k: usize, lo: i32, hi: i32) -> (r: Option<i32>)
    requires
        k < 6,
    ensures
        r == min_t(evs@, line_in(pn, k as int, lo as int, hi as int)),
{
    let ghost p = line_in(pn, k as int, lo as int, hi as int);
    let mut best: Option<i32> = None;
    let mut i: usize = 0;
    while i < evs.len()
        invariant
            i <= evs@.len(),
            k < 6,
            p == line_in(pn, k as int, lo as int, hi as int),
            best == min_t(evs@.subrange(0, i as int), p),
        decreases evs@.len() - i,
    {
        assert(evs@.subrange(0, i + 1).drop_last() == evs@.subrange(0, i as int));
        let e = &evs[i];
        let hit = e.player_number == pn && lo <= e.t_ms && e.t_ms < hi && trains(e, k);
        assert(hit == p(*e));
        if hit {
            best = match best {
                Some(t) => if e.t_ms < t { Some(e.t_ms) } else { Some(t) },
                None => Some(e.t_ms),
            };
        }
        i = i + 1;
    }
    assert(evs@.subrange(0, evs@.len() as int) == evs@);
    best
}

fn count_militia(evs: &[ReplayEvent], pn: i16, feudal: i32) -> (r: usize)
    ensures
        r == count_r(evs@, militia_before(pn, feudal)),
{
    let ghost p = militia_before(pn, feudal);
    let mut n: usize = 0;
    let mut i: usize = 0;
    while i < evs.len()
        invariant
            i <= evs@.len(),
            p == militia_before(pn, feudal),
            n == count_r(evs@.subrange(0, i as int), p),
        decreases evs@.len() - i,
    {
        assert(evs@.subrange(0, i + 1).drop_last() == evs@.subrange(0, i as int));
        proof {
            lemma_count_r_le(evs@.subrange(0, i + 1), p);
        }
        let e = &evs[i];
        if e.player_number == pn && e.t_ms < feudal && trains(e, 6) {
            n = n + 1;
        }
        i = i + 1;
    }
    assert(evs@.subrange(0, evs@.len() as int) == evs@);
    n
}

fn earliest_at(v: &Vec<(i32, usize)>) -> (i: usize)
    requires
        v@.len() >= 1,
    ensures
        i == first_opened(v@),
        i < v@.len(),
{
    let mut best: usize = 0;
    let mut j: usize = 1;
    while j < v.len()
        invariant
            1 <= j <= v@.len(),
            best == first_opened(v@.subrange(0, j as int)),
            best < j,
        decreases v@.len() - j,
    {
        let ghost s = v@.subrange(0, j + 1);
        assert(s.drop_last() == v@.subrange(0, j as int));
        assert(s[best as int] == v@[best as int]);
        if v[j].0 < v[best].0 {
            best = j;
        }
        j = j + 1;
    }
    assert(v@.subrange(0, v@.len() as int) == v@);
    best
}

fn remove_at(v: &Vec<(i32, usize)>, i: usize) -> (r: Vec<(i32, usize)>)
    requires
        i < v@.len(),
    ensures
        r@ == v@.remove(i as int),
{
    let mut out: Vec<(i32, usize)> = Vec::new();
    let mut j: usize = 0;
    while j < v.len()
        invariant
            j <= v@.len(),
            i < v@.len(),
            out@ == (if j <= i {
                v@.subrange(0, j as int)
            } else {
                v@.subrange(0, i as int) + v@.subrange(i + 1, j as int)
            }),
        decreases v@.len() - j,
    {
        if j != i {
            out.push(v[j]);
        }
        j = j + 1;
    }
    assert(v@.remove(i as int) == v@.subrange(0, i as int) + v@.subrange(i + 1, v@.len() as int));
    out
}

fn line_tag(k: usize) -> (r: Vec<char>)
    requires
        k < 6,
    ensures
        r@ == opener_tag(k as int),
{
    if k == 0 {
        chars_of("Scouts")
    } else if k == 1 {
        chars_of("Archers")
    } else if k == 2 {
        chars_of("Skirms")
    } else if k == 3 {
        chars_of("Eagles")
    } else if k == 4 {
        chars_of("M@A")
    } else {
        chars_of("Spears")
    }
}

fn kind_of_line(k: usize) -> (r: OpeningKind)
    ensures
        r == line_kind(k as int),
{
    if k == 0 {
        OpeningKind::Scouts
    } else if k == 1 {
        OpeningKind::Archers
    } else if k == 2 {
        OpeningKind::Skirms
    } else if k == 3 {
        OpeningKind::Eagles
    } else if k == 4 {
        OpeningKind::ManAtArms
    } else {
        OpeningKind::Spears
    }
}

/// Rule-based opening tag, paired with the [`OpeningKind`] it reconciles onto: three or
/// more dark-age militia make a "Drush + " prefix (kind `Drush`); the body names the first
/// two distinct lines opened in the Feudal window in train order (kind of the first);
/// with none opened but Castle reached it is "Fast Castle". `None` without a feudal click,
/// or for a passive Feudal with no Castle.
pub fn classify_opening(evs: &[ReplayEvent], player_number: i16, feudal_ms: Option<i32>, castle_ms: Option<i32>) -> (r: Option<(String, OpeningKind)>)
    requires
        feudal_ms matches Some(f) ==> f <= i32::MAX - 720_000,
    ensures
        match r {
            Some((s, k)) => opening_of(evs@, player_number, feudal_ms, castle_ms) == Some((s@, k)),
            None => opening_of(evs@, player_number, feudal_ms, castle_ms) is None,
        },
{
    let feudal = match feudal_ms {
        Some(f) => f,
        None => return None,
    };
    let default_castle: i32 = feudal + 720_000;
    let hi: i32 = match castle_ms {
        Some(c) => c,
        None => default_castle,
    };
    let dark = count_militia(evs, player_number, feudal);
    let mut lines: Vec<(i32, usize)> = Vec::new();
    let mut k: usize = 0;
    while k < 6
        invariant
            k <= 6,
            lines@ == opened(evs@, player_number, feudal as int, hi as int, k as int),
            forall|j: int| 0 <= j < lines@.len() ==> (#[trigger] lines@[j]).1 < k,
        decreases 6 - k,
    {
        match first_line_train(evs, player_number, k, feudal, hi) {
            Some(t) => lines.push((t, k)),
            None => {},
        }
        k = k + 1;
    }
    let ghost body_spec = body_of(lines@, castle_ms is Some);
    let (body, kind): (Vec<char>, OpeningKind) = if lines.len() == 0 {
        if castle_ms.is_some() {
            (chars_of("Fast Castle"), OpeningKind::FastCastle)
        } else {
            return None;
        }
    } else {
        let i = earliest_at(&lines);
        let mut b = line_tag(lines[i].1);
        let kd = kind_of_line(lines[i].1);
        if lines.len() >= 2 {
            let rest = remove_at(&lines, i);
            proof {
                lemma_first_opened_bound(rest@);
                assert forall|j: int| 0 <= j < rest@.len() implies (#[trigger] rest@[j]).1 < 6 by {
                    if j < i {
                        assert(rest@[j] == lines@[j]);
                    } else {
                        assert(rest@[j] == lines@[j + 1]);
                    }
                }
            }
            let j = earliest_at(&rest);
            let sep = chars_of(" into ");
            push_all(&mut b, &sep);
            let second = line_tag(rest[j].1);
            push_all(&mut b, &second);
        }
        (b, kd)
    };
    assert(body_spec == Some((body@, kind)));
    if dark >= 3 {
        let mut out = chars_of("Drush + ");
        push_all(&mut out, &body);
        Some((string_of(&out), OpeningKind::Drush))
    } else {
        Some((string_of(&body), kind))
    }
}

// --- units queued per unit id ----------------------------------------------------------

/// A train by `pn` (with a target).
pub open spec fn is_train_by(e: ReplayEvent, pn: i16) -> bool {
    e.player_number == pn && e.kind@ == "train"@ && e.target_id is Some
}

/// The units one train event queues: its amount, at least 1 (absent counts as 1).
pub open spec fn queued(e: ReplayEvent) -> int {
    match e.amount {
        Some(a) => if a >= 1 {
            a as int
        } else {
            1
        },
        None => 1,
    }
}

/// The units `pn` queued of unit id `u`.
pub open spec fn unit_total(evs: Seq<ReplayEvent>, pn: i16, u: i64) -> int
    decreases evs.len(),
{
    if evs.len() == 0 {
        0
    } else {
        unit_total(evs.drop_last(), pn, u) + if is_train_by(evs.last(), pn) && evs.last().target_id
            == Some(u) {
            queued(evs.last())
        } else {
            0
        }
    }
}

/// Whether `pn` queued unit id `u` at all.
pub open spec fn trained_unit(evs: Seq<ReplayEvent>, pn: i16, u: i64) -> bool {
    exists|i: int| 0 <= i < evs.len() && is_train_by(#[trigger] evs[i], pn) && evs[i].target_id == Some(u)
}

/// Whether a train event of `pn` has a unit id that does not fit `i32`.
pub open spec fn unit_id_overflow(evs: Seq<ReplayEvent>, pn: i16) -> bool {
    exists|i: int|
        0 <= i < evs.len() && is_train_by(#[trigger] evs[i], pn) && !(i32::MIN <= evs[i].target_id->0 <= i32::MAX)
}

proof fn lemma_unit_total_nonneg(evs: Seq<ReplayEvent>, pn: i16, u: i64)
    ensures
        unit_total(evs, pn, u) >= 0,
        unit_total(evs, pn, u) > 0 <==> trained_unit(evs, pn, u),
    decreases evs.len(),
{
    if evs.len() > 0 {
        lemma_unit_total_nonneg(evs.drop_last(), pn, u);
        let w = evs.drop_last();
        if trained_unit(w, pn, u) {
            let i = choose|i: int| 0 <= i < w.len() && is_train_by(#[trigger] w[i], pn) && w[i].target_id == Some(u);
            assert(evs[i] == w[i]);
        }
        if trained_unit(evs, pn, u) && !(is_train_by(evs.last(), pn) && evs.last().target_id == Some(u)) {
            let i = choose|i: int| 0 <= i < evs.len() && is_train_by(#[trigger] evs[i], pn) && evs[i].target_id == Some(u);
            assert(i < w.len());
            assert(w[i] == evs[i]);
        }
        if is_train_by(evs.last(), pn) && evs.last().target_id == Some(u) {
            assert(is_train_by(evs[evs.len() - 1], pn));
        }
    }
}

/// Whether `v` lists, in strictly increasing unit id order, exactly the units `pn` queued
/// with their totals.
pub open spec fn units_listed(v: Seq<(GameUnitId, i32)>, evs: Seq<ReplayEvent>, pn: i16) -> bool {
    &&& forall|a: int, b: int| 0 <= a < b < v.len() ==> (#[trigger] v[a]).0.0 < (#[trigger] v[b]).0.0
    &&& forall|a: int| 0 <= a < v.len() ==> trained_unit(evs, pn, (#[trigger] v[a]).0.0 as i64)
        && v[a].1 == unit_total(evs, pn, v[a].0.0 as i64)
    &&& forall|u: i32| #[trigger] trained_unit(evs, pn, u as i64) ==> exists|a: int| 0 <= a < v.len() && (#[trigger] v[a]).0.0 == u
}

/// Whether one unit's total does not fit `i32`.
pub open spec fn total_overflow(evs: Seq<ReplayEvent>, pn: i16) -> bool {
    exists|u: i64| #[trigger] trained_unit(evs, pn, u) && unit_total(evs, pn, u) > i32::MAX
}

/// The running per-unit totals after the first `n` events: `(unit id, total)` sorted by id.
spec fn totals_ok(t: Seq<(i32, i64)>, evs: Seq<ReplayEvent>, pn: i16) -> bool {
    &&& forall|a: int, b: int| 0 <= a < b < t.len() ==> (#[trigger] t[a]).0 < (#[trigger] t[b]).0
    &&& forall|a: int| 0 <= a < t.len() ==> trained_unit(evs, pn, (#[trigger] t[a]).0 as i64)
        && t[a].1 == unit_total(evs, pn, t[a].0 as i64)
    &&& forall|u: i32| #[trigger] trained_unit(evs, pn, u as i64) ==> exists|a: int| 0 <= a < t.len() && (#[trigger] t[a]).0 == u
}

/// Every unit total of `pn` fits `i64` (no total is so large that summing it overflows).
pub open spec fn totals_fit_i64(evs: Seq<ReplayEvent>, pn: i16) -> bool {
    forall|u: i64| unit_total(evs, pn, u) <= i64::MAX
}

proof fn lemma_unit_total_prefix(evs: Seq<ReplayEvent>, pn: i16, u: i64, n: int)
    requires
        0 <= n <= evs.len(),
    ensures
        unit_total(evs.subrange(0, n), pn, u) <= unit_total(evs, pn, u),
    decreases evs.len() - n,
{
    if n < evs.len() {
        lemma_unit_total_prefix(evs, pn, u, n + 1);
        assert(evs.subrange(0, n + 1).drop_last() == evs.subrange(0, n));
        lemma_unit_total_nonneg(evs.subrange(0, n + 1), pn, u);
    } else {
        assert(evs.subrange(0, n) == evs);
    }
}

/// Sums one player's queued units per distinct unit id, sorted by unit id. Fails with
/// `train.target_id` when a train's unit id does not fit `i32`, else with `train.trained`
/// when a unit's total does not.
#[verifier::loop_isolation(false)]
pub fn player_units(evs: &[ReplayEvent], player_number: i16) -> (r: Result<Vec<(GameUnitId, i32)>, Error>)
    requires
        totals_fit_i64(evs@, player_number),
    ensures
        unit_id_overflow(evs@, player_number) ==> r == Err::<Vec<(GameUnitId, i32)>, Error>(Error::Overflow { field: "train.target_id" }),
        !unit_id_overflow(evs@, player_number) && total_overflow(evs@, player_number) ==> r == Err::<Vec<(GameUnitId, i32)>, Error>(Error::Overflow { field: "train.trained" }),
        !unit_id_overflow(evs@, player_number) && !total_overflow(evs@, player_number) ==> (r matches Ok(v) && units_listed(v@, evs@, player_number)),
{
    let mut totals: Vec<(i32, i64)> = Vec::new();
    let mut i: usize = 0;
    while i < evs.len()
        invariant
            i <= evs@.len(),
            totals_fit_i64(evs@, player_number),
            totals_ok(totals@, evs@.subrange(0, i as int), player_number),
            forall|j: int| 0 <= j < i ==> !(is_train_by(#[trigger] evs@[j], player_number) && !(i32::MIN <= evs@[j].target_id->0 <= i32::MAX)),
        decreases evs@.len() - i,
    {
        let ghost pre = evs@.subrange(0, i as int);
        let ghost cur = evs@.subrange(0, i + 1);
        assert(cur.drop_last() == pre);
        let e = &evs[i];
        let is_train = e.player_number == player_number && str_eq(e.kind.as_str(), "train");
        if is_train && e.target_id.is_some() {
            let tid = match e.target_id {
                Some(t) => t,
                None => 0,
            };
            if tid < i32::MIN as i64 || tid > i32::MAX as i64 {
                assert(is_train_by(evs@[i as int], player_number));
                return Err(Error::Overflow { field: "train.target_id" });
            }
            let unit_id = tid as i32;
            let amount: i64 = match e.amount {
                Some(a) => if a >= 1 { a } else { 1 },
                None => 1,
            };
            // find the unit's slot (sorted by id)
            let mut p: usize = 0;
            while p < totals.len() && totals[p].0 < unit_id
                invariant
                    p <= totals@.len(),
                    forall|a: int| 0 <= a < p ==> (#[trigger] totals@[a]).0 < unit_id,
                decreases totals@.len() - p,
            {
                p = p + 1;
            }
            proof {
                lemma_unit_total_prefix(evs@, player_number, tid, i + 1);
                assert(unit_total(cur, player_number, tid) == unit_total(pre, player_number, tid) + amount);
            }
            let ghost old_t = totals@;
            if p < totals.len() && totals[p].0 == unit_id {
                let (u0, t0) = totals[p];
                assert(t0 == unit_total(pre, player_number, tid));
                totals.set(p, (u0, t0 + amount));
            } else {
                assert(unit_total(pre, player_number, tid) == 0) by {
                    lemma_unit_total_nonneg(pre, player_number, tid);
                    assert(unit_id as i64 == tid);
                    if trained_unit(pre, player_number, unit_id as i64) {
                        let a = choose|a: int| 0 <= a < old_t.len() && (#[trigger] old_t[a]).0 == unit_id;
                        if a < p {
                        } else if a > p {
                            assert(old_t[p as int].0 < old_t[a].0);
                        }
                    }
                }
                totals.insert(p, (unit_id, amount));
            }
            proof {
                lemma_totals_step(old_t, totals@, pre, cur, player_number, unit_id, p as int);
            }
        } else {
            proof {
                assert forall|u: i64| unit_total(cur, player_number, u) == unit_total(pre, player_number, u) by {}
                assert forall|u: i64| trained_unit(cur, player_number, u) == trained_unit(pre, player_number, u) by {
                    if trained_unit(cur, player_number, u) {
                        let j = choose|j: int| 0 <= j < cur.len() && is_train_by(#[trigger] cur[j], player_number) && cur[j].target_id == Some(u);
                        assert(j < pre.len());
                        assert(pre[j] == cur[j]);
                    }
                    if trained_unit(pre, player_number, u) {
                        let j = choose|j: int| 0 <= j < pre.len() && is_train_by(#[trigger] pre[j], player_number) && pre[j].target_id == Some(u);
                        assert(pre[j] == cur[j]);
                    }
                }
            }
        }
        i = i + 1;
    }
    assert(evs@.subrange(0, evs@.len() as int) == evs@);
    // narrow the totals
    let mut out: Vec<(GameUnitId, i32)> = Vec::new();
    let mut k: usize = 0;
    while k < totals.len()
        invariant
            k <= totals@.len(),
            totals_ok(totals@, evs@, player_number),
            !unit_id_overflow(evs@, player_number),
            out@.len() == k,
            forall|a: int| 0 <= a < k ==> (#[trigger] out@[a]).0.0 == totals@[a].0 && out@[a].1 == totals@[a].1,
            forall|a: int| 0 <= a < k ==> (#[trigger] totals@[a]).1 <= i32::MAX,
        decreases totals@.len() - k,
    {
        let (u, t) = totals[k];
        proof {
            lemma_unit_total_nonneg(evs@, player_number, u as i64);
            assert(totals@[k as int].1 == unit_total(evs@, player_number, u as i64));
        }
        if t > i32::MAX as i64 {
            assert(trained_unit(evs@, player_number, u as i64));
            return Err(Error::Overflow { field: "train.trained" });
        }
        out.push((GameUnitId(u), t as i32));
        k = k + 1;
    }
    proof {
        assert forall|u: i64| #[trigger] trained_unit(evs@, player_number, u) implies unit_total(evs@, player_number, u) <= i32::MAX by {
            let j = choose|j: int| 0 <= j < evs@.len() && is_train_by(#[trigger] evs@[j], player_number) && evs@[j].target_id == Some(u);
            assert(i32::MIN <= u <= i32::MAX);
            let ui = u as i32;
            assert(ui as i64 == u);
            assert(trained_unit(evs@, player_number, ui as i64));
            let a = choose|a: int| 0 <= a < totals@.len() && (#[trigger] totals@[a]).0 == ui;
            assert(totals@[a].1 <= i32::MAX);
        }
        assert forall|u: i32| #[trigger] trained_unit(evs@, player_number, u as i64) implies exists|a: int| 0 <= a < out@.len() && (#[trigger] out@[a]).0.0 == u by {
            let a = choose|a: int| 0 <= a < totals@.len() && (#[trigger] totals@[a]).0 == u;
            assert(out@[a].0.0 == u);
        }
        assert forall|a: int, b: int| 0 <= a < b < out@.len() implies (#[trigger] out@[a]).0.0 < (#[trigger] out@[b]).0.0 by {
            assert(totals@[a].0 < totals@[b].0);
        }
    }
    Ok(out)
}

proof fn lemma_totals_step(
    old_t: Seq<(i32, i64)>,
    new_t: Seq<(i32, i64)>,
    pre: Seq<ReplayEvent>,
    cur: Seq<ReplayEvent>,
    pn: i16,
    unit_id: i32,
    p: int,
)
    requires
        totals_ok(old_t, pre, pn),
        cur.len() == pre.len() + 1,
        cur.drop_last() == pre,
        is_train_by(cur.last(), pn),
        cur.last().target_id == Some(unit_id as i64),
        0 <= p <= old_t.len(),
        forall|a: int| 0 <= a < p ==> (#[trigger] old_t[a]).0 < unit_id,
        p < old_t.len() ==> old_t[p].0 >= unit_id,
        (p < old_t.len() && old_t[p].0 == unit_id) ==> new_t == old_t.update(p, (unit_id, (old_t[p].1 + queued(cur.last())) as i64)),
        !(p < old_t.len() && old_t[p].0 == unit_id) ==> new_t == old_t.insert(p, (unit_id, queued(cur.last()) as i64)),
        unit_total(cur, pn, unit_id as i64) <= i64::MAX,
        !(p < old_t.len() && old_t[p].0 == unit_id) ==> unit_total(pre, pn, unit_id as i64) == 0,
    ensures
        totals_ok(new_t, cur, pn),
{
    let e = cur.last();
    assert(is_train_by(cur[cur.len() - 1], pn));
    assert forall|u: i64| #[trigger] trained_unit(cur, pn, u) == (trained_unit(pre, pn, u) || u == unit_id as i64) by {
        if trained_unit(cur, pn, u) && u != unit_id as i64 {
            let j = choose|j: int| 0 <= j < cur.len() && is_train_by(#[trigger] cur[j], pn) && cur[j].target_id == Some(u);
            assert(j < pre.len());
            assert(pre[j] == cur[j]);
        }
        if trained_unit(pre, pn, u) {
            let j = choose|j: int| 0 <= j < pre.len() && is_train_by(#[trigger] pre[j], pn) && pre[j].target_id == Some(u);
            assert(pre[j] == cur[j]);
        }
    }
    assert forall|u: i64| u != unit_id as i64 implies #[trigger] unit_total(cur, pn, u) == unit_total(pre, pn, u) by {}
    if p < old_t.len() && old_t[p].0 == unit_id {
        assert forall|u: i32| #[trigger] trained_unit(cur, pn, u as i64) implies exists|a: int| 0 <= a < new_t.len() && (#[trigger] new_t[a]).0 == u by {
            if u == unit_id {
                assert(new_t[p].0 == u);
            } else {
                assert(trained_unit(pre, pn, u as i64));
                let a = choose|a: int| 0 <= a < old_t.len() && (#[trigger] old_t[a]).0 == u;
                assert(new_t[a].0 == u);
            }
        }
        assert forall|a: int| 0 <= a < new_t.len() implies trained_unit(cur, pn, (#[trigger] new_t[a]).0 as i64)
            && new_t[a].1 == unit_total(cur, pn, new_t[a].0 as i64) by {
            if a != p {
                assert(new_t[a] == old_t[a]);
                assert(trained_unit(pre, pn, old_t[a].0 as i64));
                assert(old_t[a].0 != unit_id);
            }
        }
        assert forall|a: int, b: int| 0 <= a < b < new_t.len() implies (#[trigger] new_t[a]).0 < (#[trigger] new_t[b]).0 by {
            assert(new_t[a].0 == old_t[a].0);
            assert(new_t[b].0 == old_t[b].0);
        }
    } else {
        assert forall|u: i32| #[trigger] trained_unit(cur, pn, u as i64) implies exists|a: int| 0 <= a < new_t.len() && (#[trigger] new_t[a]).0 == u by {
            if u == unit_id {
                assert(new_t[p].0 == u);
            } else {
                assert(trained_unit(pre, pn, u as i64));
                let a = choose|a: int| 0 <= a < old_t.len() && (#[trigger] old_t[a]).0 == u;
                if a < p {
                    assert(new_t[a].0 == u);
                } else {
                    assert(new_t[a + 1].0 == u);
                }
            }
        }
        assert forall|a: int| 0 <= a < new_t.len() implies trained_unit(cur, pn, (#[trigger] new_t[a]).0 as i64)
            && new_t[a].1 == unit_total(cur, pn, new_t[a].0 as i64) by {
            if a < p {
                assert(new_t[a] == old_t[a]);
                assert(trained_unit(pre, pn, old_t[a].0 as i64));
            } else if a > p {
                assert(new_t[a] == old_t[a - 1]);
                assert(trained_unit(pre, pn, old_t[a - 1].0 as i64));
                assert(old_t[a - 1].0 != unit_id);
            }
        }
        assert forall|a: int, b: int| 0 <= a < b < new_t.len() implies (#[trigger] new_t[a]).0 < (#[trigger] new_t[b]).0 by {
            if b < p {
                assert(new_t[a] == old_t[a] && new_t[b] == old_t[b]);
            } else if b == p {
                assert(new_t[a] == old_t[a]);
            } else if a < p {
                assert(new_t[a] == old_t[a] && new_t[b] == old_t[b - 1]);
                if b - 1 == p {
                } else {
                    assert(old_t[p].0 < old_t[b - 1].0);
                }
            } else if a == p {
                assert(new_t[b] == old_t[b - 1]);
            } else {
                assert(new_t[a] == old_t[a - 1] && new_t[b] == old_t[b - 1]);
            }
        }
    }
}

// --- watched techs ---------------------------------------------------------------------

/// The watched eco techs by ascending id.
pub open spec fn watched_by_id() -> Seq<u16> {
    seq![13u16, 14u16, 22u16, 55u16, 182u16, 202u16, 203u16, 213u16, 249u16, 278u16]
}

/// The watched techs `pn` researched, by ascending id, each with its first click.
pub open spec fn techs_of(evs: Seq<ReplayEvent>, pn: i16, ids: Seq<u16>) -> Seq<(TechId, i32)>
    decreases ids.len(),
{
    if ids.len() == 0 {
        Seq::empty()
    } else {
        let prev = techs_of(evs, pn, ids.drop_last());
        match min_t(evs, research_of(pn, ids.last())) {
            Some(t) => prev.push((TechId(ids.last() as i32), t)),
            None => prev,
        }
    }
}

/// Each watched eco tech's first-research click for one player, sorted by tech id; a tech
/// never researched is absent.
pub fn player_techs(evs: &[ReplayEvent], player_number: i16) -> (r: Vec<(TechId, i32)>)
    ensures
        r@ == techs_of(evs@, player_number, watched_by_id()),
{
    let ids: [u16; 10] = [13, 14, 22, 55, 182, 202, 203, 213, 249, 278];
    let mut out: Vec<(TechId, i32)> = Vec::new();
    let mut i: usize = 0;
    while i < 10
        invariant
            i <= 10,
            ids@ == watched_by_id(),
            out@ == techs_of(evs@, player_number, watched_by_id().subrange(0, i as int)),
        decreases 10 - i,
    {
        let id = ids[i];
        assert(watched_by_id().subrange(0, i + 1).drop_last() == watched_by_id().subrange(0, i as int));
        assert(watched_by_id().subrange(0, i + 1).last() == id);
        match first_research_ms(evs, player_number, id) {
            Some(t) => out.push((TechId(id as i32), t)),
            None => {},
        }
        i = i + 1;
    }
    assert(watched_by_id().subrange(0, 10) == watched_by_id());
    out
}

proof fn lemma_techs_from(evs: Seq<ReplayEvent>, pn: i16, ids: Seq<u16>)
    requires
        forall|a: int, b: int| 0 <= a < b < ids.len() ==> ids[a] < ids[b],
    ensures
        forall|k: int|
            0 <= k < techs_of(evs, pn, ids).len() ==> exists|j: int|
                0 <= j < ids.len() && (#[trigger] techs_of(evs, pn, ids)[k]).0.0 == ids[j] as i32,
        forall|a: int, b: int|
            0 <= a < b < techs_of(evs, pn, ids).len() ==> (#[trigger] techs_of(evs, pn, ids)[a]).0.0
                < (#[trigger] techs_of(evs, pn, ids)[b]).0.0,
    decreases ids.len(),
{
    if ids.len() > 0 {
        let w = ids.drop_last();
        lemma_techs_from(evs, pn, w);
        let prev = techs_of(evs, pn, w);
        let cur = techs_of(evs, pn, ids);
        assert forall|k: int| 0 <= k < prev.len() implies (#[trigger] prev[k]).0.0 < ids.last() as i32 by {
            let j = choose|j: int| 0 <= j < w.len() && prev[k].0.0 == w[j] as i32;
            assert(ids[j] < ids[ids.len() - 1]);
        }
        assert forall|k: int| 0 <= k < cur.len() implies exists|j: int|
            0 <= j < ids.len() && (#[trigger] cur[k]).0.0 == ids[j] as i32 by {
            if k < prev.len() {
                assert(cur[k] == prev[k]);
                let j = choose|j: int| 0 <= j < w.len() && prev[k].0.0 == w[j] as i32;
                assert(ids[j] == w[j]);
            } else {
                assert(cur[k].0.0 == ids[ids.len() - 1] as i32);
            }
        }
        assert forall|a: int, b: int| 0 <= a < b < cur.len() implies (#[trigger] cur[a]).0.0 < (#[trigger] cur[b]).0.0 by {
            assert(cur[a] == prev[a]);
            if b < prev.len() {
                assert(cur[b] == prev[b]);
            }
        }
    }
}

/// The watched techs come out sorted by tech id, strictly ascending.
pub proof fn lemma_player_techs_sorted(evs: Seq<ReplayEvent>, pn: i16)
    ensures
        forall|a: int, b: int|
            0 <= a < b < techs_of(evs, pn, watched_by_id()).len() ==> (#[trigger] techs_of(evs, pn, watched_by_id())[a]).0.0
                < (#[trigger] techs_of(evs, pn, watched_by_id())[b]).0.0,
{
    let ids = watched_by_id();
    assert forall|a: int, b: int| 0 <= a < b < ids.len() implies ids[a] < ids[b] by {}
    lemma_techs_from(evs, pn, ids);
}

// --- the per-player facts --------------------------------------------------------------

/// A command of player `pn`.
pub open spec fn by_pn(pn: i16) -> spec_fn(ReplayEvent) -> bool {
    |e: ReplayEvent| e.player_number == pn
}

/// One player's derived facts: everything of its summary but the conversions to seconds
/// and to a rate.
#[derive(Debug, Clone, PartialEq)]
pub struct PlayerFacts {
    pub profile_id: ProfileId,
    pub civ_id: i32,
    /// Rule-based opening tag; `None` when there is nothing to say.
    pub opening: Option<String>,
    /// The closed kind of `opening`; `Some` exactly when `opening` is.
    pub opening_kind: Option<OpeningKind>,
    pub feudal_click_ms: Option<i32>,
    pub castle_click_ms: Option<i32>,
    pub imperial_click_ms: Option<i32>,
    /// Units queued per distinct unit id, sorted by unit id.
    pub units: Vec<(GameUnitId, i32)>,
    /// The player's command count (one per raw command).
    pub n_commands: usize,
    /// Watched techs' first-research clicks, sorted by tech id.
    pub techs: Vec<(TechId, i32)>,
}

fn count_commands(evs: &[ReplayEvent], pn: i16) -> (r: usize)
    ensures
        r == count_r(evs@, by_pn(pn)),
{
    let mut n: usize = 0;
    let mut i: usize = 0;
    while i < evs.len()
        invariant
            i <= evs@.len(),
            n == count_r(evs@.subrange(0, i as int), by_pn(pn)),
        decreases evs@.len() - i,
    {
        assert(evs@.subrange(0, i + 1).drop_last() == evs@.subrange(0, i as int));
        proof {
            lemma_count_r_le(evs@.subrange(0, i + 1), by_pn(pn));
        }
        if evs[i].player_number == pn {
            n = n + 1;
        }
        i = i + 1;
    }
    assert(evs@.subrange(0, evs@.len() as int) == evs@);
    n
}

/// Whether `f` holds the derived facts of player `p` of `parsed`.
pub open spec fn facts_of(f: PlayerFacts, parsed: ParsedReplay, i: int) -> bool {
    let p = parsed.players@[i];
    let evs = parsed.events@;
    let pn = p.player_number;
    let clicks = (
        min_t(evs, research_of(pn, 101)),
        min_t(evs, research_of(pn, 102)),
        min_t(evs, research_of(pn, 103)),
    );
    let op = opening_of(evs, pn, clicks.0, clicks.1);
    &&& f.profile_id == p.profile_id
    &&& f.civ_id == p.civ_id.0
    &&& (f.feudal_click_ms, f.castle_click_ms, f.imperial_click_ms) == clicks
    &&& match op {
        Some((s, k)) => f.opening matches Some(o) && o@ == s && f.opening_kind == Some(k),
        None => f.opening is None && f.opening_kind is None,
    }
    &&& units_listed(f.units@, evs, pn)
    &&& f.n_commands == count_r(evs, by_pn(pn))
    &&& f.techs@ == techs_of(evs, pn, watched_by_id())
}

/// Whether a player's feudal click leaves room for the 12-minute default castle window.
pub open spec fn feudal_in_range(evs: Seq<ReplayEvent>, pn: i16) -> bool {
    min_t(evs, research_of(pn, 101)) matches Some(f) ==> f <= i32::MAX - 720_000
}

/// Why [`player_units`] fails for player `pn`: a train's unit id that does not fit `i32`
/// first, else a unit total that does not.
pub open spec fn units_error(evs: Seq<ReplayEvent>, pn: i16) -> Option<Error> {
    if unit_id_overflow(evs, pn) {
        Some(Error::Overflow { field: "train.target_id" })
    } else if total_overflow(evs, pn) {
        Some(Error::Overflow { field: "train.trained" })
    } else {
        None
    }
}

/// Derives every real player's facts from the parsed replay's own events, in player
/// order. Fails with the error of the first player, in player order, whose units
/// [`player_units`] cannot sum.
pub fn derive_facts(parsed: &ParsedReplay) -> (r: Result<Vec<PlayerFacts>, Error>)
    requires
        forall|i: int| 0 <= i < parsed.players@.len() ==> {
            let pn = (#[trigger] parsed.players@[i]).player_number;
            &&& feudal_in_range(parsed.events@, pn)
            &&& totals_fit_i64(parsed.events@, pn)
        },
    ensures
        match r {
            Ok(v) => v@.len() == parsed.players@.len() && (forall|i: int|
                0 <= i < v@.len() ==> facts_of(#[trigger] v@[i], *parsed, i)) && (forall|i: int|
                0 <= i < parsed.players@.len() ==> units_error(
                    parsed.events@,
                    (#[trigger] parsed.players@[i]).player_number,
                ) is None),
            Err(e) => exists|i: int|
                0 <= i < parsed.players@.len() && units_error(
                    parsed.events@,
                    (#[trigger] parsed.players@[i]).player_number,
                ) == Some(e) && forall|j: int|
                    0 <= j < i ==> units_error(parsed.events@, (#[trigger] parsed.players@[j]).player_number) is None,
        },
{
    let evs = parsed.events.as_slice();
    let mut out: Vec<PlayerFacts> = Vec::new();
    let mut i: usize = 0;
    while i < parsed.players.len()
        invariant
            i <= parsed.players@.len(),
            evs@ == parsed.events@,
            forall|j: int| 0 <= j < parsed.players@.len() ==> {
                let pn = (#[trigger] parsed.players@[j]).player_number;
                &&& feudal_in_range(parsed.events@, pn)
                &&& totals_fit_i64(parsed.events@, pn)
            },
            out@.len() == i,
            forall|j: int| 0 <= j < i ==> facts_of(#[trigger] out@[j], *parsed, j),
            forall|j: int| 0 <= j < i ==> units_error(parsed.events@, (#[trigger] parsed.players@[j]).player_number) is None,
        decreases parsed.players@.len() - i,
    {
        let p = &parsed.players[i];
        let pn = p.player_number;
        assert(feudal_in_range(parsed.events@, pn) && totals_fit_i64(parsed.events@, pn)) by {
            assert(parsed.players@[i as int].player_number == pn);
        }
        let (feudal, castle, imperial) = age_clicks(evs, pn);
        let opening = classify_opening(evs, pn, feudal, castle);
        let units = match player_units(evs, pn) {
            Ok(u) => u,
            Err(e) => {
                assert(parsed.players@[i as int].player_number == pn);
                return Err(e);
            },
        };
        let techs = player_techs(evs, pn);
        let n_commands = count_commands(evs, pn);
        let (tag, kind) = match opening {
            Some((s, k)) => (Some(s), Some(k)),
            None => (None, None),
        };
        out.push(
            PlayerFacts {
                profile_id: p.profile_id,
                civ_id: p.civ_id.0,
                opening: tag,
                opening_kind: kind,
                feudal_click_ms: feudal,
                castle_click_ms: castle,
                imperial_click_ms: imperial,
                units,
                n_commands,
                techs,
            },
        );
        assert(facts_of(out@[i as int], *parsed, i as int));
        i = i + 1;
    }
    Ok(out)
}

} // verus!
