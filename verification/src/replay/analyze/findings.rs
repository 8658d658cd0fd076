//! The coaching findings that need no benchmark: idle town-center time, eco techs missing at
//! an age boundary, late or missing military, late scouting, and the Feudal race between the
//! two players of a 1v1; and the report's ordering of findings, most severe first.
use vstd::prelude::*;

use crate::replay::analyze::metrics::{
    age_clicks, count_evs, eco_tech_times, eco_techs_spec, first_military_ms, idle_tc_ms, idle_tc_spec,
    is_military_train, is_research, is_vil_by, min_time, Ev,
};
use crate::replay::analyze::model::{Basis, Family, Finding, Severity};
use crate::replay::config::{mmss, mmss_of, watched_tech_ids};
use crate::text::{decimal, string_of, u64_decimal};

verus! {

broadcast use vstd::string::to_string_from_display_ensures_for_str;

/// The view of a finding: player, code, metric, yours, reference, basis, severity, note, and
/// the template values.
pub type FindingView = (
    i32,
    Seq<char>,
    Seq<char>,
    Seq<char>,
    Seq<char>,
    Basis,
    Severity,
    Seq<char>,
    Seq<(Seq<char>, Seq<char>)>,
);

/// The view of a finding.
pub open spec fn finding_view(f: Finding) -> FindingView {
    (
        f.player_number,
        f.code@,
        f.metric@,
        f.your@,
        f.reference@,
        f.basis,
        f.severity,
        f.note@,
        f.vars@.map_values(|v: (&'static str, String)| (v.0@, v.1@)),
    )
}

/// The views of a list of findings.
pub open spec fn findings_view(s: Seq<Finding>) -> Seq<FindingView> {
    s.map_values(|f: Finding| finding_view(f))
}

/// A finding without template values.
pub open spec fn fv(
    pn: i32,
    code: Seq<char>,
    metric: Seq<char>,
    your: Seq<char>,
    reference: Seq<char>,
    basis: Basis,
    severity: Severity,
    note: Seq<char>,
) -> FindingView {
    (pn, code, metric, your, reference, basis, severity, note, Seq::empty())
}

fn mk(
    pn: i32,
    code: &'static str,
    metric: &str,
    your: String,
    reference: &str,
    basis: Basis,
    severity: Severity,
    note: &str,
) -> (f: Finding)
    ensures
        finding_view(f) == fv(pn, code@, metric@, your@, reference@, basis, severity, note@),
{
    let f = Finding {
        player_number: pn,
        code,
        metric: metric.to_string(),
        your,
        reference: reference.to_string(),
        basis,
        severity,
        note: note.to_string(),
        vars: Vec::new(),
    };
    assert(f.vars@.map_values(|v: (&'static str, String)| (v.0@, v.1@)) =~= Seq::<(Seq<char>, Seq<char>)>::empty());
    f
}

/// Whole seconds of a duration in milliseconds, as `{s}s`.
pub open spec fn secs_text(ms: u32) -> Seq<char> {
    decimal((ms / 1000) as nat) + seq!['s']
}

fn fmt_secs(ms: u32) -> (r: String)
    ensures
        r@ == secs_text(ms),
{
    let mut v = u64_decimal((ms / 1000) as u64);
    v.push('s');
    string_of(&v)
}

/// A time in milliseconds as `m:ss` of its whole seconds.
pub open spec fn ms_text(ms: u32) -> Seq<char> {
    mmss_of((ms / 1000) as nat)
}

// --- per-player findings ---------------------------------------------------------------------

/// The integer facts of one player that the findings without a benchmark read.
#[derive(Debug, Clone)]
pub struct PlayerFacts {
    pub player_number: i32,
    /// First Feudal / Castle age-up clicks.
    pub feudal_ms: Option<u32>,
    pub castle_ms: Option<u32>,
    /// Estimated town-center idle time in the Dark Age and in the Feudal Age.
    pub idle_dark_ms: u32,
    pub idle_feudal_ms: u32,
    pub first_military_ms: Option<u32>,
    /// Watched eco techs and their first research time, by tech id.
    pub eco_techs: Vec<(u16, u32)>,
    /// Whether the distance to the nearest enemy base could be computed.
    pub enemy_located: bool,
    /// When the player's units first reached an enemy base, if ever.
    pub find_enemy_ms: Option<u32>,
}

/// The idle estimate of a player up to `until_ms`.
pub open spec fn idle_by(evs: Seq<Ev>, player: i32, until_ms: u32) -> u32 {
    idle_tc_spec((count_evs(evs, player, is_vil_by(until_ms)) as u32) as nat, until_ms)
}

/// The facts of player `pn` read from the event stream: the Feudal and Castle clicks, the
/// Dark-Age idle estimate up to Feudal (0 without Feudal), the Feudal-Age idle estimate (the
/// idle up to Castle less the idle up to Feudal, saturating; 0 unless both were reached), the
/// first military train and the watched eco techs; the two scouting facts come from the
/// caller's map geometry.
pub fn player_facts(
    evs: &[Ev],
    pn: i32,
    enemy_located: bool,
    find_enemy_ms: Option<u32>,
) -> (r: PlayerFacts)
    ensures
        r.player_number == pn,
        r.feudal_ms == min_time(evs@, pn, is_research(101)),
        r.castle_ms == min_time(evs@, pn, is_research(102)),
        r.idle_dark_ms == match r.feudal_ms {
            Some(f) => idle_by(evs@, pn, f),
            None => 0u32,
        },
        r.idle_feudal_ms == match (r.feudal_ms, r.castle_ms) {
            (Some(f), Some(c)) => if idle_by(evs@, pn, c) >= idle_by(evs@, pn, f) {
                (idle_by(evs@, pn, c) - idle_by(evs@, pn, f)) as u32
            } else {
                0u32
            },
            _ => 0u32,
        },
        r.first_military_ms == min_time(evs@, pn, is_military_train()),
        r.eco_techs@ == eco_techs_spec(evs@, pn, watched_tech_ids()),
        r.enemy_located == enemy_located,
        r.find_enemy_ms == find_enemy_ms,
{
    let (feudal_ms, castle_ms, _) = age_clicks(evs, pn);
    let idle_dark_ms: u32 = match feudal_ms {
        Some(f) => idle_tc_ms(evs, pn, f),
        None => 0,
    };
    let idle_feudal_ms: u32 = match (feudal_ms, castle_ms) {
        (Some(f), Some(c)) => idle_tc_ms(evs, pn, c).saturating_sub(idle_tc_ms(evs, pn, f)),
        _ => 0,
    };
    PlayerFacts {
        player_number: pn,
        feudal_ms,
        castle_ms,
        idle_dark_ms,
        idle_feudal_ms,
        first_military_ms: first_military_ms(evs, pn),
        eco_techs: eco_tech_times(evs, pn),
        enemy_located,
        find_enemy_ms,
    }
}

/// The idle town-center findings: Dark-Age idle over 70 s (high) or over 35 s (medium), then
/// Feudal-Age idle over 50 s (medium).
pub open spec fn idle_spec(p: PlayerFacts) -> Seq<FindingView> {
    let pn = p.player_number;
    let dark = if p.idle_dark_ms > 70_000 {
        seq![
            fv(
                pn,
                "idle_tc_dark"@,
                "idle TC (dark)"@,
                secs_text(p.idle_dark_ms),
                "~0-30s"@,
                Basis::Absolute,
                Severity::High,
                "Lots of Dark-Age TC idle (estimate) — keep a villager queued non-stop."@,
            ),
        ]
    } else if p.idle_dark_ms > 35_000 {
        seq![
            fv(
                pn,
                "idle_tc_dark"@,
                "idle TC (dark)"@,
                secs_text(p.idle_dark_ms),
                "~0-30s"@,
                Basis::Absolute,
                Severity::Med,
                "Some Dark-Age TC idle (estimate) — tighten villager production."@,
            ),
        ]
    } else {
        Seq::empty()
    };
    let feudal = if p.idle_feudal_ms > 50_000 {
        seq![
            fv(
                pn,
                "idle_tc_feudal"@,
                "idle TC (feudal)"@,
                secs_text(p.idle_feudal_ms),
                "<25s"@,
                Basis::Absolute,
                Severity::Med,
                "TC idle in Feudal (estimate) — each 25s idle ≈ one lost villager."@,
            ),
        ]
    } else {
        Seq::empty()
    };
    dark + feudal
}

/// The idle town-center findings of a player.
pub fn idle_findings(p: &PlayerFacts) -> (r: Vec<Finding>)
    ensures
        findings_view(r@) == idle_spec(*p),
{
    let pn = p.player_number;
    let mut out: Vec<Finding> = Vec::new();
    if p.idle_dark_ms > 70_000 {
        out.push(
            mk(
                pn,
                "idle_tc_dark",
                "idle TC (dark)",
                fmt_secs(p.idle_dark_ms),
                "~0-30s",
                Basis::Absolute,
                Severity::High,
                "Lots of Dark-Age TC idle (estimate) — keep a villager queued non-stop.",
            ),
        );
    } else if p.idle_dark_ms > 35_000 {
        out.push(
            mk(
                pn,
                "idle_tc_dark",
                "idle TC (dark)",
                fmt_secs(p.idle_dark_ms),
                "~0-30s",
                Basis::Absolute,
                Severity::Med,
                "Some Dark-Age TC idle (estimate) — tighten villager production.",
            ),
        );
    }
    if p.idle_feudal_ms > 50_000 {
        out.push(
            mk(
                pn,
                "idle_tc_feudal",
                "idle TC (feudal)",
                fmt_secs(p.idle_feudal_ms),
                "<25s",
                Basis::Absolute,
                Severity::Med,
                "TC idle in Feudal (estimate) — each 25s idle ≈ one lost villager.",
            ),
        );
    }
    assert(findings_view(out@) =~= idle_spec(*p));
    out
}

/// The first research time listed for tech `id`, if any.
pub open spec fn first_tech_time(techs: Seq<(u16, u32)>, id: u16) -> Option<u32>
    decreases techs.len(),
{
    if techs.len() == 0 {
        None
    } else if techs[0].0 == id {
        Some(techs[0].1)
    } else {
        first_tech_time(techs.drop_first(), id)
    }
}

/// Whether tech `id` was researched by the time `by` (false when `by` is absent).
pub open spec fn researched_by(techs: Seq<(u16, u32)>, id: u16, by: Option<u32>) -> bool {
    match (first_tech_time(techs, id), by) {
        (Some(t), Some(b)) => t <= b,
        _ => false,
    }
}

fn tech_time(techs: &Vec<(u16, u32)>, id: u16) -> (r: Option<u32>)
    ensures
        r == first_tech_time(techs@, id),
{
    let mut i: usize = 0;
    assert(techs@.subrange(0, techs@.len() as int) == techs@);
    while i < techs.len()
        invariant
            i <= techs@.len(),
            first_tech_time(techs@, id) == first_tech_time(techs@.subrange(i as int, techs@.len() as int), id),
        decreases techs@.len() - i,
    {
        let ghost rest = techs@.subrange(i as int, techs@.len() as int);
        assert(rest[0] == techs@[i as int]);
        assert(rest.drop_first() == techs@.subrange(i + 1, techs@.len() as int));
        if techs[i].0 == id {
            return Some(techs[i].1);
        }
        i = i + 1;
    }
    None
}

fn done_by(techs: &Vec<(u16, u32)>, id: u16, by: Option<u32>) -> (r: bool)
    ensures
        r == researched_by(techs@, id, by),
{
    match (tech_time(techs, id), by) {
        (Some(t), Some(b)) => t <= b,
        _ => false,
    }
}

/// The missing eco-tech findings: no Wheelbarrow (213) by a reached Castle Age (medium),
/// then no Loom (22) by a reached Feudal Age (low).
pub open spec fn eco_spec(p: PlayerFacts) -> Seq<FindingView> {
    let pn = p.player_number;
    let wheel = if p.castle_ms is Some && !researched_by(p.eco_techs@, 213, p.castle_ms) {
        seq![
            fv(
                pn,
                "no_wheelbarrow"@,
                "Wheelbarrow"@,
                "not by Castle"@,
                "by Castle Age"@,
                Basis::Absolute,
                Severity::Med,
                "No Wheelbarrow by Castle Age — a big eco multiplier left on the table."@,
            ),
        ]
    } else {
        Seq::empty()
    };
    let loom = if p.feudal_ms is Some && !researched_by(p.eco_techs@, 22, p.feudal_ms) {
        seq![
            fv(
                pn,
                "no_loom"@,
                "Loom"@,
                "not by Feudal"@,
                "by Feudal"@,
                Basis::Absolute,
                Severity::Low,
                "No Loom by Feudal — cheap villager survivability vs early aggression."@,
            ),
        ]
    } else {
        Seq::empty()
    };
    wheel + loom
}

/// The missing eco-tech findings of a player.
pub fn eco_tech_findings(p: &PlayerFacts) -> (r: Vec<Finding>)
    ensures
        findings_view(r@) == eco_spec(*p),
{
    let pn = p.player_number;
    let mut out: Vec<Finding> = Vec::new();
    if p.castle_ms.is_some() && !done_by(&p.eco_techs, 213, p.castle_ms) {
        out.push(
            mk(
                pn,
                "no_wheelbarrow",
                "Wheelbarrow",
                "not by Castle".to_string(),
                "by Castle Age",
                Basis::Absolute,
                Severity::Med,
                "No Wheelbarrow by Castle Age — a big eco multiplier left on the table.",
            ),
        );
    }
    if p.feudal_ms.is_some() && !done_by(&p.eco_techs, 22, p.feudal_ms) {
        out.push(
            mk(
                pn,
                "no_loom",
                "Loom",
                "not by Feudal".to_string(),
                "by Feudal",
                Basis::Absolute,
                Severity::Low,
                "No Loom by Feudal — cheap villager survivability vs early aggression.",
            ),
        );
    }
    assert(findings_view(out@) =~= eco_spec(*p));
    out
}

/// The late-game findings: no military, or none before 20 minutes (low); then, on an open
/// map where the enemy base was located, never reaching it (medium) or reaching it after
/// 8 minutes (low).
pub open spec fn late_spec(p: PlayerFacts, family: Family) -> Seq<FindingView> {
    let pn = p.player_number;
    let military = match p.first_military_ms {
        Some(t) if t <= 1_200_000 => Seq::empty(),
        _ => seq![
            fv(
                pn,
                "military_timing"@,
                "military timing"@,
                match p.first_military_ms {
                    Some(t) => ms_text(t),
                    None => "none"@,
                },
                "<20 min"@,
                Basis::Absolute,
                Severity::Low,
                "No/very-late military — even a fast-castle boom needs units before the enemy arrives."@,
            ),
        ],
    };
    let scouting = if family == Family::Open && p.enemy_located {
        match p.find_enemy_ms {
            None => seq![
                fv(
                    pn,
                    "scouting_never"@,
                    "scouting"@,
                    "never reached enemy"@,
                    "by ~6–8 min"@,
                    Basis::Absolute,
                    Severity::Med,
                    "Your units never reached the enemy base — scout to read their build and react."@,
                ),
            ],
            Some(t) => if t > 480_000 {
                seq![
                    fv(
                        pn,
                        "scouting_late"@,
                        "scouting"@,
                        ms_text(t),
                        "by ~6–8 min"@,
                        Basis::Absolute,
                        Severity::Low,
                        "Found the enemy late — scout earlier to read their strategy."@,
                    ),
                ]
            } else {
                Seq::empty()
            },
        }
    } else {
        Seq::empty()
    };
    military + scouting
}

/// The military-timing and scouting findings of a player.
pub fn late_findings(p: &PlayerFacts, family: Family) -> (r: Vec<Finding>)
    ensures
        findings_view(r@) == late_spec(*p, family),
{
    let pn = p.player_number;
    let mut out: Vec<Finding> = Vec::new();
    let late = match p.first_military_ms {
        Some(t) => t > 1_200_000,
        None => true,
    };
    if late {
        let your = match p.first_military_ms {
            Some(t) => mmss(t / 1000),
            None => "none".to_string(),
        };
        out.push(
            mk(
                pn,
                "military_timing",
                "military timing",
                your,
                "<20 min",
                Basis::Absolute,
                Severity::Low,
                "No/very-late military — even a fast-castle boom needs units before the enemy arrives.",
            ),
        );
    }
    let open = match family {
        Family::Open => true,
        _ => false,
    };
    if open && p.enemy_located {
        match p.find_enemy_ms {
            None => {
                out.push(
                    mk(
                        pn,
                        "scouting_never",
                        "scouting",
                        "never reached enemy".to_string(),
                        "by ~6–8 min",
                        Basis::Absolute,
                        Severity::Med,
                        "Your units never reached the enemy base — scout to read their build and react.",
                    ),
                );
            },
            Some(t) => {
                if t > 480_000 {
                    out.push(
                        mk(
                            pn,
                            "scouting_late",
                            "scouting",
                            mmss(t / 1000),
                            "by ~6–8 min",
                            Basis::Absolute,
                            Severity::Low,
                            "Found the enemy late — scout earlier to read their strategy.",
                        ),
                    );
                }
            },
        }
    }
    assert(findings_view(out@) =~= late_spec(*p, family));
    out
}

// --- the Feudal race of a 1v1 ------------------------------------------------------------------

/// The Feudal race between the two players of a 1v1, each `(player number, Feudal click,
/// name)`: when both reached Feudal and the later one did so more than 45 s after the other,
/// a medium finding for the later one. On a tie the second player counts as the later one.
pub open spec fn race_spec(a: (i32, Option<u32>, Seq<char>), b: (i32, Option<u32>, Seq<char>)) -> Option<FindingView> {
    match (a.1, b.1) {
        (Some(fa), Some(fb)) => {
            let (slow, fast, gap) = if fa > fb { (a, b, fa - fb) } else { (b, a, fb - fa) };
            let (late, early) = if fa > fb { (fa, fb) } else { (fb, fa) };
            if gap > 45_000 {
                Some(
                    fv(
                        slow.0,
                        "feudal_vs_opponent"@,
                        "Feudal vs opponent"@,
                        ms_text(late),
                        ms_text(early),
                        Basis::Opponent,
                        Severity::Med,
                        "Reached Feudal "@ + decimal((gap / 1000) as nat) + "s after "@ + fast.2
                            + " — you started the game behind."@,
                    ),
                )
            } else {
                None
            }
        },
        _ => None,
    }
}

/// The Feudal-race finding of a 1v1, if any.
pub fn feudal_race(
    a_pn: i32,
    a_feudal: Option<u32>,
    a_name: &str,
    b_pn: i32,
    b_feudal: Option<u32>,
    b_name: &str,
) -> (r: Option<Finding>)
    ensures
        match r {
            Some(f) => race_spec((a_pn, a_feudal, a_name@), (b_pn, b_feudal, b_name@)) == Some(
                finding_view(f),
            ),
            None => race_spec((a_pn, a_feudal, a_name@), (b_pn, b_feudal, b_name@)) is None,
        },
{
    match (a_feudal, b_feudal) {
        (Some(fa), Some(fb)) => {
            let (slow_pn, gap, late, early) = if fa > fb {
                (a_pn, fa - fb, fa, fb)
            } else {
                (b_pn, fb - fa, fb, fa)
            };
            let fast_name = if fa > fb { b_name } else { a_name };
            if gap > 45_000 {
                let mut note = crate::text::chars_of("Reached Feudal ");
                crate::text::push_all(&mut note, &u64_decimal((gap / 1000) as u64));
                crate::text::push_all(&mut note, &crate::text::chars_of("s after "));
                crate::text::push_all(&mut note, &crate::text::chars_of(fast_name));
                crate::text::push_all(&mut note, &crate::text::chars_of(" — you started the game behind."));
                let note_s = string_of(&note);
                let f = Finding {
                    player_number: slow_pn,
                    code: "feudal_vs_opponent",
                    metric: "Feudal vs opponent".to_string(),
                    your: mmss(late / 1000),
                    reference: mmss(early / 1000),
                    basis: Basis::Opponent,
                    severity: Severity::Med,
                    note: note_s,
                    vars: Vec::new(),
                };
                assert(f.vars@.map_values(|v: (&'static str, String)| (v.0@, v.1@)) =~= Seq::<(Seq<char>, Seq<char>)>::empty());
                Some(f)
            } else {
                None
            }
        },
        _ => None,
    }
}

// --- ordering ------------------------------------------------------------------------------------

/// The findings of severity `sev`, in their order.
pub open spec fn of_severity(s: Seq<Finding>, sev: Severity) -> Seq<Finding>
    decreases s.len(),
{
    if s.len() == 0 {
        Seq::empty()
    } else {
        of_severity(s.drop_last(), sev) + if s.last().severity == sev {
            seq![s.last()]
        } else {
            Seq::empty()
        }
    }
}

/// The report's order: high, then medium, then low severity, each in its given order (a
/// stable sort by descending severity).
pub open spec fn by_severity_spec(s: Seq<Finding>) -> Seq<Finding> {
    of_severity(s, Severity::High) + of_severity(s, Severity::Med) + of_severity(s, Severity::Low)
}

proof fn lemma_reverse_push(s: Seq<Finding>, x: Finding)
    ensures
        s.push(x).reverse() == seq![x] + s.reverse(),
{
    assert(s.push(x).reverse() =~= seq![x] + s.reverse());
}

proof fn lemma_reverse_drop_last(s: Seq<Finding>)
    requires
        s.len() > 0,
    ensures
        s.reverse() == seq![s.last()] + s.drop_last().reverse(),
{
    assert(s.drop_last().push(s.last()) == s);
    lemma_reverse_push(s.drop_last(), s.last());
}

/// Moves every finding of `bucket` to the end of `out`, in the order they were pushed in
/// reverse: `out` grows by the reverse of `bucket`.
fn drain_reversed(out: &mut Vec<Finding>, bucket: &mut Vec<Finding>)
    ensures
        final(out)@ == old(out)@ + old(bucket)@.reverse(),
{
    let ghost want = old(out)@ + old(bucket)@.reverse();
    while bucket.len() > 0
        invariant
            out@ + bucket@.reverse() == want,
        decreases bucket@.len(),
    {
        let ghost b = bucket@;
        proof {
            lemma_reverse_drop_last(b);
        }
        match bucket.pop() {
            Some(f) => {
                out.push(f);
                assert(out@ + bucket@.reverse() =~= want);
            },
            None => {},
        }
    }
    assert(bucket@.reverse() =~= Seq::<Finding>::empty());
    assert(out@ =~= want);
}

/// Orders findings for the report: most severe first, the order among equally severe
/// findings kept.
pub fn by_severity(findings: Vec<Finding>) -> (r: Vec<Finding>)
    ensures
        r@ == by_severity_spec(findings@),
{
    let ghost all = findings@;
    let mut rest = findings;
    let mut high: Vec<Finding> = Vec::new();
    let mut med: Vec<Finding> = Vec::new();
    let mut low: Vec<Finding> = Vec::new();
    while rest.len() > 0
        invariant
            all.len() >= rest@.len(),
            rest@ == all.subrange(0, rest@.len() as int),
            of_severity(all, Severity::High) == of_severity(rest@, Severity::High) + high@.reverse(),
            of_severity(all, Severity::Med) == of_severity(rest@, Severity::Med) + med@.reverse(),
            of_severity(all, Severity::Low) == of_severity(rest@, Severity::Low) + low@.reverse(),
        decreases rest@.len(),
    {
        let ghost before = rest@;
        let ghost (h0, m0, l0) = (high@, med@, low@);
        match rest.pop() {
            Some(f) => {
                assert(before.drop_last() == rest@);
                assert(before.last() == f);
                proof {
                    lemma_reverse_push(h0, f);
                    lemma_reverse_push(m0, f);
                    lemma_reverse_push(l0, f);
                }
                match f.severity {
                    Severity::High => high.push(f),
                    Severity::Med => med.push(f),
                    Severity::Low => low.push(f),
                }
                assert(rest@ == all.subrange(0, rest@.len() as int));
                assert(of_severity(all, Severity::High) =~= of_severity(rest@, Severity::High) + high@.reverse());
                assert(of_severity(all, Severity::Med) =~= of_severity(rest@, Severity::Med) + med@.reverse());
                assert(of_severity(all, Severity::Low) =~= of_severity(rest@, Severity::Low) + low@.reverse());
            },
            None => {},
        }
    }
    assert(of_severity(rest@, Severity::High) =~= Seq::<Finding>::empty());
    assert(of_severity(rest@, Severity::Med) =~= Seq::<Finding>::empty());
    assert(of_severity(rest@, Severity::Low) =~= Seq::<Finding>::empty());
    let mut out: Vec<Finding> = Vec::new();
    drain_reversed(&mut out, &mut high);
    drain_reversed(&mut out, &mut med);
    drain_reversed(&mut out, &mut low);
    assert(out@ =~= by_severity_spec(all));
    out
}

/// The report's order keeps every finding: each severity's findings, in their order, are
/// those of the input.
pub proof fn lemma_by_severity_keeps_each_severity(s: Seq<Finding>, sev: Severity)
    ensures
        of_severity(by_severity_spec(s), sev) == of_severity(s, sev),
{
    lemma_of_severity_add(of_severity(s, Severity::High) + of_severity(s, Severity::Med), of_severity(s, Severity::Low), sev);
    lemma_of_severity_add(of_severity(s, Severity::High), of_severity(s, Severity::Med), sev);
    lemma_of_severity_idem(s, Severity::High, sev);
    lemma_of_severity_idem(s, Severity::Med, sev);
    lemma_of_severity_idem(s, Severity::Low, sev);
    if sev == Severity::High {
        assert(of_severity(by_severity_spec(s), sev) =~= of_severity(s, sev));
    } else if sev == Severity::Med {
        assert(of_severity(by_severity_spec(s), sev) =~= of_severity(s, sev));
    } else {
        assert(of_severity(by_severity_spec(s), sev) =~= of_severity(s, sev));
    }
}

proof fn lemma_of_severity_add(a: Seq<Finding>, b: Seq<Finding>, sev: Severity)
    ensures
        of_severity(a + b, sev) == of_severity(a, sev) + of_severity(b, sev),
    decreases b.len(),
{
    if b.len() == 0 {
        assert(a + b =~= a);
        assert(of_severity(a, sev) + of_severity(b, sev) =~= of_severity(a, sev));
    } else {
        assert((a + b).drop_last() =~= a + b.drop_last());
        assert((a + b).last() == b.last());
        lemma_of_severity_add(a, b.drop_last(), sev);
        assert(of_severity(a + b, sev) =~= of_severity(a, sev) + of_severity(b, sev));
    }
}

proof fn lemma_of_severity_idem(s: Seq<Finding>, kept: Severity, sev: Severity)
    ensures
        of_severity(of_severity(s, kept), sev) == if kept == sev { of_severity(s, kept) } else { Seq::empty() },
    decreases s.len(),
{
    if s.len() > 0 {
        lemma_of_severity_idem(s.drop_last(), kept, sev);
        let tail = if s.last().severity == kept { seq![s.last()] } else { Seq::<Finding>::empty() };
        lemma_of_severity_add(of_severity(s.drop_last(), kept), tail, sev);
        if s.last().severity == kept {
            assert(tail.drop_last() =~= Seq::<Finding>::empty());
            assert(tail.last() == s.last());
            assert(of_severity(tail.drop_last(), sev) =~= Seq::<Finding>::empty());
            assert(of_severity(tail, sev) =~= if kept == sev { tail } else { Seq::empty() });
        } else {
            assert(of_severity(tail, sev) =~= Seq::<Finding>::empty());
        }
        if kept == sev {
            assert(of_severity(of_severity(s, kept), sev) =~= of_severity(s, kept));
        } else {
            assert(of_severity(of_severity(s, kept), sev) =~= Seq::<Finding>::empty());
        }
    } else {
        assert(of_severity(of_severity(s, kept), sev) =~= Seq::<Finding>::empty());
    }
}

} // verus!
