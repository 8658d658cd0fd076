use aoe2_pipeline::replay::analyze::findings::{
    by_severity, eco_tech_findings, feudal_race, idle_findings, late_findings, player_facts, PlayerFacts,
};
use aoe2_pipeline::replay::analyze::metrics::{Ev, EvKind};
use aoe2_pipeline::replay::analyze::model::{Basis, Family, Finding, Severity};

fn pm(pn: i32, idle_dark_ms: u32, feudal_ms: Option<u32>) -> PlayerFacts {
    PlayerFacts {
        player_number: pn,
        feudal_ms,
        castle_ms: None,
        idle_dark_ms,
        idle_feudal_ms: 0,
        first_military_ms: Some(700_000),
        eco_techs: vec![],
        enemy_located: false,
        find_enemy_ms: None,
    }
}

fn finding(pn: i32, code: &'static str, severity: Severity) -> Finding {
    Finding {
        player_number: pn,
        code,
        metric: code.to_string(),
        your: String::new(),
        reference: String::new(),
        basis: Basis::Absolute,
        severity,
        note: String::new(),
        vars: vec![],
    }
}

#[test]
fn flags_high_dark_idle_tc() {
    let f = idle_findings(&pm(1, 80_000, Some(720_000)));
    assert!(f
        .iter()
        .any(|x| x.metric.contains("idle TC") && matches!(x.severity, Severity::High)));
}

#[test]
fn idle_thresholds_and_texts() {
    assert!(idle_findings(&pm(1, 35_000, None)).is_empty());
    let f = idle_findings(&pm(1, 35_001, None));
    assert_eq!(f.len(), 1);
    assert_eq!(f[0].code, "idle_tc_dark");
    assert_eq!(f[0].your, "35s");
    assert!(matches!(f[0].severity, Severity::Med));
    let mut p = pm(2, 70_001, None);
    p.idle_feudal_ms = 50_001;
    let f = idle_findings(&p);
    assert_eq!(f.len(), 2);
    assert_eq!(f[0].your, "70s");
    assert!(matches!(f[0].severity, Severity::High));
    assert_eq!(f[1].code, "idle_tc_feudal");
    assert_eq!(f[1].reference, "<25s");
    assert_eq!(f[1].player_number, 2);
}

#[test]
fn eco_techs_count_only_when_researched_by_the_age() {
    let mut p = pm(1, 0, Some(600_000));
    p.castle_ms = Some(1_200_000);
    // Loom after Feudal, Wheelbarrow before Castle: only the Loom finding.
    p.eco_techs = vec![(22, 650_000), (213, 1_000_000)];
    let f = eco_tech_findings(&p);
    assert_eq!(f.len(), 1);
    assert_eq!(f[0].code, "no_loom");
    assert_eq!(f[0].your, "not by Feudal");
    assert!(matches!(f[0].severity, Severity::Low));
    // Neither: both findings, Wheelbarrow first.
    p.eco_techs = vec![];
    let f = eco_tech_findings(&p);
    assert_eq!(f.iter().map(|x| x.code).collect::<Vec<_>>(), vec!["no_wheelbarrow", "no_loom"]);
    // An age never reached asks for nothing.
    let f = eco_tech_findings(&pm(1, 0, None));
    assert!(f.is_empty());
}

#[test]
fn military_and_scouting_findings() {
    let mut p = pm(1, 0, None);
    p.first_military_ms = Some(1_200_000);
    assert!(late_findings(&p, Family::Open).is_empty());
    p.first_military_ms = Some(1_260_500);
    let f = late_findings(&p, Family::Open);
    assert_eq!(f.len(), 1);
    assert_eq!(f[0].your, "21:00");
    p.first_military_ms = None;
    let f = late_findings(&p, Family::Open);
    assert_eq!(f[0].your, "none");
    // Scouting only counts on open maps where the enemy base was located.
    p.first_military_ms = Some(300_000);
    p.enemy_located = true;
    p.find_enemy_ms = None;
    let f = late_findings(&p, Family::Open);
    assert_eq!(f.len(), 1);
    assert_eq!(f[0].code, "scouting_never");
    assert!(late_findings(&p, Family::Closed).is_empty());
    p.find_enemy_ms = Some(480_000);
    assert!(late_findings(&p, Family::Open).is_empty());
    p.find_enemy_ms = Some(545_000);
    let f = late_findings(&p, Family::Open);
    assert_eq!(f[0].code, "scouting_late");
    assert_eq!(f[0].your, "9:05");
}

#[test]
fn feudal_race_flags_the_later_player_by_more_than_45s() {
    let f = feudal_race(1, Some(660_000), "Alice", 2, Some(600_000), "Bob").unwrap();
    assert_eq!(f.player_number, 1);
    assert_eq!(f.your, "11:00");
    assert_eq!(f.reference, "10:00");
    assert_eq!(f.note, "Reached Feudal 60s after Bob — you started the game behind.");
    assert!(matches!(f.basis, Basis::Opponent));
    assert!(feudal_race(1, Some(645_000), "Alice", 2, Some(600_000), "Bob").is_none());
    assert!(feudal_race(1, None, "Alice", 2, Some(600_000), "Bob").is_none());
    let f = feudal_race(1, Some(500_000), "Alice", 2, Some(600_000), "Bob").unwrap();
    assert_eq!(f.player_number, 2);
    assert_eq!(f.note, "Reached Feudal 100s after Alice — you started the game behind.");
}

#[test]
fn findings_order_most_severe_first_keeping_ties_in_order() {
    let v = vec![
        finding(1, "a", Severity::Low),
        finding(1, "b", Severity::High),
        finding(2, "c", Severity::Med),
        finding(2, "d", Severity::High),
        finding(3, "e", Severity::Low),
    ];
    let r = by_severity(v);
    assert_eq!(r.iter().map(|f| f.code).collect::<Vec<_>>(), vec!["b", "d", "c", "a", "e"]);
    assert!(by_severity(vec![]).is_empty());
}

#[test]
fn player_facts_read_the_event_stream() {
    let mut evs = vec![];
    for i in 0..30u32 {
        // ten villagers before Feudal, thirty before Castle
        let t = if i < 10 { 10_000 * i } else { 610_000 + 10_000 * i };
        evs.push(Ev { player: 1, t_ms: t, kind: EvKind::Train(83) });
    }
    evs.push(Ev { player: 1, t_ms: 600_000, kind: EvKind::Research(101) });
    evs.push(Ev { player: 1, t_ms: 1_200_000, kind: EvKind::Research(102) });
    evs.push(Ev { player: 1, t_ms: 900_000, kind: EvKind::Train(4) });
    evs.push(Ev { player: 1, t_ms: 650_000, kind: EvKind::Research(22) });
    evs.push(Ev { player: 2, t_ms: 100_000, kind: EvKind::Train(4) });
    let f = player_facts(&evs, 1, true, Some(400_000));
    assert_eq!(f.feudal_ms, Some(600_000));
    assert_eq!(f.castle_ms, Some(1_200_000));
    // 600 s window less 10 villagers x 25 s
    assert_eq!(f.idle_dark_ms, 350_000);
    // 1200 s less 30 x 25 s = 450 s, minus the Dark-Age 350 s
    assert_eq!(f.idle_feudal_ms, 100_000);
    assert_eq!(f.first_military_ms, Some(900_000));
    assert_eq!(f.eco_techs, vec![(22, 650_000)]);
    assert!(f.enemy_located);
    assert_eq!(f.find_enemy_ms, Some(400_000));
    let g = player_facts(&evs, 3, false, None);
    assert_eq!(g.feudal_ms, None);
    assert_eq!(g.idle_dark_ms, 0);
    assert_eq!(g.idle_feudal_ms, 0);
    assert_eq!(g.first_military_ms, None);
}
