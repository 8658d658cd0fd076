use aoe2_pipeline::refdata::error::RefdataError;
use aoe2_pipeline::refdata::game_facts::RawCost;
use aoe2_pipeline::refdata::techtree::{resolve, NamedUnit, StatsKey};
use aoe2_pipeline::str_map::StrMap;

fn unit(id: i32, lid: i64, hp: i32, attack: i32, range: f64, cost: RawCost, train_time: i32) -> NamedUnit {
    NamedUnit {
        id,
        language_name_id: lid,
        stats: StatsKey {
            hp,
            attack,
            range_bits: range.to_bits(),
            min_range_bits: 0,
            cost,
            train_time,
            melee_armor: 0,
            pierce_armor: 0,
        },
    }
}

fn cost(food: i32, wood: i32, gold: i32) -> RawCost {
    RawCost { food, wood, gold, stone: 0 }
}

fn fixture() -> (Vec<NamedUnit>, StrMap<String>) {
    let units = vec![
        unit(4, 5083, 30, 4, 4.0, cost(0, 25, 45), 35),
        unit(1786, 5075, 45, 3, 0.0, cost(35, 25, 0), 22),
        unit(93, 5075, 45, 3, 0.0, cost(35, 25, 0), 22),
    ];
    let mut names = StrMap::new();
    names.insert("26083".to_string(), "Create <b>Archer</b> (‹cost›)<br>\nAll-purpose Foot Archer.".to_string());
    names.insert("26075".to_string(), "Create <b>Spearman</b> (‹cost›)<br>\nMedium infantry.".to_string());
    (units, names)
}

#[test]
fn resolves_a_unique_name_to_its_stats() {
    let (units, names) = fixture();
    let archer = units[resolve(&units, &names, "Archer", "archer").unwrap()];
    assert_eq!(archer.stats.hp, 30);
    assert_eq!(archer.stats.range_bits, 4.0f64.to_bits());
    assert_eq!(archer.stats.cost, RawCost { food: 0, wood: 25, gold: 45, stone: 0 });
}

#[test]
fn stat_identical_duplicate_ids_resolve_to_the_lowest_id() {
    let (units, names) = fixture();
    let spearman = units[resolve(&units, &names, "Spearman", "spearman").unwrap()];
    assert_eq!(spearman.id, 93, "the lowest id wins when stats are identical");
}

#[test]
fn ambiguous_differing_stats_fail_loud() {
    let units = vec![unit(11, 1, 99, 4, 0.0, cost(0, 0, 0), 0), unit(10, 1, 30, 4, 0.0, cost(0, 0, 0), 0)];
    let mut names = StrMap::new();
    names.insert("21001".to_string(), "Create <b>Clash</b> (x)<br>\nx".to_string());
    match resolve(&units, &names, "Clash", "clash").unwrap_err() {
        RefdataError::AmbiguousUnit { ids, .. } => assert_eq!(ids, (10, 11)),
        other => panic!("expected AmbiguousUnit, got {other:?}"),
    }
}

#[test]
fn an_unknown_name_fails_loud() {
    let (units, names) = fixture();
    match resolve(&units, &names, "Nonexistent", "nonexistent").unwrap_err() {
        RefdataError::UnitNotFound { .. } => {}
        other => panic!("expected UnitNotFound, got {other:?}"),
    }
}

#[test]
fn a_unit_without_a_help_string_or_bold_name_is_unnamed() {
    let units = vec![unit(7, 9, 1, 1, 0.0, cost(0, 0, 0), 0), unit(8, 10, 1, 1, 0.0, cost(0, 0, 0), 0)];
    let mut names = StrMap::new();
    names.insert("21010".to_string(), "no bold here".to_string());
    assert!(matches!(resolve(&units, &names, "no bold here", "x"), Err(RefdataError::UnitNotFound { .. })));
}
