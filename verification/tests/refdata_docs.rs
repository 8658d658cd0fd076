use aoe2_pipeline::refdata::armor_classes;
use aoe2_pipeline::refdata::error::RefdataError;
use aoe2_pipeline::refdata::game_facts::{attack_bonus, build_from_resolved, sparse_cost, RawAttack, RawCost, ResolvedUnit};
use aoe2_pipeline::refdata::model::AgeRank;
use aoe2_pipeline::refdata::techs::RawTech;
use aoe2_pipeline::refdata::tree_nodes;
use aoe2_pipeline::refdata::unit_tech_names::{build_tech_names, build_unit_names};
use aoe2_pipeline::refdata::unit_tree;

#[test]
fn attack_bonus_skips_base_classes_and_renders_labels() {
    let armor = armor_classes::parse("27\tSpearmen\n");
    let attacks = vec![
        RawAttack { class: 3, amount: 4 },
        RawAttack { class: 27, amount: 3 },
        RawAttack { class: 15, amount: 0 },
    ];
    assert_eq!(attack_bonus(&attacks, &armor).unwrap().as_deref(), Some("+3 Spearmen"));
}

#[test]
fn attack_bonus_joins_with_semicolons_and_fails_on_an_unknown_class() {
    let armor = armor_classes::parse("27\tSpearmen\n8\tMounted Units\n");
    let attacks = vec![RawAttack { class: 8, amount: 12 }, RawAttack { class: 27, amount: 1 }];
    assert_eq!(attack_bonus(&attacks, &armor).unwrap().as_deref(), Some("+12 Mounted Units;+1 Spearmen"));
    assert_eq!(attack_bonus(&[RawAttack { class: 4, amount: 9 }], &armor).unwrap(), None);
    assert_eq!(
        attack_bonus(&[RawAttack { class: 99, amount: 2 }], &armor).unwrap_err(),
        RefdataError::UnknownAttackClass { class: 99 }
    );
}

#[test]
fn sparse_cost_keeps_only_non_zero_resources() {
    let c = sparse_cost(&RawCost { food: 0, wood: 25, gold: 45, stone: 0 });
    assert_eq!(c.get("wood"), Some(&25));
    assert_eq!(c.get("gold"), Some(&45));
    assert_eq!(c.get("food"), None);
    assert_eq!(c.len(), 2);
}

fn archer() -> ResolvedUnit {
    ResolvedUnit {
        display_name: "Archer",
        slug: "archer",
        id: 4,
        cost: RawCost { food: 0, wood: 25, gold: 45, stone: 0 },
        attacks: vec![RawAttack { class: 3, amount: 4 }, RawAttack { class: 27, amount: 3 }],
    }
}

#[test]
fn archer_facts_from_fixtures() {
    let tree = unit_tree::parse(r#"{"observations":[[4,"Archery Range",2,53]]}"#).unwrap();
    let armor = armor_classes::parse("27\tSpearmen\n");
    let doc = build_from_resolved(&[archer()], &tree, &armor).unwrap();
    assert_eq!(doc.units.len(), 1);
    assert_eq!(doc.age_rank, AgeRank { dark: 1, feudal: 2, castle: 3, imperial: 4 });
    let a = doc.units.get("archer").unwrap();
    assert_eq!(a.name, "Archer");
    assert_eq!(a.age, "feudal");
    assert_eq!(a.building, "Archery Range");
    assert_eq!(a.cost.get("food"), None, "sparse: no zero-valued food key");
    assert_eq!(a.attack_bonus.as_deref(), Some("+3 Spearmen"));
    assert_eq!(doc.source.url, "https://github.com/SiegeEngineers/aoe2techtree/tree/b9d494df6921d4080df69b22f9dbb7a4d1dcd9f0");
}

#[test]
fn game_facts_fail_on_a_unit_without_a_tree_observation() {
    let tree = unit_tree::parse(r#"{"observations":[]}"#).unwrap();
    let armor = armor_classes::parse("27\tSpearmen\n");
    assert_eq!(
        build_from_resolved(&[archer()], &tree, &armor).unwrap_err(),
        RefdataError::MissingAgeBuilding { slug: "archer", unit_id: 4 }
    );
}

#[test]
fn loom_and_scout_names_resolve_from_tree_nodes() {
    let tree = tree_nodes::parse(
        r#"{"observations":[[448,"Scout Cavalry","Unit"],[83,"Villager","Unit"],[22,"Loom","Tech"]]}"#,
    )
    .unwrap();
    let units = build_unit_names(
        &vec![(448, Some("SCOUT".to_string())), (83, None), (999, Some("GHOST".to_string()))],
        &tree,
    );
    assert_eq!(units.map.get("448"), Some(&"Scout Cavalry".to_string()));
    assert_eq!(units.map.get("83"), Some(&"Villager".to_string()));
    assert_eq!(units.internal_names.get("448"), Some(&"SCOUT".to_string()));
    assert_eq!(units.internal_names.get("83"), None);
    assert_eq!(units.map.get("999"), None, "an id no tree names is omitted");
    let techs = build_tech_names(&[RawTech { id: 22, internal_name: Some("Loom".to_string()) }], &tree);
    assert_eq!(techs.map.get("22"), Some(&"Loom".to_string()));
    assert_eq!(techs.map.len(), 1);
}

#[test]
fn keyed_tables_come_out_in_ascending_key_order() {
    let c = sparse_cost(&RawCost { food: 60, wood: 20, gold: 30, stone: 5 });
    assert_eq!(c.entries().iter().map(|(k, _)| k.clone()).collect::<Vec<String>>(), vec!["food", "gold", "stone", "wood"]);
    let tree = tree_nodes::parse(
        r#"{"observations":[[448,"Scout Cavalry","Unit"],[83,"Villager","Unit"],[4,"Archer","Unit"]]}"#,
    )
    .unwrap();
    let units = build_unit_names(&vec![(448, None), (83, None), (4, None)], &tree);
    // string order, as a BTreeMap<String, _> keeps it
    assert_eq!(units.map.entries().iter().map(|(k, _)| k.clone()).collect::<Vec<String>>(), vec!["4", "448", "83"]);
    let t = unit_tree::parse(r#"{"observations":[[4,"Archery Range",2,53],[74,"Barracks",0,53]]}"#).unwrap();
    let armor = armor_classes::parse("27\tSpearmen\n");
    let militia = ResolvedUnit { display_name: "Militia", slug: "militia", id: 74, cost: RawCost { food: 60, wood: 0, gold: 20, stone: 0 }, attacks: vec![] };
    let doc = build_from_resolved(&[militia, archer()], &t, &armor).unwrap();
    assert_eq!(doc.units.entries().iter().map(|(k, _)| k.clone()).collect::<Vec<String>>(), vec!["archer", "militia"]);
}
