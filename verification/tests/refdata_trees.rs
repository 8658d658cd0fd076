use aoe2_pipeline::refdata::error::RefdataError;
use aoe2_pipeline::refdata::tree_nodes;
use aoe2_pipeline::refdata::unit_tree::{self, AgeBuilding};

#[test]
fn resolves_unit_and_tech_names_by_node_id() {
    let json = r#"{"observations":[
        [4,"Archer","Unit"],
        [22,"Loom","Tech"]
    ]}"#;
    let t = tree_nodes::parse(json).unwrap();
    assert_eq!(t.unit_name(4), Some("Archer"));
    assert_eq!(t.tech_name(22), Some("Loom"));
    assert_eq!(t.unit_name(999), None);
}

#[test]
fn identical_repeated_observations_are_fine() {
    let json = r#"{"observations":[[4,"Archer","Unit"],[4,"Archer","Unit"]]}"#;
    let t = tree_nodes::parse(json).unwrap();
    assert_eq!(t.unit_name(4), Some("Archer"));
}

#[test]
fn conflicting_names_for_the_same_node_id_fail_loud() {
    let json = r#"{"observations":[[4,"Archer","Unit"],[4,"Levy","Unit"]]}"#;
    match tree_nodes::parse(json).unwrap_err() {
        RefdataError::ConflictingTreeNodeName { node_id, first, second, .. } => {
            assert_eq!(node_id, 4);
            assert_eq!(first, "Archer");
            assert_eq!(second, "Levy");
        }
        other => panic!("expected ConflictingTreeNodeName, got {other:?}"),
    }
}

#[test]
fn an_unexpected_use_type_fails_loud() {
    let json = r#"{"observations":[[4,"Archer","Building"]]}"#;
    match tree_nodes::parse(json).unwrap_err() {
        RefdataError::UnknownTreeNodeUseType { node_id, use_type } => {
            assert_eq!(node_id, 4);
            assert_eq!(use_type, "Building");
        }
        other => panic!("expected UnknownTreeNodeUseType, got {other:?}"),
    }
}

#[test]
fn tree_nodes_same_id_may_name_a_unit_and_a_tech() {
    let json = r#"{"provenance":{"note":"x"},"observations":[[4,"Archer","Unit"],[4,"Loom","Tech"]]}"#;
    let t = tree_nodes::parse(json).unwrap();
    assert_eq!(t.unit_name(4), Some("Archer"));
    assert_eq!(t.tech_name(4), Some("Loom"));
}

#[test]
fn tree_nodes_malformed_documents_fail_as_parse_source() {
    for bad in [
        "not json",
        r#"{"rows":[]}"#,
        r#"{"observations":[[4,"Archer"]]}"#,
        r#"{"observations":[[4.5,"Archer","Unit"]]}"#,
        r#"{"observations":[["4","Archer","Unit"]]}"#,
    ] {
        match tree_nodes::parse(bad) {
            Err(RefdataError::ParseSource { file, .. }) => assert_eq!(file, "aoe2techtree-tree-nodes.json"),
            Err(other) => panic!("expected ParseSource for {bad}, got {other:?}"),
            Ok(_) => panic!("expected an error for {bad}"),
        }
    }
}

#[test]
fn computes_the_mode_and_bands_rows_to_ages() {
    let json = r#"{"observations":[
        [74,"Barracks",1,53],
        [75,"Barracks",2,50],
        [75,"Settlement",2,3]
    ]}"#;
    let t = unit_tree::parse(json).unwrap();
    assert_eq!(
        t.require(74, "militia").unwrap(),
        &AgeBuilding { age: "dark".into(), building: "Barracks".into() }
    );
    let maa = t.require(75, "man-at-arms").unwrap();
    assert_eq!(maa.age, "feudal");
    assert_eq!(maa.building, "Barracks", "the Barracks mode must beat the Settlement reskin");
}

#[test]
fn same_age_split_across_two_rows_still_modes_correctly() {
    let json = r#"{"observations":[
        [473,"Barracks",6,30],
        [473,"Barracks",7,20],
        [473,"Barracks",4,5]
    ]}"#;
    let t = unit_tree::parse(json).unwrap();
    assert_eq!(t.require(473, "two-handed-swordsman").unwrap().age, "imperial");
}

#[test]
fn missing_unit_fails_loud() {
    let t = unit_tree::parse(r#"{"observations":[]}"#).unwrap();
    match t.require(999, "ghost").unwrap_err() {
        RefdataError::MissingAgeBuilding { slug, unit_id } => {
            assert_eq!(slug, "ghost");
            assert_eq!(unit_id, 999);
        }
        other => panic!("expected MissingAgeBuilding, got {other:?}"),
    }
}

#[test]
fn unit_tree_ties_go_to_the_smaller_building_then_band_and_rows_cap_at_imperial() {
    let json = r#"{"observations":[
        [1,"Stable",2,10],
        [1,"Barracks",4,10],
        [2,"Dock",2,7],
        [2,"Dock",0,7],
        [3,"Castle",15,1]
    ]}"#;
    let t = unit_tree::parse(json).unwrap();
    assert_eq!(t.require(1, "a").unwrap(), &AgeBuilding { age: "castle".into(), building: "Barracks".into() });
    assert_eq!(t.require(2, "b").unwrap().age, "dark");
    assert_eq!(t.require(3, "c").unwrap().age, "imperial");
    assert_eq!(t.0.len(), 3);
}

#[test]
fn unit_tree_parse_checked_refuses_counts_past_u32() {
    let big = r#"{"observations":[[4,"Archery Range",2,4294967295],[4,"Archery Range",2,1]]}"#;
    assert!(unit_tree::parse_checked(big).is_none());
    let ok = r#"{"observations":[[4,"Archery Range",2,53],[4,"Stable",2,1]]}"#;
    let t = unit_tree::parse_checked(ok).unwrap().unwrap();
    assert_eq!(t.require(4, "archer").unwrap().building, "Archery Range");
    assert!(matches!(unit_tree::parse_checked("{"), Some(Err(_))));
    // past u32 only when summed over different (building, band) keys: every tally fits
    let split = r#"{"observations":[[4,"Archery Range",2,4294967295],[4,"Stable",2,1],[4,"Archery Range",6,7]]}"#;
    let t = unit_tree::parse_checked(split).unwrap().unwrap();
    assert_eq!(t.require(4, "archer").unwrap().building, "Archery Range");
}
