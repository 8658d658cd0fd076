use aoe2_pipeline::refdata::civs;
use aoe2_pipeline::refdata::error::RefdataError;
use aoe2_pipeline::refdata::icon_items::{self, IconItem};
use aoe2_pipeline::refdata::icon_map::{build, build_from_items, slugify, AssetInventory};
use aoe2_pipeline::refdata::techs;
use aoe2_pipeline::str_map::StrMap;

const CIVS: &str = r#"{"provenance":{},"civs":{
    "Britons":{"internal_name":"Britons","help_string_id":120150,
        "help_en":"Foot Archer civilization<br>\n<br>\n• Shepherds work +25% faster",
        "help_tr":"Yaya Okçu medeniyeti<br>\n<br>\n• Çobanlar %25 daha hızlı çalışır"}
}}"#;

#[test]
fn civs_parses_a_fixture() {
    let civs = civs::parse(CIVS).unwrap();
    assert_eq!(civs.len(), 1);
    let britons = civs.get("Britons").unwrap();
    assert_eq!(britons.help_string_id, 120150);
    assert!(britons.help_en.starts_with("Foot Archer civilization"));
}

#[test]
fn civs_internal_name_is_optional_and_a_bad_member_fails() {
    let ok = r#"{"civs":{"A":{"help_string_id":1,"help_en":"e","help_tr":"t"},"B":{"internal_name":null,"help_string_id":2,"help_en":"e","help_tr":"t"}}}"#;
    let civs = civs::parse(ok).unwrap();
    assert_eq!(civs.get("A").unwrap().internal_name, None);
    assert_eq!(civs.get("B").unwrap().internal_name, None);
    let bad = r#"{"civs":{"A":{"help_string_id":"1","help_en":"e","help_tr":"t"}}}"#;
    assert!(matches!(civs::parse(bad), Err(RefdataError::ParseSource { file: "aoe2techtree-civs.json", .. })));
}

const TECHS: &str = r#"{"provenance":{},"techs":{
    "22":{"ID":22,"internal_name":"Loom"},
    "213":{"ID":213,"internal_name":"Wheelbarrow"}
}}"#;

#[test]
fn techs_parses_a_fixture() {
    let table = techs::parse(TECHS).unwrap();
    assert_eq!(table.len(), 2);
    assert_eq!(table[&22].internal_name.as_deref(), Some("Loom"));
}

#[test]
fn techs_are_keyed_by_their_id_not_their_member_key() {
    let table = techs::parse(r#"{"techs":{"x":{"ID":7}}}"#).unwrap();
    assert_eq!(table[&7].id, 7);
    assert_eq!(table[&7].internal_name, None);
    assert!(techs::parse(r#"{"techs":[]}"#).is_err());
}

#[test]
fn parses_a_fixture_preserving_order() {
    let json = r#"{"items":[
        ["Archery Range","Building",0],
        ["Archer","Unit",17]
    ]}"#;
    let items = icon_items::parse(json).unwrap();
    assert_eq!(items.len(), 2);
    assert_eq!(items[0].0, "Archery Range");
    assert_eq!(items[1].2, 17);
}

fn inventory() -> AssetInventory {
    let mut civs = StrMap::new();
    civs.insert("britons".to_string(), "/images/aoe2/Civs/britons.png".to_string());
    AssetInventory {
        unit_ids: ["17", "18"].into_iter().map(String::from).collect(),
        tech_ids: ["22"].into_iter().map(String::from).collect(),
        building_ids: ["0"].into_iter().map(String::from).collect(),
        civs,
    }
}

#[test]
fn resolves_a_unit_tech_and_building_by_picture_index() {
    let items = vec![
        IconItem("Archer".to_string(), "Unit".to_string(), 17),
        IconItem("Loom".to_string(), "Tech".to_string(), 22),
        IconItem("Archery Range".to_string(), "Building".to_string(), 0),
    ];
    let doc = build_from_items(&items, &inventory());
    assert_eq!(doc.units.get("archer"), Some(&"/images/aoe2/Unit/17.png".to_string()));
    assert_eq!(doc.techs.get("loom"), Some(&"/images/aoe2/Tech/22.png".to_string()));
    assert_eq!(doc.buildings.get("archery-range"), Some(&"/images/aoe2/Building/0.png".to_string()));
    assert_eq!(doc.civs.get("britons"), Some(&"/images/aoe2/Civs/britons.png".to_string()));
}

#[test]
fn a_picture_index_missing_on_disk_is_skipped() {
    let items = vec![IconItem("Ghost".to_string(), "Unit".to_string(), 999)];
    let doc = build_from_items(&items, &inventory());
    assert!(doc.units.get("ghost").is_none());
}

#[test]
fn the_first_item_for_a_slug_wins_over_a_later_duplicate() {
    let items = vec![
        IconItem("Archer".to_string(), "Unit".to_string(), 17),
        IconItem("Archer".to_string(), "Unit".to_string(), 18),
    ];
    let doc = build_from_items(&items, &inventory());
    assert_eq!(
        doc.units.get("archer"),
        Some(&"/images/aoe2/Unit/17.png".to_string()),
        "the FIRST resolvable item must win, never a later duplicate"
    );
}

#[test]
fn trebuchet_packed_falls_back_to_trebuchet_when_unresolved_directly() {
    let items = vec![IconItem("Trebuchet Packed".to_string(), "Unit".to_string(), 17)];
    let doc = build_from_items(&items, &inventory());
    assert_eq!(doc.units.get("trebuchet"), Some(&"/images/aoe2/Unit/17.png".to_string()));
}

#[test]
fn slugify_lowercases_and_hyphenates() {
    assert_eq!(slugify("Archery Range"), "archery-range");
    assert_eq!(slugify("  Two-Handed Swordsman  "), "two-handed-swordsman");
    assert_eq!(slugify("Chu Ko Nu"), "chu-ko-nu");
}

#[test]
fn slugify_drops_punctuation_and_collapses_whitespace_runs() {
    assert_eq!(slugify("King's \t Hall!"), "kings-hall");
    assert_eq!(slugify("(Hussite) Wagon"), "hussite-wagon");
    assert_eq!(slugify("!!!"), "");
}

#[test]
fn build_reads_the_items_document_and_a_kind_mismatch_is_skipped() {
    let doc = build(r#"{"items":[["Archer","Tech",17],["Loom","Tech",22],["","Unit",17]]}"#, &inventory()).unwrap();
    assert_eq!(doc.units.len(), 0);
    assert_eq!(doc.techs.get("loom"), Some(&"/images/aoe2/Tech/22.png".to_string()));
    assert_eq!(doc.techs.len(), 1);
    assert!(build("[]", &inventory()).is_err());
}
