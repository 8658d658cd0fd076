use aoe2_pipeline::refdata::armor_classes;
use aoe2_pipeline::refdata::canonical_units::CANONICAL_UNITS;
use aoe2_pipeline::refdata::error::RefdataError;
use aoe2_pipeline::refdata::name_to_slug::NAME_TO_SLUG;
use aoe2_pipeline::refdata::unit_lines::{self, UnitLine};

#[test]
fn parses_a_fixture_and_skips_comments_and_blanks() {
    let t = unit_lines::parse("# comment\nmilitia\tmilitia-line\t1\n\nman-at-arms\tmilitia-line\t2\n");
    assert_eq!(
        t.get("militia"),
        Some(&UnitLine { line: "militia-line".to_string(), line_rank: 1 })
    );
    assert_eq!(t.get("man-at-arms").unwrap().line_rank, 2);
    assert_eq!(t.get("nonexistent"), None);
}

#[test]
fn unit_lines_trims_fields_drops_bad_ranks_and_keeps_the_last_duplicate() {
    let t = unit_lines::parse(" knight \t knight-line \t 2 \r\nbad\tline\tx\nknight\tother\t3\nshort\tonly\n");
    assert_eq!(t.get("knight"), Some(&UnitLine { line: "other".to_string(), line_rank: 3 }));
    assert_eq!(t.get("bad"), None);
    assert_eq!(t.get("short"), None);
    assert_eq!(t.0.len(), 1);
}

#[test]
fn unit_lines_require_fails_loud_on_a_missing_slug() {
    let t = unit_lines::parse("militia\tmilitia-line\t1\n");
    assert_eq!(unit_lines::require(&t, "militia").unwrap().line, "militia-line");
    assert_eq!(
        unit_lines::require(&t, "paladin").unwrap_err(),
        RefdataError::MissingUnitLine { slug: "paladin" }
    );
}

#[test]
fn parses_a_fixture_and_skips_comments() {
    let t = armor_classes::parse("# comment\n27\tSpearmen\n\n8\tMounted Units\n");
    assert_eq!(t.label(27).unwrap(), "Spearmen");
    assert_eq!(t.label(8).unwrap(), "Mounted Units");
}

#[test]
fn unknown_class_fails_loud() {
    let t = armor_classes::parse("27\tSpearmen\n");
    match t.label(999).unwrap_err() {
        RefdataError::UnknownAttackClass { class } => assert_eq!(class, 999),
        other => panic!("expected UnknownAttackClass, got {other:?}"),
    }
}

#[test]
fn armor_classes_label_keeps_inner_tabs_and_drops_bad_ids() {
    let t = armor_classes::parse("-3\tA\tB \nx\tBad\n4\n");
    assert_eq!(t.label(-3).unwrap(), "A\tB");
    assert!(t.label(4).is_err());
    assert_eq!(t.0.len(), 1);
}

#[test]
fn has_exactly_ninety_entries() {
    assert_eq!(CANONICAL_UNITS.len(), 90);
}

#[test]
fn canonical_units_every_slug_is_unique() {
    let mut slugs: Vec<&str> = CANONICAL_UNITS.iter().map(|(_, s)| *s).collect();
    slugs.sort_unstable();
    slugs.dedup();
    assert_eq!(slugs.len(), CANONICAL_UNITS.len());
}

#[test]
fn every_display_name_is_unique() {
    let mut names: Vec<&str> = CANONICAL_UNITS.iter().map(|(n, _)| *n).collect();
    names.sort_unstable();
    names.dedup();
    assert_eq!(names.len(), CANONICAL_UNITS.len());
}

#[test]
fn the_three_game_renamed_units_use_game_names() {
    let by_slug = |slug: &str| CANONICAL_UNITS.iter().find(|(_, s)| *s == slug).map(|(n, _)| *n);
    assert_eq!(by_slug("arbalester"), Some("Arbalester"));
    assert_eq!(by_slug("camel-rider"), Some("Camel Rider"));
    assert_eq!(by_slug("heavy-camel-rider"), Some("Heavy Camel Rider"));
}

#[test]
fn has_forty_eight_entries() {
    assert_eq!(NAME_TO_SLUG.len(), 48);
}

#[test]
fn uses_the_authoritative_game_names() {
    let names: Vec<&str> = NAME_TO_SLUG.iter().map(|(n, _)| *n).collect();
    assert!(names.contains(&"Arbalester"));
    assert!(names.contains(&"Camel Rider"));
    assert!(names.contains(&"Heavy Camel Rider"));
    assert!(!names.contains(&"Eagle Scout"), "site doesn't track this yet");
}

#[test]
fn name_to_slug_every_slug_is_unique() {
    let mut slugs: Vec<&str> = NAME_TO_SLUG.iter().map(|(_, s)| *s).collect();
    slugs.sort_unstable();
    slugs.dedup();
    assert_eq!(slugs.len(), NAME_TO_SLUG.len());
}
