use aoe2_pipeline::refdata::civ_region::{
    fix_specialty, is_word_boundary, region_for, region_noun_for, unique_unit_override_for,
    REGION_NOUN, REGION_OVERRIDE, UNIQUE_UNIT_OVERRIDE,
};
use aoe2_pipeline::refdata::error::RefdataError;

#[test]
fn region_for_resolves_a_known_civ() {
    assert_eq!(region_for("britons").unwrap(), "Western European");
    assert_eq!(region_for("armenians").unwrap(), "Caucasian");
}

#[test]
fn region_for_an_unknown_slug_fails_loud() {
    match region_for("atlanteans").unwrap_err() {
        RefdataError::MissingCivRegion { slug } => assert_eq!(slug, "atlanteans"),
        other => panic!("expected MissingCivRegion, got {other:?}"),
    }
}

#[test]
fn region_override_has_one_row_per_civ() {
    assert_eq!(REGION_OVERRIDE.len(), 53);
    let mut slugs: Vec<&str> = REGION_OVERRIDE.iter().map(|(s, _)| *s).collect();
    slugs.sort_unstable();
    slugs.dedup();
    assert_eq!(slugs.len(), 53);
    // every region has a noun phrase
    for (_, region) in REGION_OVERRIDE.iter() {
        assert!(REGION_NOUN.iter().any(|(r, _)| r == region), "{region} has no noun");
    }
}

#[test]
fn region_noun_for_known_and_unknown_regions() {
    assert_eq!(region_noun_for("Caucasian"), "the Caucasus");
    assert_eq!(region_noun_for("Nowhere"), "Nowhere");
}

#[test]
fn fix_specialty_title_cases_and_preserves_hyphen_tail_lowercase() {
    assert_eq!(fix_specialty("Cavalry and Counter-Units "), "Cavalry and Counter-units");
}

#[test]
fn fix_specialty_passes_through_already_clean_values() {
    assert_eq!(fix_specialty("Foot Archer "), "Foot Archer");
    assert_eq!(fix_specialty("Infantry and Monk "), "Infantry and Monk");
    assert_eq!(fix_specialty("Cavalry Archer "), "Cavalry Archer");
}

#[test]
fn fix_specialty_fixes_the_calvary_typo_and_strips_civilzation() {
    assert_eq!(fix_specialty("Calvary and Siege Civilzation"), "Cavalry and Siege");
}

#[test]
fn fix_specialty_singularizes_archers() {
    assert_eq!(fix_specialty("Archers"), "Archer");
}

#[test]
fn fix_specialty_does_not_match_archers_as_a_substring() {
    assert_eq!(fix_specialty("Archersmith"), "Archersmith");
    assert_eq!(fix_specialty("FootArchers"), "Footarchers");
}

#[test]
fn is_word_boundary_is_false_between_two_non_word_bytes() {
    let bytes = b"a  b";
    assert!(!is_word_boundary(bytes, 2));
    assert!(is_word_boundary(bytes, 1));
    assert!(is_word_boundary(bytes, 0));
    assert!(is_word_boundary(bytes, 4));
}

#[test]
fn fix_specialty_expands_cavalry_infantry_special_case() {
    assert_eq!(fix_specialty("cavalry infantry"), "Cavalry and Infantry");
}

#[test]
fn unique_unit_override_covers_exactly_the_three_known_gap_civs() {
    assert_eq!(UNIQUE_UNIT_OVERRIDE.len(), 3);
    assert_eq!(unique_unit_override_for("incas"), Some(&["kamayuk", "slinger"][..]));
    assert_eq!(unique_unit_override_for("britons"), None);
}

#[test]
fn fix_specialty_is_case_insensitive_for_the_typo_and_the_and_separator() {
    assert_eq!(fix_specialty("CALVARY AND infantry"), "Cavalry and Infantry");
    assert_eq!(fix_specialty("siege   civilzation  and monk"), "Siege and Monk");
}
