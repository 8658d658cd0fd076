use aoe2_pipeline::refdata::civ_help::Lang;
use aoe2_pipeline::refdata::error::RefdataError;
use aoe2_pipeline::refdata::unit_help::{
    bold_span, build_from_ids, parse_unit_help, strip_any_tags, strip_tags,
};
use aoe2_pipeline::str_map::StrMap;

const ARCHER_EN: &str = "Create <b>Archer</b> (‹cost›)<br>\n\
    All-purpose Foot Archer. Strong vs. units at long range. Weak vs. Skirmishers, \
    Mangonel-line and units at close range.<br>\n\
    <i>Upgrades: attack, range, armor (Blacksmith); attack, accuracy (University); accuracy, \
    to Crossbowman (Archery Range); creation speed (Castle); more resistant to Monks \
    (Monastery).</i>\u{2039}DEFAULT\u{203a}<br>\n\
    \u{2039}hp\u{203a} \u{2039}attack\u{203a} \u{2039}armor\u{203a} \u{2039}piercearmor\u{203a} \u{2039}range\u{203a}";

#[test]
fn parses_the_real_archer_help_string() {
    let out = parse_unit_help(ARCHER_EN, Lang::En, "archer").unwrap();
    assert_eq!(
        out.body,
        "All-purpose Foot Archer. Strong vs. units at long range. Weak vs. Skirmishers, \
         Mangonel-line and units at close range."
    );
    assert_eq!(
        out.upgrades.as_deref(),
        Some(
            "attack, range, armor (Blacksmith); attack, accuracy (University); accuracy, to \
             Crossbowman (Archery Range); creation speed (Castle); more resistant to Monks \
             (Monastery)."
        )
    );
}

#[test]
fn no_bold_name_fails_loud() {
    match parse_unit_help("No bold here<br>\nbody", Lang::En, "ghost").unwrap_err() {
        RefdataError::UnitHelpNoBoldName { slug, .. } => assert_eq!(slug, "ghost"),
        other => panic!("expected UnitHelpNoBoldName, got {other:?}"),
    }
}

#[test]
fn no_br_after_title_fails_loud() {
    match parse_unit_help("<b>Name</b> no break here", Lang::En, "ghost").unwrap_err() {
        RefdataError::UnitHelpNoBreakAfterTitle { slug, .. } => assert_eq!(slug, "ghost"),
        other => panic!("expected UnitHelpNoBreakAfterTitle, got {other:?}"),
    }
}

#[test]
fn a_unit_with_no_upgrades_line_has_none() {
    let raw = "Create <b>Fishing Ship</b> (‹cost›)<br>\nGathers food from fish.\u{2039}DEFAULT\u{203a}";
    let out = parse_unit_help(raw, Lang::En, "fishing-ship").unwrap();
    assert_eq!(out.body, "Gathers food from fish.");
    assert_eq!(out.upgrades, None);
}

#[test]
fn upgrades_label_mismatch_fails_loud() {
    let raw = "Create <b>X</b> (c)<br>\nbody<br>\n<i>Not the right label</i>";
    match parse_unit_help(raw, Lang::En, "x").unwrap_err() {
        RefdataError::UnitHelpUpgradesLabelMismatch { slug, .. } => assert_eq!(slug, "x"),
        other => panic!("expected UnitHelpUpgradesLabelMismatch, got {other:?}"),
    }
}

#[test]
fn an_empty_body_fails_loud_and_the_tr_label_is_checked() {
    assert_eq!(
        parse_unit_help("<b>X</b><br><i>Upgrades: a</i>", Lang::En, "x").unwrap_err(),
        RefdataError::UnitHelpEmptyBody { slug: "x", lang: "EN" }
    );
    let tr = parse_unit_help("<b>X</b><br>gövde<i>Yükseltmeler:  hız </i>", Lang::Tr, "x").unwrap();
    assert_eq!(tr.body, "gövde");
    assert_eq!(tr.upgrades.as_deref(), Some("hız"));
}

#[test]
fn strip_tags_folds_br_to_space_and_collapses_whitespace() {
    assert_eq!(strip_tags("a<br>b<br>  c   d"), "a b c d");
    assert_eq!(strip_tags("<i>x</i> plain"), "x plain");
}

#[test]
fn strip_any_tags_leaves_an_empty_bracket_pair_untouched() {
    assert_eq!(strip_any_tags("a<>b"), "a<>b");
    assert_eq!(strip_any_tags("a<x>b</x>c"), "abc");
}

#[test]
fn strip_any_tags_keeps_an_unclosed_bracket() {
    assert_eq!(strip_any_tags("a < b"), "a < b");
    assert_eq!(strip_any_tags("x<y"), "x<y");
}

#[test]
fn bold_span_extracts_the_name() {
    assert_eq!(bold_span("Create <b>Archer</b> (x)").as_deref(), Some("Archer"));
    assert_eq!(bold_span("no bold here"), None);
}

#[test]
fn build_from_ids_reads_both_languages_and_fails_on_a_missing_string() {
    let mut en = StrMap::new();
    let mut tr = StrMap::new();
    en.insert("26083".to_string(), ARCHER_EN.to_string());
    tr.insert("26083".to_string(), "<b>Okçu</b><br>Okçu gövdesi<i>Yükseltmeler: saldırı</i>".to_string());
    let doc = build_from_ids(&[("archer", 5083)], &en, &tr).unwrap();
    let archer = doc.units.get("archer").unwrap();
    assert_eq!(archer.description.tr, "Okçu gövdesi");
    assert_eq!(archer.upgrades.as_ref().unwrap().tr, "saldırı");
    assert_eq!(
        build_from_ids(&[("archer", 5083), ("ghost", 1)], &en, &tr).unwrap_err(),
        RefdataError::UnitHelpStringMissing { slug: "ghost", language_name_id: 1, lang: "EN" }
    );
    let mut tr_plain = StrMap::new();
    tr_plain.insert("26083".to_string(), "<b>Okçu</b><br>Okçu gövdesi".to_string());
    assert_eq!(
        build_from_ids(&[("archer", 5083)], &en, &tr_plain).unwrap_err(),
        RefdataError::UnitHelpUpgradesLangMismatch { slug: "archer" }
    );
}
