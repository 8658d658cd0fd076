use aoe2_pipeline::refdata::civ_help::{
    parse_help, require_parsed, split_name_effect, strip_trailing_parenthetical, Lang,
    UniqueTechText,
};
use aoe2_pipeline::refdata::error::RefdataError;

const BRITONS_EN: &str = "Foot Archer civilization<br>\n<br>\n\
    • Shepherds work +25% faster<br>\n\
    • Town Centers cost -50% wood starting in Castle Age<br>\n\
    • Foot Archers +1/+2 range in Castle/Imperial Age <br>\n<br>\n\
    <b>Unique Unit:</b> <br>\nLongbowman (Foot Archer)<br>\n<br>\n\
    <b>Unique Techs:</b> <br>\n\
    • Yeomen (Foot Archers and Skirmisher-line +1 range; Watch Tower-line +2 attack)<br>\n\
    • Warwolf (Trebuchets deal blast damage and are more accurate)<br>\n<br>\n\
    <b>Team Bonus:</b> <br>\nArchery Ranges work +10% faster";

#[test]
fn parses_the_real_britons_help_string() {
    let out = parse_help(BRITONS_EN, Lang::En).expect("must parse");
    assert_eq!(out.civ_type, "Foot Archer");
    assert_eq!(
        out.civ_bonuses,
        vec![
            "Shepherds work +25% faster",
            "Town Centers cost -50% wood starting in Castle Age",
            "Foot Archers +1/+2 range in Castle/Imperial Age",
        ]
    );
    assert_eq!(out.unique_unit_names, vec!["Longbowman"]);
    assert_eq!(
        out.unique_techs,
        vec![
            UniqueTechText {
                name: "Yeomen".into(),
                effect: "Foot Archers and Skirmisher-line +1 range; Watch Tower-line +2 attack"
                    .into()
            },
            UniqueTechText {
                name: "Warwolf".into(),
                effect: "Trebuchets deal blast damage and are more accurate".into()
            },
        ]
    );
    assert_eq!(out.team_bonus, "Archery Ranges work +10% faster");
}

#[test]
fn parses_the_tr_variant_with_diacritic_markers() {
    let tr = "Yaya Okçu medeniyeti<br>\n<br>\n\
        • Çobanlar %25 daha hızlı çalışır<br>\n<br>\n\
        <b>Özgün Birim:</b> <br>\nUzunyay Okçusu (Yaya Okçu)<br>\n<br>\n\
        <b>Özgün Teknolojiler:</b> <br>\n\
        • Yeomen (Menzil +1)<br>\n\
        • Warwolf (Hasar artar)<br>\n<br>\n\
        <b>Takım Bonusu:</b> <br>\nOkçuluk Binası %10 daha hızlı çalışır";
    let out = parse_help(tr, Lang::Tr).expect("must parse");
    assert_eq!(out.civ_type, "Yaya Okçu");
    assert_eq!(out.civ_bonuses, vec!["Çobanlar %25 daha hızlı çalışır"]);
    assert_eq!(out.unique_unit_names, vec!["Uzunyay Okçusu"]);
    assert_eq!(out.unique_techs.len(), 2);
    assert_eq!(out.team_bonus, "Okçuluk Binası %10 daha hızlı çalışır");
}

#[test]
fn byzantines_tr_ozel_teknoloji_synonym_is_recognized() {
    let tr = "Savunma medeniyeti<br>\n• Bonus<br>\n<b>Özel Teknolojiler:</b> <br>\n• X (Y)";
    let out = parse_help(tr, Lang::Tr).expect("must parse");
    assert_eq!(out.unique_techs, vec![UniqueTechText { name: "X".into(), effect: "Y".into() }]);
}

#[test]
fn a_string_with_no_bullets_parses_to_none() {
    assert_eq!(parse_help("Just prose, no bullets<br>\nMore prose", Lang::En), None);
}

#[test]
fn nested_parenthetical_falls_through_to_name_only_like_armenians_imperial_tech() {
    let text = "Fereters (Infantry (except Spearman-line) +30 HP; Warrior Priests heal +100% faster)";
    let (name, effect) = split_name_effect(text);
    assert_eq!(name, text);
    assert_eq!(effect, "");
}

#[test]
fn empty_parenthetical_content_is_not_a_match() {
    assert_eq!(split_name_effect("Name ()"), ("Name ()".to_string(), String::new()));
}

#[test]
fn multiple_trailing_parens_split_at_the_last_one() {
    assert_eq!(split_name_effect("Name (a) (b)"), ("Name (a)".to_string(), "b".to_string()));
}

#[test]
fn strip_trailing_parenthetical_handles_a_unit_class_suffix() {
    assert_eq!(strip_trailing_parenthetical("Iron Pagoda (Cavalry)"), "Iron Pagoda");
    assert_eq!(strip_trailing_parenthetical("Grenadier"), "Grenadier");
}

#[test]
fn require_parsed_rejects_text_without_bonuses() {
    match require_parsed("no bullets here", Lang::En, "atlanteans", 7) {
        Err(RefdataError::CivHelpUnparseable { civ_key, lang, help_string_id }) => {
            assert_eq!(civ_key, "atlanteans");
            assert_eq!(lang, "EN");
            assert_eq!(help_string_id, 7);
        }
        other => panic!("expected CivHelpUnparseable, got {other:?}"),
    }
}

#[test]
fn require_parsed_rejects_a_wrong_unique_tech_count() {
    let one_tech = "X civilization<br>• Bonus<br><b>Unique Techs:</b><br>• Only (one)";
    match require_parsed(one_tech, Lang::En, "x", 1) {
        Err(RefdataError::CivUniqueTechCount { civ_key, lang, count }) => {
            assert_eq!(civ_key, "x");
            assert_eq!(lang, "EN");
            assert_eq!(count, 1);
        }
        other => panic!("expected CivUniqueTechCount, got {other:?}"),
    }
}

#[test]
fn require_parsed_accepts_the_britons_help_string() {
    let out = require_parsed(BRITONS_EN, Lang::En, "britons", 120150).unwrap();
    assert_eq!(out.unique_techs.len(), 2);
    assert_eq!(out.unique_techs[0].name, "Yeomen");
}

#[test]
fn lang_labels() {
    assert_eq!(Lang::En.label(), "EN");
    assert_eq!(Lang::Tr.upgrades_label(), "Yükseltmeler:");
}

#[test]
fn strip_trailing_parenthetical_follows_the_documented_rule() {
    assert_eq!(strip_trailing_parenthetical("(Cavalry)"), "");
    assert_eq!(strip_trailing_parenthetical("Name ()"), "Name");
    assert_eq!(strip_trailing_parenthetical("A (b (c)"), "A");
    assert_eq!(strip_trailing_parenthetical("x) (y)"), "x)");
    assert_eq!(strip_trailing_parenthetical("a (b) c"), "a (b) c");
}
