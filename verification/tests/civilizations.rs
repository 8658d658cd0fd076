use aoe2_pipeline::refdata::civilizations::{build, civ_slug, resolve_unique_units, PATCH};
use aoe2_pipeline::refdata::civs::RawCiv;
use aoe2_pipeline::refdata::error::RefdataError;
use aoe2_pipeline::str_map::StrMap;

const BRITONS_EN: &str = "Foot Archer civilization<br>\n<br>\n\
    • Shepherds work +25% faster<br>\n\
    • Town Centers cost -50% wood starting in Castle Age<br>\n\
    • Foot Archers +1/+2 range in Castle/Imperial Age <br>\n<br>\n\
    <b>Unique Unit:</b> <br>\nLongbowman (Foot Archer)<br>\n<br>\n\
    <b>Unique Techs:</b> <br>\n\
    • Yeomen (Foot Archers and Skirmisher-line +1 range; Watch Tower-line +2 attack)<br>\n\
    • Warwolf (Trebuchets deal blast damage and are more accurate)<br>\n<br>\n\
    <b>Team Bonus:</b> <br>\nArchery Ranges work +10% faster";

const BRITONS_TR: &str = "Yaya Okçu medeniyeti<br>\n<br>\n\
    • Çobanlar %25 daha hızlı çalışır<br>\n\
    • Şehir Merkezleri Kale Çağı'ndan itibaren %50 daha az odun tutar<br>\n\
    • Yaya Okçular Kale/İmparatorluk Çağı'nda +1/+2 menzil<br>\n<br>\n\
    <b>Özgün Birim:</b> <br>\nUzunyay Okçusu (Yaya Okçu)<br>\n<br>\n\
    <b>Özgün Teknolojiler:</b> <br>\n\
    • Yeomen (Menzil +1)<br>\n\
    • Warwolf (Hasar artar)<br>\n<br>\n\
    <b>Takım Bonusu:</b> <br>\nOkçuluk Binası %10 daha hızlı çalışır";

fn civ(en: &str, tr: &str) -> RawCiv {
    RawCiv { internal_name: None, help_string_id: 120150, help_en: en.to_string(), help_tr: tr.to_string() }
}

#[test]
fn civ_slug_lowercases_and_hyphenates() {
    assert_eq!(civ_slug("Hindustanis"), "hindustanis");
    assert_eq!(civ_slug("Elephant Archer"), "elephant-archer");
    assert_eq!(civ_slug("Imperial Camel Rider"), "imperial-camel-rider");
}

#[test]
fn civ_slug_strips_apostrophes_and_trims_hyphens() {
    assert_eq!(civ_slug("  O'Brien's "), "obriens");
}

#[test]
fn resolve_unique_units_dedups_slugs_and_prefers_the_curated_list() {
    let names = vec!["Elephant Archer".to_string(), "Elephant  Archer!".to_string(), "".to_string()];
    assert_eq!(resolve_unique_units("vietnamese", &names).unwrap(), vec!["elephant-archer"]);
    assert_eq!(resolve_unique_units("incas", &[]).unwrap(), vec!["kamayuk", "slinger"]);
    assert_eq!(
        resolve_unique_units("vikings", &["!!".to_string()]).unwrap_err(),
        RefdataError::NoCivUniqueUnit { slug: "vikings".to_string() }
    );
}

#[test]
fn britons_fixture_builds_the_committed_entry() {
    let mut civs = StrMap::new();
    civs.insert("Britons".to_string(), civ(BRITONS_EN, BRITONS_TR));
    let (civilizations, help) = build(&civs).unwrap();
    assert_eq!(civilizations.patch, PATCH);
    assert_eq!(civilizations.civs.len(), 1);
    let britons = &civilizations.civs[0];
    assert_eq!(britons.slug, "britons");
    assert_eq!(britons.region, "Western European");
    assert_eq!(britons.region_noun, "Western Europe");
    assert_eq!(britons.specialty, "Foot Archer");
    assert_eq!(britons.unique_units, vec!["longbowman"]);
    assert_eq!(
        britons.civ_bonuses,
        vec![
            "Shepherds work +25% faster",
            "Town Centers cost -50% wood starting in Castle Age",
            "Foot Archers +1/+2 range in Castle/Imperial Age",
        ]
    );
    assert_eq!(britons.team_bonus, "Archery Ranges work +10% faster");
    assert_eq!(britons.unique_techs.castle.name, "Yeomen");
    assert_eq!(
        britons.unique_techs.castle.effect,
        "Foot Archers and Skirmisher-line +1 range; Watch Tower-line +2 attack"
    );
    assert_eq!(britons.unique_techs.imperial.name, "Warwolf");
    let britons_help = help.civs.get("britons").unwrap();
    assert_eq!(britons_help.tr.civ_type, "Yaya Okçu");
    assert_eq!(britons_help.tr.civ_bonuses.len(), britons.civ_bonuses.len());
    assert_eq!(help.provenance.source, "SiegeEngineers/aoe2techtree");
}

#[test]
fn civs_come_out_in_slug_order_and_the_first_failure_wins() {
    let mut civs = StrMap::new();
    civs.insert("Franks".to_string(), civ(BRITONS_EN, BRITONS_TR));
    civs.insert("Aztecs".to_string(), civ(BRITONS_EN, BRITONS_TR));
    civs.insert("Celts".to_string(), civ(BRITONS_EN, BRITONS_TR));
    let (doc, _) = build(&civs).unwrap();
    let slugs: Vec<&str> = doc.civs.iter().map(|c| c.slug.as_str()).collect();
    assert_eq!(slugs, vec!["aztecs", "celts", "franks"]);

    let mut bad = StrMap::new();
    bad.insert("Zapotecs".to_string(), civ(BRITONS_EN, BRITONS_TR));
    bad.insert("Berbers".to_string(), civ("no bullets", BRITONS_TR));
    match build(&bad).unwrap_err() {
        RefdataError::CivHelpUnparseable { civ_key, lang, help_string_id } => {
            assert_eq!(civ_key, "berbers");
            assert_eq!(lang, "EN");
            assert_eq!(help_string_id, 120150);
        }
        other => panic!("expected CivHelpUnparseable, got {other:?}"),
    }
    let mut unknown = StrMap::new();
    unknown.insert("Atlanteans".to_string(), civ(BRITONS_EN, BRITONS_TR));
    assert_eq!(build(&unknown).unwrap_err(), RefdataError::MissingCivRegion { slug: "atlanteans".to_string() });
}
