use aoe2_pipeline::replay::analyze::data::{is_team_game, pick_slice, MatchKind};
use aoe2_pipeline::replay::analyze::maps::{family_of, parse_maps, slug};
use aoe2_pipeline::replay::analyze::model::Family;

#[test]
fn map_slug_keeps_lowercased_letters_and_digits() {
    assert_eq!(slug("Black Forest"), "blackforest");
    assert_eq!(slug("Arabia"), "arabia");
    assert_eq!(slug("Four Lakes 2"), "fourlakes2");
    assert_eq!(slug("MegaRandom!"), "megarandom");
    assert_eq!(slug(""), "");
}

#[test]
fn map_table_parses_rows_and_skips_comments() {
    let t = parse_maps("# id\tname\tfamily\n9\tArabia\topen\n\n33\tBlack Forest\t Closed \nx\tBad\topen\n29\tArena\n12\tIslands\twater\n9\tArabia 2\tHYBRID\n");
    let (name, fam) = t.lookup(9);
    assert_eq!(name, "Arabia 2");
    assert!(fam == Family::Hybrid);
    let (name, fam) = t.lookup(33);
    assert_eq!(name, "Black Forest");
    assert!(fam == Family::Closed);
    let (_, fam) = t.lookup(12);
    assert!(fam == Family::Water);
    // A row with two fields is skipped; an unknown id gets a placeholder.
    let (name, fam) = t.lookup(29);
    assert_eq!(name, "map 29");
    assert!(fam == Family::Other);
    assert_eq!(t.0.len(), 3);
}

#[test]
fn family_names_ignore_case_and_padding() {
    assert!(family_of(&" Nomad ".chars().collect::<Vec<_>>()) == Family::Nomad);
    assert!(family_of(&"special".chars().collect::<Vec<_>>()) == Family::Special);
    assert!(family_of(&"arena".chars().collect::<Vec<_>>()) == Family::Other);
}

#[test]
fn benchmark_slice_falls_back_from_exact_to_map_rollups() {
    assert_eq!(pick_slice(Some(1), Some(2), Some(3)), Some((1, MatchKind::Exact)));
    assert_eq!(pick_slice(None, Some(2), Some(3)), Some((2, MatchKind::MapMode)));
    assert_eq!(pick_slice(None, None, Some(3)), Some((3, MatchKind::MapAll)));
    assert_eq!(pick_slice::<i32>(None, None, None), None);
    assert!(is_team_game(3));
    assert!(!is_team_game(2));
}
