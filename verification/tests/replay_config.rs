use aoe2_pipeline::replay::analyze::data::{elo_bucket, parse_civs};
use aoe2_pipeline::replay::analyze::model::{Family, PlayerInfo, Role};
use aoe2_pipeline::replay::analyze::position::assign_roles;
use aoe2_pipeline::replay::config::{
    age_name, age_tech_id, is_eco_unit, is_watched_tech, mmss, WATCHED_TECHS,
};

#[test]
fn age_name_maps_the_three_age_up_tech_ids() {
    assert_eq!(age_name(101), Some("feudal"));
    assert_eq!(age_name(102), Some("castle"));
    assert_eq!(age_name(103), Some("imperial"));
    assert_eq!(age_name(100), None);
    assert_eq!(age_name(0), None);
}

#[test]
fn is_eco_unit_matches_the_five_known_ids() {
    for id in [83, 13, 128, 354, 17] {
        assert!(is_eco_unit(id));
    }
    assert!(!is_eco_unit(75));
}

#[test]
fn age_tech_id_is_the_exact_reverse_of_age_name() {
    for id in [101, 102, 103] {
        let name = age_name(id).expect("101/102/103 must map to a name");
        assert_eq!(age_tech_id(name), Some(id), "age_tech_id must invert age_name for {id}");
    }
    assert_eq!(age_tech_id("dark"), None);
    assert_eq!(age_tech_id("nonsense"), None);
}

#[test]
fn watched_techs_covers_the_ten_ported_ids_verbatim() {
    let ids: Vec<u16> = WATCHED_TECHS.iter().map(|&(id, _)| id).collect();
    assert_eq!(ids, vec![22, 213, 249, 202, 203, 14, 13, 55, 182, 278]);
    assert!(is_watched_tech(278));
    assert!(!is_watched_tech(101));
}

#[test]
fn mmss_pads_seconds_to_two_digits() {
    assert_eq!(mmss(0), "0:00");
    assert_eq!(mmss(65), "1:05");
    assert_eq!(mmss(730), "12:10");
    assert_eq!(mmss(u32::MAX), "71582788:15");
}

#[test]
fn elo_bucket_boundaries() {
    assert_eq!(elo_bucket(999), "<1000");
    assert_eq!(elo_bucket(1300), "1200-1399");
    assert_eq!(elo_bucket(2600), "2500+");
}

#[test]
fn elo_bucket_edges_are_inclusive_at_the_top() {
    assert_eq!(elo_bucket(i32::MIN), "<1000");
    assert_eq!(elo_bucket(1000), "1000-1199");
    assert_eq!(elo_bucket(1649), "1400-1649");
    assert_eq!(elo_bucket(1650), "1650-1799");
    assert_eq!(elo_bucket(2499), "2200-2499");
    assert_eq!(elo_bucket(2500), "2500+");
}

#[test]
fn parse_civs_maps_id_to_slug_skipping_comments_and_bad_ids() {
    let c = parse_civs("# civ_id\tslug\n1\tbritons\n2\t franks \n-3\tbad\nx\tbad\n\n");
    assert_eq!(c.get(&2).map(String::as_str), Some("franks"));
    assert_eq!(c.get(&1).map(String::as_str), Some("britons"));
    assert_eq!(c.len(), 2);
}

fn p(pn: i32, team: u8) -> PlayerInfo {
    PlayerInfo { player_number: pn, profile_id: 0, civ_id: 1, name: String::new(), color_id: pn, team_id: team, won: None }
}

#[test]
fn roles_4v4_min_max_slot_are_flanks() {
    let ps = vec![p(1, 2), p(3, 2), p(5, 2), p(7, 2), p(2, 3), p(4, 3), p(6, 3), p(8, 3)];
    let r = assign_roles(&ps, Family::Open);
    assert_eq!(r[&1], Role::Flank);
    assert_eq!(r[&7], Role::Flank);
    assert_eq!(r[&3], Role::Pocket);
    assert_eq!(r[&5], Role::Pocket);
}

#[test]
fn roles_skip_when_family_other_or_one_team() {
    let ps = vec![p(1, 2), p(3, 2), p(2, 3), p(4, 3)];
    assert!(assign_roles(&ps, Family::Water).is_empty());
    let one = vec![p(1, 1), p(2, 1), p(3, 1), p(4, 1)];
    assert!(assign_roles(&one, Family::Open).is_empty());
}

#[test]
fn roles_2v2_lower_slot_flank_higher_pocket() {
    let ps = vec![p(1, 2), p(3, 2), p(2, 3), p(4, 3)];
    let r = assign_roles(&ps, Family::Open);
    assert_eq!(r[&1], Role::Flank);
    assert_eq!(r[&3], Role::Pocket);
}

#[test]
fn roles_are_by_sorted_slot_and_skip_solo_teams() {
    let ps = vec![p(8, 2), p(4, 2), p(6, 2), p(5, 3), p(9, 1)];
    let r = assign_roles(&ps, Family::Closed);
    assert_eq!(r[&4], Role::Flank);
    assert_eq!(r[&8], Role::Flank);
    assert_eq!(r[&6], Role::Pocket);
    assert!(!r.contains_key(&5));
    assert!(!r.contains_key(&9));
    assert_eq!(r.len(), 3);
}
