use aoe2_pipeline::replay::analyze::labels::{color_name, opt_mmss, resolve_you, sev_symbol};
use aoe2_pipeline::replay::analyze::model::{Family, PlayerInfo, Role, Severity};
use aoe2_pipeline::replay::analyze::position::assign_roles;

fn info(pn: i32, name: &str) -> PlayerInfo {
    PlayerInfo {
        player_number: pn,
        profile_id: 1000 + pn as i64,
        civ_id: 1,
        name: name.to_string(),
        color_id: pn,
        team_id: 1,
        won: None,
    }
}

#[test]
fn color_names_follow_the_slot_order() {
    assert_eq!(color_name(1), "Blue");
    assert_eq!(color_name(2), "Red");
    assert_eq!(color_name(7), "Gray");
    assert_eq!(color_name(0), "Orange");
    assert_eq!(color_name(8), "Orange");
    assert_eq!(color_name(9), "?");
    assert_eq!(color_name(-1), "?");
}

#[test]
fn severity_symbols() {
    assert_eq!(sev_symbol(Severity::High), "✗");
    assert_eq!(sev_symbol(Severity::Med), "⚠");
    assert_eq!(sev_symbol(Severity::Low), "·");
}

#[test]
fn optional_times_print_as_minutes_and_seconds() {
    assert_eq!(opt_mmss(Some(605_999)), "10:05");
    assert_eq!(opt_mmss(Some(59_000)), "0:59");
    assert_eq!(opt_mmss(None), "—");
}

#[test]
fn you_is_matched_by_name_ignoring_case_else_the_recorder() {
    let players = vec![info(1, "Alice"), info(2, "BOB"), info(3, "bob")];
    assert_eq!(resolve_you(&Some("bob".to_string()), &players, 1), 2);
    assert_eq!(resolve_you(&Some("ALICE".to_string()), &players, 3), 1);
    assert_eq!(resolve_you(&Some("carol".to_string()), &players, 3), 3);
    assert_eq!(resolve_you(&None, &players, 2), 2);
}

#[test]
fn a_player_listed_under_two_teams_keeps_the_later_teams_role() {
    let mut ps = vec![info(1, "a"), info(3, "b"), info(3, "b2"), info(4, "c"), info(5, "d")];
    let teams = [2u8, 2, 3, 3, 3];
    for (p, t) in ps.iter_mut().zip(teams) {
        p.team_id = t;
    }
    let r = assign_roles(&ps, Family::Open);
    // team 2 = {1, 3}: 3 would be the pocket; team 3 = {3, 4, 5}, later: 3 is a flank there
    assert!(r[&3] == Role::Flank);
    assert!(r[&1] == Role::Flank);
    assert!(r[&4] == Role::Pocket);
    assert!(r[&5] == Role::Flank);
}
