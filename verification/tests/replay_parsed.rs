use aoe2_pipeline::replay::extract::{ActionData, HeaderPlayer, Operation, ReplayHeader, Savegame};
use aoe2_pipeline::replay::parsed::derive::{
    age_clicks, classify_opening, derive_facts, first_age_click, player_techs, player_units,
    PlayerFacts,
};
use aoe2_pipeline::replay::parsed::error::Error;
use aoe2_pipeline::replay::parsed::ids::{
    Age, GameCivId, GameUnitId, MatchId, OpeningKind, ProfileId, TechId,
};
use aoe2_pipeline::replay::parsed::parse::parse_game;
use aoe2_pipeline::replay::parsed::types::{ParsedReplay, ReplayEvent, ReplayPlayer};

const MALAY: i32 = 29;
const FRANKS: i32 = 2;

fn player(profile_id: i64, player_number: i16, civ_id: i32) -> ReplayPlayer {
    ReplayPlayer {
        player_number,
        profile_id: ProfileId(profile_id),
        civ_id: GameCivId(civ_id),
        name: "P".to_owned(),
        team: 1,
        color: 1,
        won: None,
        elo: None,
    }
}

fn ev(player_number: i16, t_ms: i32, kind: &str, target_id: Option<i64>) -> ReplayEvent {
    ReplayEvent {
        profile_id: None,
        player_number,
        t_ms,
        kind: kind.to_owned(),
        target_id,
        amount: None,
        detail: None,
    }
}

fn ev_amt(
    player_number: i16,
    t_ms: i32,
    kind: &str,
    target_id: Option<i64>,
    amount: Option<i64>,
) -> ReplayEvent {
    ReplayEvent {
        profile_id: None,
        player_number,
        t_ms,
        kind: kind.to_owned(),
        target_id,
        amount,
        detail: None,
    }
}

fn parsed(players: Vec<ReplayPlayer>, events: Vec<ReplayEvent>) -> ParsedReplay {
    ParsedReplay {
        match_id: MatchId(1),
        build: Some(101_101),
        map_id: Some(9),
        duration_ms: 1_800_000,
        n_players: players.len() as i16,
        players,
        events,
        ages: vec![],
    }
}

fn first(p: &ParsedReplay) -> PlayerFacts {
    derive_facts(p).expect("well-formed test replay must derive cleanly").remove(0)
}

#[test]
fn drush_prefix_requires_at_least_three_dark_age_militia_line_trains() {
    let evs = vec![
        ev(1, 100_000, "train", Some(74)),
        ev(1, 150_000, "train", Some(74)),
        ev(1, 200_000, "train", Some(75)),
        ev(1, 600_000, "research", Some(101)),
        ev(1, 650_000, "train", Some(448)),
    ];
    let p = parsed(vec![player(5001, 1, FRANKS)], evs);
    let s = first(&p);
    assert_eq!(s.opening.as_deref(), Some("Drush + Scouts"));
    assert_eq!(s.opening_kind, Some(OpeningKind::Drush));
}

#[test]
fn scouts_into_archers_orders_by_train_time_not_declaration_order() {
    let evs = vec![
        ev(1, 600_000, "research", Some(101)),
        ev(1, 700_000, "train", Some(4)),
        ev(1, 650_000, "train", Some(448)),
    ];
    let p = parsed(vec![player(5001, 1, FRANKS)], evs);
    let s = first(&p);
    assert_eq!(s.opening.as_deref(), Some("Scouts into Archers"));
    assert_eq!(s.opening_kind, Some(OpeningKind::Scouts));
}

#[test]
fn derive_returns_one_summary_per_player_matched_by_profile_id() {
    let evs = vec![
        ev(1, 600_000, "research", Some(101)),
        ev(2, 900_000, "research", Some(101)),
    ];
    let p = parsed(vec![player(5001, 1, FRANKS), player(5002, 2, MALAY)], evs);
    let summaries = derive_facts(&p).expect("well-formed test replay must derive cleanly");
    assert_eq!(summaries.len(), 2);
    assert!(summaries.iter().any(|s| s.profile_id == ProfileId(5001)));
    assert!(summaries.iter().any(|s| s.profile_id == ProfileId(5002)));
}

#[test]
fn player_units_sums_batched_trains_per_distinct_unit_sorted_by_unit_id() {
    let evs = vec![
        ev_amt(1, 100_000, "train", Some(448), Some(1)),
        ev_amt(1, 100_500, "train", Some(83), Some(5)),
        ev_amt(1, 101_000, "train", Some(448), Some(1)),
    ];
    let p = parsed(vec![player(5001, 1, FRANKS)], evs);
    let s = first(&p);
    assert_eq!(s.units, vec![(GameUnitId(83), 5), (GameUnitId(448), 2)]);
}

#[test]
fn player_units_treats_none_or_zero_amount_as_one_queued_unit() {
    let evs = vec![
        ev_amt(1, 100_000, "train", Some(74), None),
        ev_amt(1, 100_500, "train", Some(74), Some(0)),
    ];
    let p = parsed(vec![player(5001, 1, FRANKS)], evs);
    let s = first(&p);
    assert_eq!(s.units, vec![(GameUnitId(74), 2)]);
}

#[test]
fn player_units_is_empty_when_nothing_was_trained_never_fabricated() {
    let evs = vec![ev(1, 600_000, "research", Some(101))];
    let p = parsed(vec![player(5001, 1, FRANKS)], evs);
    let s = first(&p);
    assert_eq!(s.units, Vec::new());
}

#[test]
fn player_units_only_counts_the_matching_players_own_trains() {
    let evs = vec![
        ev_amt(1, 100_000, "train", Some(74), Some(1)),
        ev_amt(2, 100_000, "train", Some(448), Some(3)),
    ];
    let p = parsed(vec![player(5001, 1, FRANKS), player(5002, 2, MALAY)], evs);
    let summaries = derive_facts(&p).expect("well-formed test replay must derive cleanly");
    let s1 = summaries.iter().find(|s| s.profile_id == ProfileId(5001)).unwrap();
    let s2 = summaries.iter().find(|s| s.profile_id == ProfileId(5002)).unwrap();
    assert_eq!(s1.units, vec![(GameUnitId(74), 1)]);
    assert_eq!(s2.units, vec![(GameUnitId(448), 3)]);
}

#[test]
fn player_techs_captures_only_watched_techs_at_min_t_ms_sorted_by_id_ignoring_later_duplicates() {
    let evs = vec![
        ev(1, 100_000, "research", Some(249)),
        ev(1, 200_000, "research", Some(249)),
        ev(1, 150_000, "research", Some(14)),
        ev(1, 50_000, "research", Some(999)),
    ];
    let p = parsed(vec![player(5001, 1, FRANKS)], evs);
    let s = first(&p);
    assert_eq!(s.techs, vec![(TechId(14), 150_000), (TechId(249), 100_000)]);
}

#[test]
fn player_techs_is_empty_when_no_watched_tech_was_researched_never_fabricated() {
    let evs = vec![ev(1, 50_000, "research", Some(999))];
    let p = parsed(vec![player(5001, 1, FRANKS)], evs);
    let s = first(&p);
    assert_eq!(s.techs, Vec::new());
}

#[test]
fn fast_castle_clicks_and_opening() {
    let evs = vec![
        ev(1, 600_000, "research", Some(101)),
        ev(1, 1_500_000, "research", Some(102)),
    ];
    let p = parsed(vec![player(5001, 1, FRANKS)], evs);
    let s = first(&p);
    assert_eq!(s.opening.as_deref(), Some("Fast Castle"));
    assert_eq!(s.opening_kind, Some(OpeningKind::FastCastle));
    assert_eq!(s.feudal_click_ms, Some(600_000));
    assert_eq!(s.castle_click_ms, Some(1_500_000));
    assert_eq!(s.imperial_click_ms, None);
}

#[test]
fn passive_feudal_and_no_feudal_have_no_opening() {
    let p = parsed(vec![player(5001, 1, FRANKS)], vec![ev(1, 600_000, "research", Some(101))]);
    let s = first(&p);
    assert_eq!(s.opening, None);
    assert_eq!(s.opening_kind, None);
    let p = parsed(vec![player(5001, 1, FRANKS)], vec![]);
    let s = first(&p);
    assert_eq!(s.opening, None);
    assert_eq!(s.feudal_click_ms, None);
}

#[test]
fn command_count_is_per_event_not_per_queued_unit() {
    let evs = vec![
        ev(1, 0, "research", Some(101)),
        ev_amt(1, 1_000, "train", Some(83), Some(5)),
        ev_amt(1, 2_000, "train", Some(448), Some(1)),
        ev(2, 0, "research", Some(101)),
    ];
    let p = parsed(vec![player(5001, 1, FRANKS), player(5002, 2, MALAY)], evs);
    let v = derive_facts(&p).unwrap();
    assert_eq!(v[0].n_commands, 3);
    assert_eq!(v[1].n_commands, 1);
}

#[test]
fn player_units_fails_loud_on_a_unit_id_or_total_out_of_range() {
    let evs = vec![ev_amt(1, 0, "train", Some(1i64 << 40), Some(1))];
    assert_eq!(player_units(&evs, 1), Err(Error::Overflow { field: "train.target_id" }));
    let evs = vec![
        ev_amt(1, 0, "train", Some(4), Some(i32::MAX as i64)),
        ev_amt(1, 1, "train", Some(4), Some(1)),
    ];
    assert_eq!(player_units(&evs, 1), Err(Error::Overflow { field: "train.trained" }));
}

#[test]
fn age_clicks_and_first_age_click_read_the_age_up_researches() {
    let evs = vec![
        ev(1, 900, "research", Some(102)),
        ev(1, 500, "research", Some(101)),
        ev(1, 400, "train", Some(101)),
    ];
    assert_eq!(age_clicks(&evs, 1), (Some(500), Some(900), None));
    assert_eq!(first_age_click(&evs, 1, "castle"), Some(900));
    assert_eq!(first_age_click(&evs, 1, "dark"), None);
    assert_eq!(player_techs(&evs, 1), vec![]);
}

#[test]
fn classify_opening_window_defaults_to_twelve_minutes() {
    let evs = vec![
        ev(1, 600_000 + 719_999, "train", Some(7)),
        ev(1, 600_000 + 720_000, "train", Some(4)),
    ];
    assert_eq!(
        classify_opening(&evs, 1, Some(600_000), None),
        Some(("Skirms".to_string(), OpeningKind::Skirms))
    );
}

// --- parse_game -------------------------------------------------------------------------

fn hp(pn: i32, civ: u32, team: u8) -> HeaderPlayer {
    HeaderPlayer {
        player_number: pn,
        profile_id: 7000 + pn,
        civ_id: civ,
        name: format!("N{pn}"),
        resolved_team_id: team,
        color_id: pn,
    }
}

fn game(players: Vec<HeaderPlayer>, operations: Vec<Operation>) -> Savegame {
    Savegame {
        header: ReplayHeader { build: 5, version_major: 1, resolved_map_id: 9, players },
        operations,
        resignations: vec![],
        rec_player: 1,
        duration_ms: 0,
    }
}

#[test]
fn parse_game_narrows_the_extracted_tables() {
    let g = game(
        vec![hp(0, 0, 0), hp(1, 2, 2), hp(2, 3, 3)],
        vec![
            Operation::Action {
                world_time: 1_000,
                action_data: ActionData::DeQueue { player_id: 1, unit_id: 83, amount: 0 },
            },
            Operation::Action {
                world_time: 2_000,
                action_data: ActionData::Research { player_id: 1, technology_type: 101 },
            },
            Operation::Action {
                world_time: 3_000,
                action_data: ActionData::Resign { player_id: 2 },
            },
        ],
    );
    let p = parse_game(MatchId(77), &g).unwrap();
    assert_eq!(p.match_id, MatchId(77));
    assert_eq!(p.build, Some(5));
    assert_eq!(p.map_id, Some(9));
    assert_eq!(p.duration_ms, 3_000);
    assert_eq!(p.n_players, 2);
    assert_eq!(p.players.len(), 2);
    assert_eq!(p.players[0].profile_id, ProfileId(7001));
    assert_eq!(p.players[0].won, Some(true));
    assert_eq!(p.players[1].won, Some(false));
    assert_eq!(p.events.len(), 3);
    assert_eq!(p.events[0].kind, "train");
    assert_eq!(p.events[0].amount, Some(1));
    assert_eq!(p.events[0].profile_id, Some(ProfileId(7001)));
    assert_eq!(p.ages.len(), 1);
    assert_eq!(p.ages[0].age, Age::Feudal);
    assert_eq!(p.ages[0].uptime_ms, 2_000);
    assert_eq!(p.ages[0].villagers, 1);
}

#[test]
fn parse_game_fails_loud_on_values_that_do_not_fit() {
    let g = game(
        vec![hp(1, 2, 2)],
        vec![Operation::Action {
            world_time: 1,
            action_data: ActionData::Other { variant: "Stop".to_string(), player_id: Some(1i64 << 40) },
        }],
    );
    assert_eq!(parse_game(MatchId(1), &g), Err(Error::Overflow { field: "event.player_id" }));
    let mut g = game(vec![hp(1, 2, 2)], vec![]);
    g.header.build = u32::MAX;
    assert_eq!(parse_game(MatchId(1), &g), Err(Error::Overflow { field: "meta.build" }));
    let g = game(vec![hp(40_000, 2, 2)], vec![]);
    assert_eq!(
        parse_game(MatchId(1), &g),
        Err(Error::Overflow { field: "player.player_number" })
    );
    let g = game(
        vec![hp(1, 2, 2)],
        vec![Operation::Action {
            world_time: u32::MAX,
            action_data: ActionData::Resign { player_id: 1 },
        }],
    );
    assert_eq!(parse_game(MatchId(1), &g), Err(Error::Overflow { field: "meta.duration_ms" }));
}
