use aoe2_pipeline::replay::analyze::metrics::{
    age_clicks, classify_cmd, classify_opening, eco_tech_times, first_military_ms, first_research,
    idle_tc_ms, market_counts, production_series, vils_at, Ev, EvKind,
};
use aoe2_pipeline::replay::analyze::walk::{decode_build, decide_winner, pid, walk};
use aoe2_pipeline::replay::extract::{ActionData, HeaderPlayer, Operation, ReplayHeader, Savegame};
use aoe2_pipeline::replay::postgame::{
    collect_leaderboard_elo, EloTable, Leaderboard, LeaderboardPlayer, PostGameBlock,
};

fn ev(p: i32, t: u32, k: EvKind) -> Ev {
    Ev { player: p, t_ms: t, kind: k }
}

// --- post-game ELO ---------------------------------------------------------------------

#[test]
fn leaderboard_index_maps_to_game_player_number() {
    // leaderboard pn is 0-indexed; game pn = lb + 1
    let mut t = EloTable::default();
    t.insert(3, 0, 1290);
    t.insert(3, 1, 1309);
    assert_eq!(t.elo(1, 3), Some(1290));
    assert_eq!(t.elo(2, 3), Some(1309));
    assert_eq!(t.elo(2, 4), None);
}

#[test]
fn collect_leaderboard_elo_reads_postgame_blocks() {
    let blocks = vec![PostGameBlock::Leaderboards {
        length: 0,
        num_leaderboards: 1,
        leaderboards: vec![Leaderboard {
            id: 3,
            unknown1: 0,
            num_players: 2,
            players: vec![
                LeaderboardPlayer { player_number: 0, rank: 1, elo: 1650 },
                LeaderboardPlayer { player_number: 1, rank: 2, elo: 1590 },
            ],
        }],
        realignment_field: (),
    }];
    let mut elo = EloTable::default();
    collect_leaderboard_elo(&blocks, &mut elo);
    assert_eq!(elo.elo(1, 3), Some(1650));
    assert_eq!(elo.elo(2, 3), Some(1590));
    assert_eq!(elo.elo(1, 4), None);
    assert_eq!(elo.elo(3, 3), None);
}

#[test]
fn non_leaderboard_blocks_are_ignored() {
    let blocks = vec![PostGameBlock::WorldTime { length: 0, world_time: 12_345 }];
    let mut elo = EloTable::default();
    collect_leaderboard_elo(&blocks, &mut elo);
    assert_eq!(elo.elo(1, 3), None);
}

#[test]
fn a_later_leaderboard_row_replaces_an_earlier_one() {
    let mut t = EloTable::new();
    t.insert(4, 2, 1000);
    t.insert(4, 2, 1111);
    assert_eq!(t.elo(3, 4), Some(1111));
}

// --- metrics ---------------------------------------------------------------------------

#[test]
fn age_clicks_returns_earliest_of_each_age() {
    let evs = vec![
        ev(1, 600_000, EvKind::Research(101)),
        ev(1, 1_000_000, EvKind::Research(102)),
        ev(2, 700_000, EvKind::Research(101)),
    ];
    assert_eq!(age_clicks(&evs, 1), (Some(600_000), Some(1_000_000), None));
    assert_eq!(age_clicks(&evs, 2), (Some(700_000), None, None));
}

#[test]
fn first_research_takes_the_minimum_not_the_first_listed() {
    let evs = vec![ev(1, 900, EvKind::Research(22)), ev(1, 300, EvKind::Research(22))];
    assert_eq!(first_research(&evs, 1, 22), Some(300));
    assert_eq!(first_research(&evs, 2, 22), None);
}

#[test]
fn vils_at_counts_villager_trains_until_t() {
    let evs = vec![
        ev(1, 1000, EvKind::Train(83)),
        ev(1, 2000, EvKind::Train(83)),
        ev(1, 3000, EvKind::Train(38)),
        ev(1, 9000, EvKind::Train(83)),
    ];
    assert_eq!(vils_at(&evs, 1, 5000), 2);
    assert_eq!(vils_at(&evs, 1, 100_000), 3);
}

#[test]
fn idle_tc_is_window_minus_busy() {
    let evs = vec![ev(1, 10_000, EvKind::Train(83)), ev(1, 20_000, EvKind::Train(83))];
    assert_eq!(idle_tc_ms(&evs, 1, 200_000), 150_000);
    let many: Vec<Ev> = (0..20).map(|k| ev(1, k * 1000, EvKind::Train(83))).collect();
    assert_eq!(idle_tc_ms(&many, 1, 100_000), 0);
}

#[test]
fn first_military_is_first_non_eco_train() {
    let evs = vec![ev(1, 1000, EvKind::Train(83)), ev(1, 5000, EvKind::Train(7))];
    assert_eq!(first_military_ms(&evs, 1), Some(5000));
}

#[test]
fn eco_tech_times_picks_watched_only() {
    let evs = vec![
        ev(1, 100_000, EvKind::Research(22)),
        ev(1, 200_000, EvKind::Research(999)),
        ev(1, 300_000, EvKind::Research(213)),
    ];
    let got = eco_tech_times(&evs, 1);
    assert!(got.contains(&(22, 100_000)));
    assert!(got.contains(&(213, 300_000)));
    assert_eq!(got.len(), 2);
}

#[test]
fn eco_tech_times_follow_the_watched_list_order() {
    let evs = vec![ev(1, 5, EvKind::Research(278)), ev(1, 9, EvKind::Research(22))];
    assert_eq!(eco_tech_times(&evs, 1), vec![(22, 9), (278, 5)]);
}

#[test]
fn production_series_is_cumulative_per_minute_and_ignores_late_trains() {
    let evs = vec![
        ev(1, 10_000, EvKind::Train(83)),
        ev(1, 70_000, EvKind::Train(83)),
        ev(1, 75_000, EvKind::Train(4)),
        ev(1, 190_000, EvKind::Train(4)), // past the 2-minute duration: ignored
        ev(2, 10_000, EvKind::Train(83)),
    ];
    let (eco, mil) = production_series(&evs, 1, 150_000);
    assert_eq!(eco, vec![1, 2, 2]);
    assert_eq!(mil, vec![0, 1, 1]);
}

#[test]
fn classify_cmd_splits_eco_military_and_unattributable() {
    assert_eq!(classify_cmd(&EvKind::Train(83)), Some(true));
    assert_eq!(classify_cmd(&EvKind::Train(4)), Some(false));
    assert_eq!(classify_cmd(&EvKind::Build { id: 70, x_bits: 0, y_bits: 0 }), Some(true));
    assert_eq!(classify_cmd(&EvKind::Build { id: 12, x_bits: 0, y_bits: 0 }), Some(false));
    assert_eq!(classify_cmd(&EvKind::Build { id: 999, x_bits: 0, y_bits: 0 }), None);
    assert_eq!(classify_cmd(&EvKind::Research(101)), Some(true));
    assert_eq!(classify_cmd(&EvKind::Research(22)), Some(true));
    assert_eq!(classify_cmd(&EvKind::Research(999)), None);
    assert_eq!(classify_cmd(&EvKind::Move { x_bits: 0, y_bits: 0 }), None);
}

#[test]
fn market_counts_counts_only_the_players_buys_and_sells() {
    let evs = vec![
        ev(1, 1, EvKind::MarketBuy),
        ev(1, 2, EvKind::MarketSell),
        ev(1, 3, EvKind::MarketSell),
        ev(2, 4, EvKind::MarketBuy),
    ];
    assert_eq!(market_counts(&evs, 1), (1, 2));
    assert_eq!(market_counts(&evs, 2), (1, 0));
}

#[test]
fn opening_names_the_first_two_lines_in_train_order() {
    let evs = vec![
        ev(1, 700_000, EvKind::Train(4)),
        ev(1, 650_000, EvKind::Train(448)),
        ev(1, 660_000, EvKind::Train(7)),
    ];
    assert_eq!(
        classify_opening(&evs, 1, Some(600_000), None).as_deref(),
        Some("Scouts into Skirms")
    );
}

#[test]
fn opening_drush_prefix_needs_three_dark_age_militia() {
    let mut evs = vec![
        ev(1, 100_000, EvKind::Train(74)),
        ev(1, 150_000, EvKind::Train(75)),
        ev(1, 650_000, EvKind::Train(93)),
    ];
    assert_eq!(classify_opening(&evs, 1, Some(600_000), None).as_deref(), Some("Spears"));
    evs.push(ev(1, 200_000, EvKind::Train(74)));
    assert_eq!(
        classify_opening(&evs, 1, Some(600_000), None).as_deref(),
        Some("Drush + Spears")
    );
}

#[test]
fn opening_fast_castle_and_nothing_to_say() {
    let evs: Vec<Ev> = vec![];
    assert_eq!(
        classify_opening(&evs, 1, Some(600_000), Some(1_500_000)).as_deref(),
        Some("Fast Castle")
    );
    assert_eq!(classify_opening(&evs, 1, Some(600_000), None), None);
    assert_eq!(classify_opening(&evs, 1, None, Some(1_500_000)), None);
}

#[test]
fn opening_window_ends_at_castle_and_ties_keep_line_order() {
    let evs = vec![
        ev(1, 700_000, EvKind::Train(751)),
        ev(1, 700_000, EvKind::Train(4)),
        ev(1, 900_000, EvKind::Train(448)), // after castle: outside the window
    ];
    assert_eq!(
        classify_opening(&evs, 1, Some(600_000), Some(800_000)).as_deref(),
        Some("Archers into Eagles")
    );
}

// --- walk ------------------------------------------------------------------------------

#[test]
fn build_blob_decodes_x_y_id() {
    let mut d = vec![0u8; 16];
    d[4..8].copy_from_slice(&69.0f32.to_le_bytes());
    d[8..12].copy_from_slice(&32.0f32.to_le_bytes());
    d[12..16].copy_from_slice(&70i32.to_le_bytes());
    let (id, x, y) = decode_build(&d).unwrap();
    assert_eq!((id, f32::from_bits(x), f32::from_bits(y)), (70, 69.0, 32.0));
    assert_eq!(decode_build(&[0u8; 4]), None);
}

#[test]
fn pid_reads_the_acting_player_of_every_variant() {
    assert_eq!(pid(&ActionData::Buy { player_id: 3 }), 3);
    assert_eq!(pid(&ActionData::Move { player_id: 2, x_bits: 0, y_bits: 0 }), 2);
    assert_eq!(pid(&ActionData::Other { variant: "Stop".to_string(), player_id: Some(5) }), 5);
    assert_eq!(pid(&ActionData::Other { variant: "Stop".to_string(), player_id: None }), 0);
}

fn hp(pn: i32, civ: u32, team: u8) -> HeaderPlayer {
    HeaderPlayer {
        player_number: pn,
        profile_id: 1000 + pn,
        civ_id: civ,
        name: format!("P{pn}"),
        resolved_team_id: team,
        color_id: pn,
    }
}

#[test]
fn the_team_without_a_resignation_wins() {
    let players = vec![hp(0, 0, 0), hp(1, 2, 2), hp(2, 3, 2), hp(3, 4, 3), hp(4, 5, 3)];
    assert_eq!(decide_winner(&players, &[3]), Some(2));
    // both teams have a resignation: undecided
    assert_eq!(decide_winner(&players, &[1, 3]), None);
    // nobody resigned: undecided
    assert_eq!(decide_winner(&players, &[]), None);
    // one team only: undecided
    let solo = vec![hp(1, 2, 2), hp(2, 3, 2)];
    assert_eq!(decide_winner(&solo, &[1]), None);
}

#[test]
fn walk_expands_queues_counts_commands_and_reads_elo() {
    let game = Savegame {
        header: ReplayHeader {
            build: 1,
            version_major: 2,
            resolved_map_id: 9,
            players: vec![hp(0, 0, 0), hp(1, 2, 2), hp(2, 3, 3)],
        },
        operations: vec![
            Operation::Action {
                world_time: 1_000,
                action_data: ActionData::DeQueue { player_id: 1, unit_id: 83, amount: 3 },
            },
            Operation::Other,
            Operation::Action {
                world_time: 61_000,
                action_data: ActionData::DeQueue { player_id: 1, unit_id: 4, amount: 500 },
            },
            Operation::Action {
                world_time: 62_000,
                action_data: ActionData::Move { player_id: 2, x_bits: 1, y_bits: 2 },
            },
            Operation::Action {
                world_time: 130_000,
                action_data: ActionData::Resign { player_id: 2 },
            },
            Operation::PostGame {
                blocks: vec![PostGameBlock::Leaderboards {
                    length: 0,
                    num_leaderboards: 1,
                    leaderboards: vec![Leaderboard {
                        id: 3,
                        unknown1: 0,
                        num_players: 1,
                        players: vec![LeaderboardPlayer { player_number: 0, rank: 1, elo: 1500 }],
                    }],
                    realignment_field: (),
                }],
            },
        ],
        resignations: vec![2],
        rec_player: 1,
        duration_ms: 131_000,
    };
    let w = walk(&game);
    assert_eq!(w.meta.map_id, 9);
    assert_eq!(w.meta.duration_ms, 131_000);
    assert_eq!(w.players.len(), 2);
    assert_eq!(w.players[0].won, Some(true));
    assert_eq!(w.players[1].won, Some(false));
    assert_eq!(w.players[1].name, "P2");
    // 3 villagers + 60 archers (amount clamped) + 1 move + 1 resign
    assert_eq!(w.evs.len(), 65);
    assert_eq!(w.evs.iter().filter(|e| e.kind == EvKind::Train(4)).count(), 60);
    assert_eq!(w.actions.get(&1), Some(&2));
    assert_eq!(w.actions.get(&2), Some(&2));
    assert_eq!(w.action_series.get(&1), Some(&vec![1, 1]));
    assert_eq!(w.action_series.get(&2), Some(&vec![0, 1, 1]));
    assert_eq!(w.cmd_split.get(&1), Some(&(1, 1)));
    assert_eq!(w.cmd_split.get(&2), None);
    assert_eq!(w.elo.elo(1, 3), Some(1500));
}
