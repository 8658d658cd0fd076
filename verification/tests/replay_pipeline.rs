use aoe2_pipeline::replay::pipeline::{settle_batch, BatchPlan};
use aoe2_pipeline::replay::manifest::{seed_batch, seed_effect, SeedEffect, SeedRow, StoredRow};
use std::collections::HashMap;
use std::io::Write;

use flate2::write::{DeflateEncoder, GzEncoder};
use flate2::Compression;

use aoe2_pipeline::replay::api::{
    best_file, group_by_match, gunzip_replay, normalize_recent, recent_matches_url,
    replay_files_url, unzip_single_member, MatchMember, MatchStat, ProfileEntry, RecentHistory,
    ReplayFile, UnzipError,
};
use aoe2_pipeline::replay::manifest::{fmt_counts, update_statement, PendingRow, SqlValue, Update};
use aoe2_pipeline::replay::pipeline::{
    lookup_failed, outcome_update, parse_profile_ids, profile_ids_by_match, resolve_chunk,
    take_size, truncate, Downloadable, Outcome,
};
use aoe2_pipeline::replay::seed::{parse_csv, parse_lines, parse_seed_text};

fn make_zip(payload: &[u8], deflate: bool, zero_size_fields: bool) -> Vec<u8> {
    let name = b"AgeIIDE_Replay_1.aoe2record";
    let data: Vec<u8> = if deflate {
        let mut enc = DeflateEncoder::new(Vec::new(), Compression::default());
        enc.write_all(payload).unwrap();
        enc.finish().unwrap()
    } else {
        payload.to_vec()
    };
    let mut z = Vec::new();
    z.extend_from_slice(b"PK\x03\x04");
    z.extend_from_slice(&20u16.to_le_bytes());
    z.extend_from_slice(&if zero_size_fields { 8u16 } else { 0u16 }.to_le_bytes());
    z.extend_from_slice(&if deflate { 8u16 } else { 0u16 }.to_le_bytes());
    z.extend_from_slice(&[0u8; 8]);
    let sz = if zero_size_fields { 0 } else { data.len() as u32 };
    z.extend_from_slice(&sz.to_le_bytes());
    z.extend_from_slice(&sz.to_le_bytes());
    z.extend_from_slice(&(name.len() as u16).to_le_bytes());
    z.extend_from_slice(&0u16.to_le_bytes());
    z.extend_from_slice(name);
    z.extend_from_slice(&data);
    z
}

#[test]
fn unzip_handles_deflate_stored_and_streaming_headers() {
    let payload = b"fake aoe2record bytes: not a real replay, just round-trip data";
    for (deflate, zero) in [(true, false), (true, true), (false, false)] {
        let z = make_zip(payload, deflate, zero);
        let out = unzip_single_member(&z).unwrap();
        assert_eq!(out.as_slice(), payload, "deflate={deflate} zero={zero}");
    }
    assert!(unzip_single_member(&make_zip(payload, false, true)).is_err());
    assert!(unzip_single_member(b"not a zip at all").is_err());
    assert!(unzip_single_member(b"").is_err());
}

#[test]
fn unzip_names_each_failure() {
    assert_eq!(unzip_single_member(b"PK"), Err(UnzipError::NotZip(2)));
    let mut z = make_zip(b"abc", false, false);
    z[26] = 0xff; // name length runs past the buffer
    assert_eq!(unzip_single_member(&z), Err(UnzipError::HeaderPastBuffer));
    let mut z = make_zip(b"abc", false, false);
    z[8] = 12; // bzip2
    assert_eq!(unzip_single_member(&z), Err(UnzipError::UnsupportedMethod(12)));
    assert_eq!(
        unzip_single_member(&make_zip(b"abc", false, true)),
        Err(UnzipError::BadStoredSize)
    );
    let mut z = make_zip(b"", false, false);
    z[8] = 8; // deflate, with a reserved block type as its data
    z.extend_from_slice(&[0xff, 0xff, 0xff]);
    assert!(matches!(unzip_single_member(&z), Err(UnzipError::Inflate(_))));
}

#[test]
fn gunzip_replay_returns_the_record_bytes() {
    let mut enc = GzEncoder::new(Vec::new(), Compression::default());
    enc.write_all(b"record bytes").unwrap();
    let gz = enc.finish().unwrap();
    assert_eq!(gunzip_replay(&gz).unwrap(), b"record bytes".to_vec());
    assert!(gunzip_replay(b"plainly not gzip").is_err());
}

fn file(pid: i64, mid: i64, size: Option<i64>, url: Option<&str>) -> ReplayFile {
    ReplayFile {
        profile_id: Some(pid),
        matchhistory_id: Some(mid),
        size,
        url: url.map(str::to_string),
    }
}

#[test]
fn best_file_is_the_last_largest_usable_file() {
    let files = vec![
        file(1, 9, Some(-1), Some("a")),
        file(2, 9, Some(500), Some("b")),
        file(3, 9, Some(900), None),
        file(4, 9, Some(500), Some("d")),
        file(5, 9, None, Some("e")),
    ];
    assert_eq!(best_file(&files).unwrap().profile_id, Some(4));
    let none = vec![file(1, 9, Some(-1), Some("a")), file(2, 9, Some(10), None)];
    assert!(best_file(&none).is_none());
}

#[test]
fn group_by_match_keeps_response_order_per_match() {
    let files = vec![
        file(1, 7, Some(1), Some("a")),
        file(2, 8, Some(1), Some("b")),
        file(3, 7, Some(1), Some("c")),
        ReplayFile { profile_id: Some(4), matchhistory_id: None, size: None, url: None },
    ];
    let g = group_by_match(files);
    assert_eq!(g.len(), 2);
    let seven: Vec<Option<i64>> = g[&7].iter().map(|f| f.profile_id).collect();
    assert_eq!(seven, vec![Some(1), Some(3)]);
    assert_eq!(g[&8].len(), 1);
}

#[test]
fn urls_encode_the_id_list_and_title() {
    assert_eq!(
        replay_files_url(&[1, 22, -3]),
        "https://aoe-api.worldsedgelink.com/community/leaderboard/getReplayFiles?matchIDs=%5B1%2C22%2C-3%5D&title=age2"
    );
    assert_eq!(
        replay_files_url(&[]),
        "https://aoe-api.worldsedgelink.com/community/leaderboard/getReplayFiles?matchIDs=%5B%5D&title=age2"
    );
    assert_eq!(
        recent_matches_url(199325),
        "https://aoe-api.worldsedgelink.com/community/leaderboard/getRecentMatchHistory?title=age2&profile_ids=%5B199325%5D"
    );
}

const FIXTURE: &str = r#"{
  "matchHistoryStats": [
    {"id": 54100641, "completiontime": 1607456129, "description": "AUTOMATCH", "mapname": "Arabia.rms", "matchtype_id": 2,
     "matchhistorymember": [
       {"profile_id": 199325, "civilization_id": 6, "oldrating": 2062, "newrating": 2026, "outcome": 0},
       {"profile_id": 2653793, "civilization_id": 6, "oldrating": 2125, "newrating": 2134, "outcome": 1}]},
    {"id": 489464526, "completiontime": 1782951012, "description": ".", "mapname": "my map", "matchtype_id": 0,
     "matchhistorymember": [
       {"profile_id": 199325, "civilization_id": 43, "oldrating": 1714, "newrating": 1729, "outcome": 1},
       {"profile_id": 271202, "civilization_id": 25, "oldrating": 1686, "newrating": 1671, "outcome": 0}]},
    {"id": 74166094, "completiontime": 0, "description": "AUTOMATCH", "mapname": "Fortress.rms", "matchtype_id": 18,
     "matchhistorymember": [
       {"profile_id": 3309375, "civilization_id": 14, "oldrating": 1002, "newrating": 970, "outcome": 0},
       {"profile_id": 199325, "civilization_id": 11, "oldrating": 1000, "newrating": 1048, "outcome": 1}]},
    {"id": 83138685, "completiontime": 1618070120, "description": "AUTOMATCH", "mapname": "goldenpit.rms2", "matchtype_id": 2,
     "matchhistorymember": [
       {"profile_id": 214031, "civilization_id": 2, "oldrating": 1854, "newrating": 1846, "outcome": 0},
       {"profile_id": 199325, "civilization_id": 2, "oldrating": 2026, "newrating": 2052, "outcome": 1}]}
  ],
  "profiles": [{"profile_id": 199325, "alias": "VIT | Hera"}, {"profile_id": 214031, "alias": "HAMZA"}]
}"#;

fn history_of(text: &str) -> RecentHistory {
    let v: serde_json::Value = serde_json::from_str(text).unwrap();
    let int = |x: &serde_json::Value| x.as_i64();
    let stats = v["matchHistoryStats"]
        .as_array()
        .unwrap()
        .iter()
        .map(|m| MatchStat {
            id: m["id"].as_i64().unwrap(),
            completiontime: m["completiontime"].as_i64().unwrap_or(0),
            description: m["description"].as_str().unwrap_or("").to_string(),
            matchhistorymember: m["matchhistorymember"]
                .as_array()
                .unwrap()
                .iter()
                .map(|x| MatchMember {
                    profile_id: x["profile_id"].as_i64().unwrap(),
                    civilization_id: x["civilization_id"].as_u64().map(|c| c as u32),
                    oldrating: int(&x["oldrating"]).map(|r| r as i32),
                    newrating: int(&x["newrating"]).map(|r| r as i32),
                    outcome: int(&x["outcome"]).map(|r| r as i32),
                })
                .collect(),
        })
        .collect();
    let profiles = v["profiles"]
        .as_array()
        .unwrap()
        .iter()
        .map(|p| ProfileEntry {
            profile_id: p["profile_id"].as_i64().unwrap(),
            alias: p["alias"].as_str().map(str::to_string),
        })
        .collect();
    RecentHistory { match_history_stats: stats, profiles }
}

#[test]
fn recent_matches_filters_sorts_and_joins_me() {
    let doc = history_of(FIXTURE);
    let ms = normalize_recent(&doc, 199325);
    assert_eq!(ms.len(), 2);
    assert!(ms.iter().all(|m| m.match_id != 74166094));
    assert_eq!(ms[0].match_id, 83138685);
    assert_eq!(ms[0].my_won, Some(true));
    assert_eq!(ms[0].my_rating, Some(2052));
    assert_eq!(ms[1].my_civ_id, Some(6));
    assert_eq!(ms[0].my_alias.as_deref(), Some("VIT | Hera"));
    assert_eq!(ms[0].team_size, 2);
}

#[test]
fn recent_matches_fall_back_to_the_old_rating_and_keep_ties_in_order() {
    let doc = RecentHistory {
        match_history_stats: vec![
            MatchStat {
                id: 1,
                completiontime: 50,
                description: "AUTOMATCH".to_string(),
                matchhistorymember: vec![MatchMember {
                    profile_id: 7,
                    civilization_id: None,
                    oldrating: Some(1000),
                    newrating: None,
                    outcome: None,
                }],
            },
            MatchStat {
                id: 2,
                completiontime: 50,
                description: "AUTOMATCH".to_string(),
                matchhistorymember: vec![],
            },
        ],
        profiles: vec![],
    };
    let ms = normalize_recent(&doc, 7);
    assert_eq!(ms.iter().map(|m| m.match_id).collect::<Vec<_>>(), vec![1, 2]);
    assert_eq!(ms[0].my_rating, Some(1000));
    assert_eq!(ms[0].my_won, None);
    assert_eq!(ms[1].my_rating, None);
    assert_eq!(ms[1].my_alias, None);
}

// --- manifest ----------------------------------------------------------------------------

#[test]
fn update_statement_touches_only_supplied_columns() {
    let mut u = Update::new(42, "no_replay");
    u.n_files = Some(3);
    u.best_size = Some(-1);
    let (sql, vals) = update_statement(&u, 1000);
    assert_eq!(
        sql,
        "UPDATE matches SET status = ?, updated_at = ?, n_files = ?, best_size = ?, attempts = attempts + 1 WHERE match_id = ?"
    );
    assert_eq!(
        vals,
        vec![
            SqlValue::Text("no_replay".to_string()),
            SqlValue::Int(1000),
            SqlValue::Int(3),
            SqlValue::Int(-1),
            SqlValue::Int(42)
        ]
    );
    let mut d = Update::default();
    d.status = "parsed".to_string();
    d.error = Some("e".to_string());
    let (sql, vals) = update_statement(&d, 5);
    assert_eq!(sql, "UPDATE matches SET status = ?, updated_at = ?, error = ? WHERE match_id = ?");
    assert_eq!(vals.len(), 4);
}

#[test]
fn fmt_counts_renders_braced_pairs() {
    let counts = vec![("parsed".to_string(), 12), ("expired".to_string(), 3)];
    assert_eq!(fmt_counts(&counts), "{parsed: 12, expired: 3}");
    assert_eq!(fmt_counts(&[]), "{}");
}

// --- seed --------------------------------------------------------------------------------

#[test]
fn seed_newline_list_skips_blank_and_non_numeric_lines() {
    let rows = parse_lines("match_id\n 12 \n\nabc\n-5\r\n");
    assert_eq!(rows.iter().map(|r| r.match_id).collect::<Vec<_>>(), vec![12, -5]);
    assert!(rows.iter().all(|r| r.ladder.is_none() && r.played_at.is_none() && r.profile_ids.is_none()));
}

#[test]
fn seed_csv_maps_header_columns_case_insensitively() {
    let text = "Ladder, TS ,MatchID\nrm_1v1,100,7\n,x,8\n\nbad,1,nope\nrm_team,,9";
    let rows = parse_csv(text);
    assert_eq!(rows.len(), 3);
    assert_eq!(rows[0].match_id, 7);
    assert_eq!(rows[0].ladder.as_deref(), Some("rm_1v1"));
    assert_eq!(rows[0].played_at, Some(100));
    assert_eq!(rows[1].match_id, 8);
    assert_eq!(rows[1].ladder, None);
    assert_eq!(rows[1].played_at, None);
    assert_eq!(rows[2].match_id, 9);
    assert_eq!(rows[2].played_at, None);
}

#[test]
fn seed_text_detects_csv_by_a_comma_in_the_first_line() {
    assert_eq!(parse_seed_text("a,b\n1,2").len(), 1);
    assert_eq!(parse_seed_text("a,b\n1,2")[0].match_id, 1);
    assert_eq!(parse_seed_text("3\n4").len(), 2);
    assert_eq!(parse_seed_text("").len(), 0);
}

// --- pipeline decisions ------------------------------------------------------------------

#[test]
fn truncate_cuts_at_a_char_boundary() {
    assert_eq!(truncate("hello", 10), "hello");
    assert_eq!(truncate("hello", 3), "hel");
    assert_eq!(truncate("aé", 2), "a");
    assert_eq!(truncate("aé", 3), "aé");
    assert_eq!(truncate("€x", 2), "");
}

#[test]
fn profile_ids_parse_semicolon_lists() {
    assert_eq!(parse_profile_ids("11; 22;x;;33"), vec![11, 22, 33]);
    let rows = vec![
        PendingRow { match_id: 1, ladder: None, played_at: None, profile_ids: Some("5;6".to_string()) },
        PendingRow { match_id: 2, ladder: None, played_at: None, profile_ids: Some("none".to_string()) },
        PendingRow { match_id: 3, ladder: None, played_at: None, profile_ids: None },
    ];
    let m = profile_ids_by_match(&rows);
    assert_eq!(m.len(), 1);
    assert_eq!(m[&1], vec![5, 6]);
}

#[test]
fn take_size_respects_the_limit() {
    assert_eq!(take_size(None, 5, 400), Some(400));
    assert_eq!(take_size(Some(10), 10, 400), None);
    assert_eq!(take_size(Some(10), 4, 400), Some(6));
    assert_eq!(take_size(Some(1000), 4, 400), Some(400));
}

#[test]
fn resolve_chunk_routes_each_match() {
    let mut per_match: HashMap<i64, Vec<ReplayFile>> = HashMap::new();
    per_match.insert(1, vec![file(10, 1, Some(100), Some("u1"))]);
    per_match.insert(2, vec![file(20, 2, Some(-1), Some("u2"))]);
    let mut pids: HashMap<i64, Vec<i64>> = HashMap::new();
    pids.insert(3, vec![30, 31]);
    let (downloads, fallbacks, settled) = resolve_chunk(&[1, 2, 3, 4], &per_match, &pids);
    assert_eq!(downloads.len(), 1);
    assert_eq!(downloads[0].url, "u1");
    assert_eq!(downloads[0].best_pid, Some(10));
    assert_eq!(downloads[0].best_size, 100);
    assert_eq!(fallbacks.len(), 1);
    assert_eq!(fallbacks[0].profile_ids, vec![30, 31]);
    assert_eq!(settled.len(), 2);
    assert_eq!(settled[0].status, "no_replay");
    assert_eq!(settled[0].n_files, Some(1));
    assert_eq!(settled[0].best_size, Some(-1));
    assert_eq!(settled[1].status, "expired");
    assert_eq!(settled[1].match_id, 4);
}

#[test]
fn outcomes_become_updates_with_truncated_errors() {
    let d = Downloadable { match_id: 9, url: "u".to_string(), n_files: 2, best_size: 77, best_pid: Some(5) };
    let long = "x".repeat(300);
    let o = Outcome::for_match(&d, "parse_failed").with_error(&long);
    let u = outcome_update(&o);
    assert_eq!(u.status, "parse_failed");
    assert_eq!(u.error.as_ref().map(|e| e.len()), Some(200));
    assert_eq!(u.n_files, Some(2));
    assert_eq!(u.best_size, Some(77));
    assert_eq!(u.best_pid, Some(5));
    let ok = Outcome::for_match(&d, "parsed").with_events(123);
    assert_eq!(outcome_update(&ok).events, Some(123));
    let a = Outcome::archive(4, "expired", "archive: 404 for all participants");
    assert_eq!(a.best_size, -1);
    assert_eq!(a.n_files, 0);
    let fails = lookup_failed(&[1, 2], "getReplayFiles: timeout");
    assert_eq!(fails.len(), 2);
    assert_eq!(fails[1].match_id, 2);
    assert_eq!(fails[0].status, "error");
    assert_eq!(fails[0].error.as_deref(), Some("getReplayFiles: timeout"));
}

// --- seeding the manifest ------------------------------------------------------------------

fn seed_row(id: i64, pids: Option<&str>) -> SeedRow {
    SeedRow {
        match_id: id,
        ladder: None,
        played_at: None,
        profile_ids: pids.map(str::to_string),
    }
}

fn apply_seed(
    db: &mut HashMap<i64, StoredRow>,
    r: &SeedRow,
) {
    let existing = db.get(&r.match_id).cloned();
    match seed_effect(&existing, r) {
        SeedEffect::Insert => {
            db.insert(r.match_id, StoredRow { status: "pending".to_string(), profile_ids: r.profile_ids.clone() });
        }
        SeedEffect::Enrich { profile_ids, status } => {
            db.insert(r.match_id, StoredRow { status, profile_ids: Some(profile_ids) });
        }
        SeedEffect::Keep => {}
    }
}

#[test]
fn seed_effect_enriches_once_and_flips_expired_once() {
    let mut db = HashMap::new();
    // A new id is inserted pending.
    assert_eq!(seed_effect(&None, &seed_row(1, Some("10;20"))), SeedEffect::Insert);
    apply_seed(&mut db, &seed_row(1, Some("10;20")));
    // An existing row without ids: expired -> pending, enriched.
    apply_seed(&mut db, &seed_row(2, None));
    db.get_mut(&2).unwrap().status = "expired".to_string();
    apply_seed(&mut db, &seed_row(2, Some("30;40")));
    assert_eq!(db[&2].status, "pending");
    assert_eq!(db[&2].profile_ids.as_deref(), Some("30;40"));
    // Archive also failed -> expired with ids; a re-seed does not flip it again.
    db.get_mut(&2).unwrap().status = "expired".to_string();
    assert_eq!(seed_effect(&db.get(&2).cloned(), &seed_row(2, Some("30;40"))), SeedEffect::Keep);
    // A parsed row without ids is enriched but keeps its status.
    let parsed = StoredRow { status: "parsed".to_string(), profile_ids: None };
    assert_eq!(
        seed_effect(&Some(parsed), &seed_row(3, Some("99"))),
        SeedEffect::Enrich { profile_ids: "99".to_string(), status: "parsed".to_string() }
    );
    // A seed without ids changes nothing.
    let bare = StoredRow { status: "expired".to_string(), profile_ids: None };
    assert_eq!(seed_effect(&Some(bare), &seed_row(4, None)), SeedEffect::Keep);
}

#[test]
fn seed_batch_enriches_once_and_flips_expired_exactly_once() {
    let mut db: HashMap<i64, StoredRow> = HashMap::new();
    // New rows are inserted pending; a repeated id in one batch is inserted once.
    let (effects, n) = seed_batch(&mut db, &[seed_row(1, Some("10;20")), seed_row(2, None), seed_row(2, None)]);
    assert_eq!(n, 2);
    assert_eq!(effects, vec![SeedEffect::Insert, SeedEffect::Insert, SeedEffect::Keep]);
    assert_eq!(db[&2].status, "pending");
    // Expired without ids: a seed with ids enriches it and flips it back to pending.
    db.get_mut(&2).unwrap().status = "expired".to_string();
    let (_, n) = seed_batch(&mut db, &[seed_row(2, Some("30;40")), seed_row(2, Some("50"))]);
    assert_eq!(n, 0);
    assert_eq!(db[&2].status, "pending");
    assert_eq!(db[&2].profile_ids.as_deref(), Some("30;40"));
    // Expired again with ids: no later seed flips it.
    db.get_mut(&2).unwrap().status = "expired".to_string();
    let (effects, _) = seed_batch(&mut db, &[seed_row(2, Some("30;40"))]);
    assert_eq!(effects, vec![SeedEffect::Keep]);
    assert_eq!(db[&2].status, "expired");
    // A parsed row with ids keeps its status and ids.
    db.get_mut(&1).unwrap().status = "parsed".to_string();
    seed_batch(&mut db, &[seed_row(1, Some("99"))]);
    assert_eq!(db[&1].status, "parsed");
    assert_eq!(db[&1].profile_ids.as_deref(), Some("10;20"));
}

#[test]
fn a_batch_gives_every_match_taken_exactly_one_update() {
    let mut per_match: HashMap<i64, Vec<ReplayFile>> = HashMap::new();
    per_match.insert(1, vec![file(10, 1, Some(100), Some("u1"))]);
    per_match.insert(2, vec![file(20, 2, Some(-1), Some("u2"))]);
    let mut pids: HashMap<i64, Vec<i64>> = HashMap::new();
    pids.insert(3, vec![30, 31]);
    let mut plan = BatchPlan::new();
    plan.add_lookup(&[1, 2, 3], &per_match, &pids);
    plan.add_failed(&[5, 6], "getReplayFiles: timeout");
    plan.add_lookup(&[4], &per_match, &pids);
    assert_eq!(plan.downloads.len(), 1);
    assert_eq!(plan.fallbacks.len(), 1);
    assert_eq!(plan.settled.iter().map(|u| u.match_id).collect::<Vec<_>>(), vec![2, 5, 6, 4]);
    assert_eq!(plan.settled[1].status, "error");
    assert_eq!(plan.settled[1].error.as_deref(), Some("getReplayFiles: timeout"));
    let d = plan.downloads[0].clone();
    let outcomes = vec![Outcome::for_match(&d, "parsed").with_events(7), Outcome::archive(3, "expired", "archive: 404 for all participants")];
    // outcomes out of order do not settle the batch
    let swapped = vec![outcomes[1].clone(), outcomes[0].clone()];
    let mut again = BatchPlan::new();
    again.add_lookup(&[1, 2, 3], &per_match, &pids);
    assert!(settle_batch(again, &swapped).is_none());
    let updates = settle_batch(plan, &outcomes).unwrap();
    let mut ids: Vec<i64> = updates.iter().map(|u| u.match_id).collect();
    assert_eq!(ids, vec![2, 5, 6, 4, 1, 3]);
    ids.sort();
    assert_eq!(ids, vec![1, 2, 3, 4, 5, 6]);
    assert_eq!(updates[4].status, "parsed");
    assert_eq!(updates[4].events, Some(7));
    assert_eq!(updates[5].status, "expired");
}
