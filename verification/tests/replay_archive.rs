use aoe2_pipeline::replay::pipeline::{archive_gate, archive_miss, ArchiveMiss};
use aoe2_pipeline::replay::archive::{
    archive_step, ArchiveAction, ArchiveEvent, ArchivePolicy, ArchiveState, RateLimiter,
};

const POLICY: ArchivePolicy = ArchivePolicy {
    max_pids: 2,
    max_429_retries: 1,
    retry_default_secs: 60,
    retry_max_secs: 300,
};

fn answered(status: u16, retry_after: Option<u64>) -> ArchiveEvent {
    ArchiveEvent::Answered { status, retry_after }
}

#[test]
fn rate_limiter_spaces_slots_by_the_interval() {
    // 30 requests a minute: one slot every 2 s.
    let mut l = RateLimiter::new(30);
    assert_eq!(l.wait(0), 0);
    // Asked again 0.5 s later: sleep until the 2 s slot.
    assert_eq!(l.wait(500_000_000), 1_500_000_000);
    // The next slot is then at 4 s; asking at 10 s needs no sleep.
    assert_eq!(l.wait(10_000_000_000), 0);
    assert_eq!(l.wait(10_000_000_001), 1_999_999_999);
}

#[test]
fn rate_limiter_zero_budget_counts_as_one_a_minute() {
    let mut l = RateLimiter::new(0);
    assert_eq!(l.wait(7), 0);
    assert_eq!(l.wait(7), 60_000_000_000);
}

#[test]
fn archive_begins_with_the_first_participant() {
    let (s, a) = archive_step(POLICY, &[11, 22, 33], ArchiveState { pid_index: 5, tries_429: 9 }, ArchiveEvent::Begin);
    assert!(s == ArchiveState { pid_index: 0, tries_429: 0 });
    assert!(a == ArchiveAction::Request { pid: 11 });
}

#[test]
fn archive_without_participants_is_not_found() {
    let (_, a) = archive_step(POLICY, &[], ArchiveState { pid_index: 0, tries_429: 0 }, ArchiveEvent::Begin);
    assert!(a == ArchiveAction::NotFound);
}

#[test]
fn archive_404_moves_on_then_gives_up_at_the_participant_cap() {
    let pids = [11, 22, 33];
    let (s, a) = archive_step(POLICY, &pids, ArchiveState { pid_index: 0, tries_429: 1 }, answered(404, None));
    assert!(s == ArchiveState { pid_index: 1, tries_429: 0 });
    assert!(a == ArchiveAction::Request { pid: 22 });
    // The cap is two participants: the third is never asked.
    let (_, a) = archive_step(POLICY, &pids, s, answered(404, None));
    assert!(a == ArchiveAction::NotFound);
}

#[test]
fn archive_200_takes_the_current_participant() {
    let (_, a) = archive_step(POLICY, &[11, 22], ArchiveState { pid_index: 1, tries_429: 0 }, answered(200, None));
    assert!(a == ArchiveAction::Take { pid: 22 });
}

#[test]
fn archive_429_backs_off_capped_then_rate_limits() {
    let pids = [11, 22];
    let s0 = ArchiveState { pid_index: 0, tries_429: 0 };
    let (s1, a) = archive_step(POLICY, &pids, s0, answered(429, Some(900)));
    assert!(a == ArchiveAction::Retry { secs: 300, pid: 11 });
    assert!(s1 == ArchiveState { pid_index: 0, tries_429: 1 });
    let (_, a) = archive_step(POLICY, &pids, s0, answered(429, None));
    assert!(a == ArchiveAction::Retry { secs: 60, pid: 11 });
    let (_, a) = archive_step(POLICY, &pids, s0, answered(429, Some(5)));
    assert!(a == ArchiveAction::Retry { secs: 5, pid: 11 });
    // Retries spent.
    let (_, a) = archive_step(POLICY, &pids, s1, answered(429, Some(5)));
    assert!(a == ArchiveAction::RateLimited);
}

#[test]
fn archive_other_status_fails() {
    let (_, a) = archive_step(POLICY, &[11], ArchiveState { pid_index: 0, tries_429: 0 }, answered(500, None));
    assert!(a == ArchiveAction::Fail { pid: 11, status: 500 });
}

#[test]
fn archive_requests_are_bounded_by_the_policy() {
    // Always throttled, never a 404: with two participants and one retry each the walk
    // stops after at most 2 * (1 + 1) requests.
    let pids = [11, 22];
    let (mut s, mut a) = archive_step(POLICY, &pids, ArchiveState { pid_index: 0, tries_429: 0 }, ArchiveEvent::Begin);
    let mut requests = 0;
    while matches!(a, ArchiveAction::Request { .. } | ArchiveAction::Retry { .. }) {
        requests += 1;
        let status = if s.tries_429 < 1 { 429 } else { 404 };
        let next = archive_step(POLICY, &pids, s, answered(status, None));
        s = next.0;
        a = next.1;
    }
    assert_eq!(requests, 4);
    assert!(a == ArchiveAction::NotFound);
}

#[test]
fn archive_gate_defers_when_blocked_or_out_of_budget() {
    assert_eq!(archive_gate(false, 3, 4), None);
    assert_eq!(archive_gate(false, 4, 4), Some("archive: request budget exhausted (deferred to next run)"));
    assert_eq!(archive_gate(true, 0, 4), Some("archive: rate limited (deferred to next run)"));
    assert_eq!(archive_gate(false, 0, 0), Some("archive: request budget exhausted (deferred to next run)"));
}

#[test]
fn archive_misses_settle_by_kind() {
    let (o, blocked) = archive_miss(7, &ArchiveMiss::NotFound);
    assert_eq!((o.match_id, o.status, blocked), (7, "expired", false));
    assert_eq!(o.error.as_deref(), Some("archive: 404 for all participants"));
    assert_eq!((o.n_files, o.best_size, o.best_pid, o.events), (0, -1, None, None));
    let (o, blocked) = archive_miss(7, &ArchiveMiss::BadPayload("not a zip".to_string()));
    assert_eq!((o.status, blocked), ("parse_failed", false));
    assert_eq!(o.error.as_deref(), Some("not a zip"));
    let (o, blocked) = archive_miss(7, &ArchiveMiss::RateLimited);
    assert_eq!((o.status, blocked), ("error", true));
    assert_eq!(o.error.as_deref(), Some("archive: rate limited (deferred to next run)"));
    let (o, blocked) = archive_miss(7, &ArchiveMiss::Failed("timeout".to_string()));
    assert_eq!((o.status, blocked), ("error", false));
    assert_eq!(o.error.as_deref(), Some("archive: timeout"));
}
