//! Pacing of API requests and the decisions of the archive fallback: which participant's
//! copy to ask for next, how long to back off when the archive throttles, and when to give up.
//! The caller performs each action (the sleep, the HTTP request) and hands back what happened.
use vstd::prelude::*;

verus! {

// --- request pacing ----------------------------------------------------------------------

/// Nanoseconds in a minute.
pub const NANOS_PER_MINUTE: u64 = 60_000_000_000;

/// The spacing between granted slots for a budget of `per_min` requests a minute (a budget of
/// 0 counts as 1).
pub open spec fn interval_for(per_min: u32) -> u64 {
    (NANOS_PER_MINUTE / (if per_min == 0 { 1 } else { per_min as u64 })) as u64
}

/// The slot granted to a request made at `now`: `now`, unless the next free slot lies later.
pub open spec fn granted_slot(next: Option<u64>, now: u64) -> u64 {
    match next {
        Some(n) if now < n => n,
        _ => now,
    }
}

/// The next free slot after granting `slot`.
pub open spec fn slot_after(slot: u64, interval: u64) -> u64 {
    if slot + interval <= u64::MAX {
        (slot + interval) as u64
    } else {
        u64::MAX
    }
}

/// Monotonic-spacing rate limiter: each granted slot lies at least `interval` after the
/// previous one, so the request rate stays under the budget. Times are nanoseconds on the
/// caller's monotonic clock.
pub struct RateLimiter {
    interval_ns: u64,
    next_ns: Option<u64>,
}

impl RateLimiter {
    /// The spacing between slots.
    pub closed spec fn interval(&self) -> u64 {
        self.interval_ns
    }

    /// The next free slot, if any slot was granted yet.
    pub closed spec fn next_slot(&self) -> Option<u64> {
        self.next_ns
    }

    /// A limiter for `per_min` requests a minute that has granted nothing yet.
    pub fn new(per_min: u32) -> (r: Self)
        ensures
            r.interval() == interval_for(per_min),
            r.next_slot() is None,
    {
        let per: u64 = if per_min == 0 { 1 } else { per_min as u64 };
        RateLimiter { interval_ns: NANOS_PER_MINUTE / per, next_ns: None }
    }

    /// Grants the slot of a request made at `now_ns` and returns how long the caller must
    /// sleep before making it (0 when the slot is `now_ns` itself).
    pub fn wait(&mut self, now_ns: u64) -> (sleep_ns: u64)
        ensures
            sleep_ns == granted_slot(old(self).next_slot(), now_ns) - now_ns,
            final(self).next_slot() == Some(
                slot_after(granted_slot(old(self).next_slot(), now_ns), old(self).interval()),
            ),
            final(self).interval() == old(self).interval(),
    {
        let slot: u64 = match self.next_ns {
            Some(n) => if now_ns < n { n } else { now_ns },
            None => now_ns,
        };
        self.next_ns = Some(slot.saturating_add(self.interval_ns));
        slot - now_ns
    }
}

/// Two successive grants lie at least one interval apart (short of the clock's end): the slot
/// granted after `first` at any time is no earlier than `first + interval`.
pub proof fn lemma_slots_spaced(first: u64, interval: u64, now: u64)
    requires
        first + interval <= u64::MAX,
    ensures
        granted_slot(Some(slot_after(first, interval)), now) >= first + interval,
{
}

// --- the archive fallback ------------------------------------------------------------------

/// The limits of the archive fallback.
#[derive(Clone, Copy)]
pub struct ArchivePolicy {
    /// How many participants' copies to try at most.
    pub max_pids: usize,
    /// How many throttled answers to retry per participant before giving up.
    pub max_429_retries: u32,
    /// The back-off when a throttled answer names none, in seconds.
    pub retry_default_secs: u64,
    /// The longest back-off, in seconds.
    pub retry_max_secs: u64,
}

/// Where the fallback stands: the participant being tried and its throttled answers so far.
#[derive(Clone, Copy, PartialEq, Eq, Structural)]
pub struct ArchiveState {
    pub pid_index: usize,
    pub tries_429: u32,
}

/// What happened since the last action.
#[derive(Clone, Copy)]
pub enum ArchiveEvent {
    /// The fallback starts.
    Begin,
    /// The archive answered the last request with this HTTP status and, for a throttled
    /// answer, the `Retry-After` seconds it named, if any.
    Answered { status: u16, retry_after: Option<u64> },
}

/// What to do next.
#[derive(Clone, Copy, PartialEq, Eq, Structural)]
pub enum ArchiveAction {
    /// Wait for a paced slot, then ask the archive for this participant's copy.
    Request { pid: i64 },
    /// Sleep this many seconds, then ask again for the same participant's copy.
    Retry { secs: u64, pid: i64 },
    /// The archive has this participant's copy: read and unpack the body.
    Take { pid: i64 },
    /// Every tried participant answered 404.
    NotFound,
    /// The archive kept throttling past the retries.
    RateLimited,
    /// An unexpected status: fail (retryably) with it.
    Fail { pid: i64, status: u16 },
}

/// How many participants are tried.
pub open spec fn pid_limit(policy: ArchivePolicy, pids: Seq<i64>) -> int {
    if pids.len() < policy.max_pids { pids.len() as int } else { policy.max_pids as int }
}

/// The back-off for a throttled answer.
pub open spec fn backoff_secs(policy: ArchivePolicy, retry_after: Option<u64>) -> u64 {
    let want = match retry_after {
        Some(s) => s,
        None => policy.retry_default_secs,
    };
    if want < policy.retry_max_secs { want } else { policy.retry_max_secs }
}

/// The request for participant `i`, or `NotFound` when no participant is left.
pub open spec fn next_request(policy: ArchivePolicy, pids: Seq<i64>, i: int) -> ArchiveAction {
    if i < pid_limit(policy, pids) {
        ArchiveAction::Request { pid: pids[i] }
    } else {
        ArchiveAction::NotFound
    }
}

/// One step of the fallback: the state and action that follow `event` in `state`.
pub open spec fn archive_step_spec(
    policy: ArchivePolicy,
    pids: Seq<i64>,
    state: ArchiveState,
    event: ArchiveEvent,
) -> (ArchiveState, ArchiveAction) {
    match event {
        ArchiveEvent::Begin => (
            ArchiveState { pid_index: 0, tries_429: 0 },
            next_request(policy, pids, 0),
        ),
        ArchiveEvent::Answered { status, retry_after } => {
            let pid = pids[state.pid_index as int];
            if status == 200 {
                (state, ArchiveAction::Take { pid })
            } else if status == 404 {
                (
                    ArchiveState { pid_index: (state.pid_index + 1) as usize, tries_429: 0 },
                    next_request(policy, pids, state.pid_index + 1),
                )
            } else if status == 429 {
                if state.tries_429 >= policy.max_429_retries {
                    (state, ArchiveAction::RateLimited)
                } else {
                    (
                        ArchiveState { pid_index: state.pid_index, tries_429: (state.tries_429 + 1) as u32 },
                        ArchiveAction::Retry { secs: backoff_secs(policy, retry_after), pid },
                    )
                }
            } else {
                (state, ArchiveAction::Fail { pid, status })
            }
        },
    }
}

/// Whether `state` is one the fallback can be in while a request is out.
pub open spec fn archive_state_ok(policy: ArchivePolicy, pids: Seq<i64>, state: ArchiveState) -> bool {
    state.pid_index < pid_limit(policy, pids) && state.tries_429 <= policy.max_429_retries
}

/// Decides the next step of the archive fallback. After `Begin` it asks for the first
/// participant's copy; after an answer to a request it takes a 200, moves on to the next
/// participant on a 404 (`NotFound` when none is left), backs off on a 429 by the named
/// `Retry-After` (or the default) capped at the maximum, until the retries are spent
/// (`RateLimited`), and fails on any other status.
pub fn archive_step(policy: ArchivePolicy, pids: &[i64], state: ArchiveState, event: ArchiveEvent) -> (r: (
    ArchiveState,
    ArchiveAction,
))
    requires
        event is Answered ==> archive_state_ok(policy, pids@, state),
    ensures
        r == archive_step_spec(policy, pids@, state, event),
        r.1 is Request || r.1 is Retry || r.1 is Take ==> archive_state_ok(policy, pids@, r.0),
{
    let limit: usize = if pids.len() < policy.max_pids { pids.len() } else { policy.max_pids };
    match event {
        ArchiveEvent::Begin => {
            let action = if 0 < limit { ArchiveAction::Request { pid: pids[0] } } else { ArchiveAction::NotFound };
            (ArchiveState { pid_index: 0, tries_429: 0 }, action)
        },
        ArchiveEvent::Answered { status, retry_after } => {
            let pid = pids[state.pid_index];
            if status == 200 {
                (state, ArchiveAction::Take { pid })
            } else if status == 404 {
                let i = state.pid_index + 1;
                let action = if i < limit { ArchiveAction::Request { pid: pids[i] } } else { ArchiveAction::NotFound };
                (ArchiveState { pid_index: i, tries_429: 0 }, action)
            } else if status == 429 {
                if state.tries_429 >= policy.max_429_retries {
                    (state, ArchiveAction::RateLimited)
                } else {
                    let want: u64 = match retry_after {
                        Some(s) => s,
                        None => policy.retry_default_secs,
                    };
                    let secs: u64 = if want < policy.retry_max_secs { want } else { policy.retry_max_secs };
                    (
                        ArchiveState { pid_index: state.pid_index, tries_429: state.tries_429 + 1 },
                        ArchiveAction::Retry { secs, pid },
                    )
                }
            } else {
                (state, ArchiveAction::Fail { pid, status })
            }
        },
    }
}

/// The requests the fallback may still make from `state`: the current participant's
/// remaining retries plus the full allowance of every participant after it.
pub open spec fn requests_left(policy: ArchivePolicy, pids: Seq<i64>, state: ArchiveState) -> int {
    (pid_limit(policy, pids) - state.pid_index - 1) * (policy.max_429_retries + 1) + (
    policy.max_429_retries - state.tries_429)
}

/// The fallback ends: every answer that leads to another request leaves fewer requests
/// to make, so a match costs at most `max_pids * (max_429_retries + 1)` archive requests.
pub proof fn lemma_archive_requests_bounded(
    policy: ArchivePolicy,
    pids: Seq<i64>,
    state: ArchiveState,
    status: u16,
    retry_after: Option<u64>,
)
    requires
        archive_state_ok(policy, pids, state),
    ensures
        ({
            let (next, action) = archive_step_spec(
                policy,
                pids,
                state,
                ArchiveEvent::Answered { status, retry_after },
            );
            (action is Request || action is Retry) ==> 0 <= requests_left(policy, pids, next)
                < requests_left(policy, pids, state)
        }),
        requests_left(policy, pids, ArchiveState { pid_index: 0, tries_429: 0 }) + 1 == pid_limit(
            policy,
            pids,
        ) * (policy.max_429_retries + 1),
{
    let l = pid_limit(policy, pids);
    let m = policy.max_429_retries as int;
    let i = state.pid_index as int;
    assert((l - i - 1) * (m + 1) >= 0) by (nonlinear_arith)
        requires
            l - i - 1 >= 0,
            m + 1 >= 0,
    ;
    assert((l - i - 1) * (m + 1) == (l - (i + 1) - 1) * (m + 1) + (m + 1)) by (nonlinear_arith);
    if i + 1 < l {
        assert((l - (i + 1) - 1) * (m + 1) >= 0) by (nonlinear_arith)
            requires
                l - (i + 1) - 1 >= 0,
                m + 1 >= 0,
        ;
    }
    assert((l - 0 - 1) * (m + 1) + m + 1 == l * (m + 1)) by (nonlinear_arith);
}

} // verus!
