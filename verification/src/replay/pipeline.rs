//! The decisions of the replay pipeline's run loop: how many pending ids to take, which
//! matches a replay-file lookup makes downloadable, sends to the archive fallback or
//! settles, and the manifest update each outcome becomes. The loop itself (network,
//! threads, the manifest database) is driven by the caller.
use std::collections::HashMap;

use vstd::prelude::*;

use crate::replay::api::{best_file, best_index, size_or, ReplayFile};
use crate::replay::config::{ERROR, EXPIRED, NO_REPLAY, PARSED, PARSE_FAILED};
use crate::replay::manifest::{PendingRow, Update};
use crate::text::{
    chars_of, parse_i64, parse_i64_spec, push_all, split_by, split_chars, string_of, trim, trim_chars,
    views,
};

verus! {

broadcast use vstd::std_specs::hash::group_hash_axioms;

// --- byte-safe truncation -------------------------------------------------------------------

/// The number of UTF-8 bytes of a char.
pub open spec fn utf8_len(c: char) -> nat {
    if (c as u32) < 0x80 {
        1
    } else if (c as u32) < 0x800 {
        2
    } else if (c as u32) < 0x1_0000 {
        3
    } else {
        4
    }
}

/// The number of UTF-8 bytes of a string.
pub open spec fn utf8_bytes(s: Seq<char>) -> nat
    decreases s.len(),
{
    if s.len() == 0 {
        0
    } else {
        utf8_bytes(s.drop_last()) + utf8_len(s.last())
    }
}

/// Whether the first `k` chars of `s` are its longest prefix of at most `max` UTF-8 bytes.
pub open spec fn longest_fit(s: Seq<char>, max: int, k: int) -> bool {
    &&& 0 <= k <= s.len()
    &&& utf8_bytes(s.subrange(0, k)) <= max
    &&& (k == s.len() || utf8_bytes(s.subrange(0, k + 1)) > max)
}

/// Whether `r` is `s` cut to at most `max` UTF-8 bytes at a char boundary, as long as
/// that allows.
pub open spec fn truncated(r: Seq<char>, s: Seq<char>, max: int) -> bool {
    exists|k: int| longest_fit(s, max, k) && r == #[trigger] s.subrange(0, k)
}

/// Cuts `s` to at most `max` UTF-8 bytes, at a char boundary: the longest prefix that
/// fits.
pub fn truncate(s: &str, max: usize) -> (r: String)
    ensures
        truncated(r@, s@, max as int),
{
    let cs = chars_of(s);
    let mut n: usize = 0;
    let mut k: usize = 0;
    while k < cs.len()
        invariant
            k <= cs@.len(),
            cs@ == s@,
            n == utf8_bytes(cs@.subrange(0, k as int)),
            n <= max,
        decreases cs@.len() - k,
    {
        assert(cs@.subrange(0, k + 1).drop_last() == cs@.subrange(0, k as int));
        let c = cs[k];
        let w: usize = if (c as u32) < 0x80 {
            1
        } else if (c as u32) < 0x800 {
            2
        } else if (c as u32) < 0x1_0000 {
            3
        } else {
            4
        };
        if w > max - n {
            let r = crate::text::subvec(cs.as_slice(), 0, k);
            assert(longest_fit(s@, max as int, k as int));
            return string_of(r.as_slice());
        }
        n = n + w;
        k = k + 1;
    }
    assert(cs@.subrange(0, cs@.len() as int) == cs@);
    assert(longest_fit(s@, max as int, s@.len() as int));
    string_of(cs.as_slice())
}

// --- participant ids ------------------------------------------------------------------------

/// The integers of a `;`-separated list (each trimmed; other entries skipped).
pub open spec fn profile_ids_spec(s: Seq<char>) -> Seq<i64> {
    ints_of(split_by(s, ";"@))
}

/// The pieces that parse as integers (trimmed), in order.
pub open spec fn ints_of(ps: Seq<Seq<char>>) -> Seq<i64>
    decreases ps.len(),
{
    if ps.len() == 0 {
        Seq::empty()
    } else {
        let prev = ints_of(ps.drop_last());
        match parse_i64_spec(trim(ps.last())) {
            Some(v) => prev.push(v),
            None => prev,
        }
    }
}

/// The participant profile ids of a `;`-separated list; entries that are not integers
/// are skipped.
pub fn parse_profile_ids(s: &str) -> (r: Vec<i64>)
    ensures
        r@ == profile_ids_spec(s@),
{
    let sep = chars_of(";");
    proof {
        reveal_strlit(";");
    }
    let parts = split_chars(&chars_of(s), sep.as_slice());
    let ghost pv = views(parts@);
    let mut out: Vec<i64> = Vec::new();
    let mut i: usize = 0;
    while i < parts.len()
        invariant
            i <= parts@.len(),
            pv == views(parts@),
            pv == split_by(s@, ";"@),
            out@ == ints_of(pv.subrange(0, i as int)),
        decreases parts@.len() - i,
    {
        assert(pv.subrange(0, i + 1).drop_last() == pv.subrange(0, i as int));
        assert(pv.subrange(0, i + 1).last() == parts@[i as int]@);
        let t = trim_chars(parts[i].as_slice());
        match parse_i64(t.as_slice()) {
            Some(v) => out.push(v),
            None => {},
        }
        i = i + 1;
    }
    assert(pv.subrange(0, pv.len() as int) == pv);
    out
}

/// The participant ids of each pending row that lists at least one, keyed by match id
/// (a later row for the same match replacing an earlier one).
pub open spec fn pids_map(rows: Seq<PendingRow>) -> Map<i64, Seq<i64>>
    decreases rows.len(),
{
    if rows.len() == 0 {
        Map::empty()
    } else {
        let prev = pids_map(rows.drop_last());
        let r = rows.last();
        match r.profile_ids {
            Some(p) => if profile_ids_spec(p@).len() > 0 {
                prev.insert(r.match_id, profile_ids_spec(p@))
            } else {
                prev
            },
            None => prev,
        }
    }
}

/// Participant ids per pending match (the archive fallback's key).
pub fn profile_ids_by_match(rows: &[PendingRow]) -> (r: HashMap<i64, Vec<i64>>)
    ensures
        r@.dom() == pids_map(rows@).dom(),
        forall|m: i64| #[trigger] r@.contains_key(m) ==> r@[m]@ == pids_map(rows@)[m],
{
    let mut out: HashMap<i64, Vec<i64>> = HashMap::new();
    let mut i: usize = 0;
    while i < rows.len()
        invariant
            i <= rows@.len(),
            out@.dom() == pids_map(rows@.subrange(0, i as int)).dom(),
            forall|m: i64| #[trigger] out@.contains_key(m) ==> out@[m]@ == pids_map(rows@.subrange(0, i as int))[m],
        decreases rows@.len() - i,
    {
        assert(rows@.subrange(0, i + 1).drop_last() == rows@.subrange(0, i as int));
        let r = &rows[i];
        match &r.profile_ids {
            Some(p) => {
                let ids = parse_profile_ids(p.as_str());
                if ids.len() > 0 {
                    out.insert(r.match_id, ids);
                }
            },
            None => {},
        }
        i = i + 1;
    }
    assert(rows@.subrange(0, rows@.len() as int) == rows@);
    out
}

/// How many pending ids to take next: none once `processed` reached the limit; else the
/// look-ahead, capped by what the limit leaves.
pub fn take_size(limit: Option<usize>, processed: usize, lookahead: usize) -> (r: Option<usize>)
    ensures
        match limit {
            Some(l) => if processed >= l {
                r is None
            } else {
                r == Some(if lookahead < l - processed {
                    lookahead
                } else {
                    (l - processed) as usize
                })
            },
            None => r == Some(lookahead),
        },
{
    match limit {
        Some(l) => {
            if processed >= l {
                None
            } else if lookahead < l - processed {
                Some(lookahead)
            } else {
                Some(l - processed)
            }
        },
        None => Some(lookahead),
    }
}

// --- resolving a lookup -------------------------------------------------------------------

/// A match that resolved to a downloadable signed URL.
#[derive(Debug, Clone)]
pub struct Downloadable {
    pub match_id: i64,
    pub url: String,
    pub n_files: i64,
    pub best_size: i64,
    pub best_pid: Option<i64>,
}

/// A match that aged out of the lookup but lists participants for the archive fallback.
#[derive(Debug, Clone)]
pub struct FallbackCandidate {
    pub match_id: i64,
    pub profile_ids: Vec<i64>,
}

/// What a lookup decides for one match: a download of its best file, an archive
/// fallback, expired (absent, no participants) or no replay (no usable file).
pub enum Decision {
    Download { match_id: i64, url: Seq<char>, n_files: i64, best_size: i64, best_pid: Option<i64> },
    Fallback { match_id: i64, profile_ids: Seq<i64> },
    Expired { match_id: i64 },
    NoReplay { match_id: i64, n_files: i64 },
}

/// The decision for match `m`.
pub open spec fn decide(m: i64, per_match: Map<i64, Vec<ReplayFile>>, pids: Map<i64, Seq<i64>>) -> Decision {
    if !per_match.contains_key(m) {
        if pids.contains_key(m) {
            Decision::Fallback { match_id: m, profile_ids: pids[m] }
        } else {
            Decision::Expired { match_id: m }
        }
    } else {
        let files = per_match[m]@;
        let b = best_index(files);
        if b < 0 {
            Decision::NoReplay { match_id: m, n_files: files.len() as i64 }
        } else {
            Decision::Download {
                match_id: m,
                url: match files[b].url {
                    Some(u) => u@,
                    None => Seq::empty(),
                },
                n_files: files.len() as i64,
                best_size: size_or(files[b]),
                best_pid: files[b].profile_id,
            }
        }
    }
}

/// Whether a download row describes a `Download` decision.
pub open spec fn is_download_of(d: Downloadable, x: Decision) -> bool {
    x matches Decision::Download { match_id, url, n_files, best_size, best_pid } && d.match_id == match_id
        && d.url@ == url && d.n_files == n_files && d.best_size == best_size && d.best_pid == best_pid
}

/// Whether a fallback row describes a `Fallback` decision.
pub open spec fn is_fallback_of(f: FallbackCandidate, x: Decision) -> bool {
    x matches Decision::Fallback { match_id, profile_ids } && f.match_id == match_id && f.profile_ids@
        == profile_ids
}

/// Whether an update settles an `Expired` or `NoReplay` decision: the status, one more
/// attempt, and for no replay the file count with best size -1.
pub open spec fn is_settled_of(u: Update, x: Decision) -> bool {
    &&& u.attempts_inc
    &&& u.best_pid is None
    &&& u.events is None
    &&& u.error is None
    &&& match x {
        Decision::Expired { match_id } => u.match_id == match_id && u.status@ == EXPIRED@ && u.n_files is None
            && u.best_size is None,
        Decision::NoReplay { match_id, n_files } => u.match_id == match_id && u.status@ == NO_REPLAY@
            && u.n_files == Some(n_files) && u.best_size == Some(-1i64),
        _ => false,
    }
}

/// The decisions of a chunk, in order.
pub open spec fn decisions(chunk: Seq<i64>, per_match: Map<i64, Vec<ReplayFile>>, pids: Map<i64, Seq<i64>>) -> Seq<Decision> {
    chunk.map_values(|m: i64| decide(m, per_match, pids))
}

/// Whether `(downloads, fallbacks, settled)` list the decisions of kind download,
/// fallback and settled (expired or no replay) respectively, each in chunk order.
pub open spec fn partitioned(
    ds: Seq<Decision>,
    downloads: Seq<Downloadable>,
    fallbacks: Seq<FallbackCandidate>,
    settled: Seq<Update>,
) -> bool
    decreases ds.len(),
{
    if ds.len() == 0 {
        downloads.len() == 0 && fallbacks.len() == 0 && settled.len() == 0
    } else {
        let x = ds.last();
        match x {
            Decision::Download { .. } => downloads.len() > 0 && is_download_of(downloads.last(), x)
                && partitioned(ds.drop_last(), downloads.drop_last(), fallbacks, settled),
            Decision::Fallback { .. } => fallbacks.len() > 0 && is_fallback_of(fallbacks.last(), x)
                && partitioned(ds.drop_last(), downloads, fallbacks.drop_last(), settled),
            _ => settled.len() > 0 && is_settled_of(settled.last(), x) && partitioned(
                ds.drop_last(),
                downloads,
                fallbacks,
                settled.drop_last(),
            ),
        }
    }
}

/// Resolves one lookup chunk: a match absent from the response goes to the archive
/// fallback when it lists participants, else is expired; a present one downloads its
/// best file, or has no replay when none is usable.
pub fn resolve_chunk(
    chunk: &[i64],
    per_match: &HashMap<i64, Vec<ReplayFile>>,
    pids: &HashMap<i64, Vec<i64>>,
) -> (r: (Vec<Downloadable>, Vec<FallbackCandidate>, Vec<Update>))
    ensures
        partitioned(
            decisions(chunk@, per_match@, pids@.map_values(|v: Vec<i64>| v@)),
            r.0@,
            r.1@,
            r.2@,
        ),
{
    let ghost pm = pids@.map_values(|v: Vec<i64>| v@);
    let mut downloads: Vec<Downloadable> = Vec::new();
    let mut fallbacks: Vec<FallbackCandidate> = Vec::new();
    let mut settled: Vec<Update> = Vec::new();
    let mut i: usize = 0;
    while i < chunk.len()
        invariant
            i <= chunk@.len(),
            pm == pids@.map_values(|v: Vec<i64>| v@),
            partitioned(decisions(chunk@.subrange(0, i as int), per_match@, pm), downloads@, fallbacks@, settled@),
        decreases chunk@.len() - i,
    {
        let ghost pre = chunk@.subrange(0, i as int);
        let ghost cur = chunk@.subrange(0, i + 1);
        assert(decisions(cur, per_match@, pm).drop_last() =~= decisions(pre, per_match@, pm));
        let m = chunk[i];
        let ghost x = decide(m, per_match@, pm);
        let ghost d0 = downloads@;
        let ghost f0 = fallbacks@;
        let ghost s0 = settled@;
        assert(decisions(cur, per_match@, pm).last() == x);
        match per_match.get(&m) {
            None => match pids.get(&m) {
                Some(ps) => {
                    let mut copy: Vec<i64> = Vec::new();
                    let mut k: usize = 0;
                    while k < ps.len()
                        invariant
                            k <= ps@.len(),
                            copy@ == ps@.subrange(0, k as int),
                        decreases ps@.len() - k,
                    {
                        copy.push(ps[k]);
                        k = k + 1;
                    }
                    assert(ps@.subrange(0, ps@.len() as int) == ps@);
                    assert(pm[m] == ps@);
                    fallbacks.push(FallbackCandidate { match_id: m, profile_ids: copy });
                    assert(x == Decision::Fallback { match_id: m, profile_ids: ps@ });
                    assert(is_fallback_of(fallbacks@.last(), x));
                },
                None => {
                    settled.push(Update::new(m, EXPIRED));
                    assert(is_settled_of(settled@.last(), x));
                },
            },
            Some(files) => {
                proof {
                    crate::replay::api::lemma_best_index_bound(files@);
                }
                match best_file(files.as_slice()) {
                    None => {
                        let mut u = Update::new(m, NO_REPLAY);
                        u.n_files = Some(files.len() as i64);
                        u.best_size = Some(-1);
                        settled.push(u);
                        assert(is_settled_of(settled@.last(), x));
                    },
                    Some(best) => {
                        let url = match &best.url {
                            Some(u) => u.clone(),
                            None => string_of(&Vec::new()),
                        };
                        let best_size: i64 = match best.size {
                            Some(s) => s,
                            None => -1,
                        };
                        downloads.push(
                            Downloadable {
                                match_id: m,
                                url,
                                n_files: files.len() as i64,
                                best_size,
                                best_pid: best.profile_id,
                            },
                        );
                        assert(is_download_of(downloads@.last(), x));
                    },
                }
            },
        }
        proof {
            match x {
                Decision::Download { .. } => {
                    assert(downloads@.drop_last() =~= d0);
                },
                Decision::Fallback { .. } => {
                    assert(fallbacks@.drop_last() =~= f0);
                },
                _ => {
                    assert(settled@.drop_last() =~= s0);
                },
            }
        }
        i = i + 1;
    }
    assert(chunk@.subrange(0, chunk@.len() as int) == chunk@);
    (downloads, fallbacks, settled)
}

// --- outcomes -------------------------------------------------------------------------------

/// The manifest's error column holds at most this many bytes.
pub const ERROR_MAX_BYTES: usize = 200;

/// The result of one download and parse (or archive attempt), ready to become an update.
#[derive(Debug, Clone)]
pub struct Outcome {
    pub match_id: i64,
    pub status: &'static str,
    pub error: Option<String>,
    pub events: Option<i64>,
    pub n_files: i64,
    pub best_size: i64,
    pub best_pid: Option<i64>,
}

impl Outcome {
    /// An outcome for a downloadable match, carrying its file metadata.
    pub fn for_match(d: &Downloadable, status: &'static str) -> (r: Self)
        ensures
            r.match_id == d.match_id,
            r.status == status,
            r.error is None,
            r.events is None,
            r.n_files == d.n_files,
            r.best_size == d.best_size,
            r.best_pid == d.best_pid,
    {
        Outcome {
            match_id: d.match_id,
            status,
            error: None,
            events: None,
            n_files: d.n_files,
            best_size: d.best_size,
            best_pid: d.best_pid,
        }
    }

    /// The outcome with `msg`, cut to the error column's size, as its error.
    pub fn with_error(self, msg: &str) -> (r: Self)
        ensures
            r.match_id == self.match_id && r.status == self.status && r.events == self.events && r.n_files
                == self.n_files && r.best_size == self.best_size && r.best_pid == self.best_pid,
            r.error matches Some(e) && truncated(e@, msg@, ERROR_MAX_BYTES as int),
    {
        let mut o = self;
        o.error = Some(truncate(msg, ERROR_MAX_BYTES));
        o
    }

    /// The outcome with `n` stored events.
    pub fn with_events(self, n: i64) -> (r: Self)
        ensures
            r.match_id == self.match_id && r.status == self.status && r.error == self.error && r.n_files
                == self.n_files && r.best_size == self.best_size && r.best_pid == self.best_pid,
            r.events == Some(n),
    {
        let mut o = self;
        o.events = Some(n);
        o
    }

    /// An outcome of the archive fallback, with no file metadata (no files, best size -1).
    pub fn archive(match_id: i64, status: &'static str, msg: &str) -> (r: Self)
        ensures
            r.match_id == match_id && r.status == status && r.events is None && r.n_files == 0 && r.best_size
                == -1 && r.best_pid is None,
            r.error matches Some(e) && truncated(e@, msg@, ERROR_MAX_BYTES as int),
    {
        Outcome {
            match_id,
            status,
            error: Some(truncate(msg, ERROR_MAX_BYTES)),
            events: None,
            n_files: 0,
            best_size: -1,
            best_pid: None,
        }
    }
}

/// Whether `u` is the update outcome `o` becomes.
pub open spec fn is_update_of(u: Update, o: Outcome) -> bool {
    &&& u.match_id == o.match_id
    &&& u.status@ == o.status@
    &&& u.attempts_inc
    &&& u.n_files == Some(o.n_files)
    &&& u.best_size == Some(o.best_size)
    &&& u.best_pid == o.best_pid
    &&& u.events == o.events
    &&& match (u.error, o.error) {
        (Some(a), Some(b)) => a@ == b@,
        (None, None) => true,
        _ => false,
    }
}

/// The update an outcome becomes: its status with one more attempt, its file metadata,
/// stored events and error.
pub fn outcome_update(o: &Outcome) -> (r: Update)
    ensures
        is_update_of(r, *o),
        r.match_id == o.match_id,
        r.status@ == o.status@,
        r.attempts_inc,
        r.n_files == Some(o.n_files),
        r.best_size == Some(o.best_size),
        r.best_pid == o.best_pid,
        r.events == o.events,
        match (r.error, o.error) {
            (Some(a), Some(b)) => a@ == b@,
            (None, None) => true,
            _ => false,
        },
{
    let mut u = Update::new(o.match_id, o.status);
    u.n_files = Some(o.n_files);
    u.best_size = Some(o.best_size);
    u.best_pid = o.best_pid;
    u.events = o.events;
    u.error = match &o.error {
        Some(e) => Some(e.clone()),
        None => None,
    };
    u
}

/// The retryable updates of a chunk whose lookup failed: each `error`, with the message.
pub fn lookup_failed(chunk: &[i64], msg: &str) -> (r: Vec<Update>)
    ensures
        r@.len() == chunk@.len(),
        forall|i: int|
            0 <= i < chunk@.len() ==> {
                let u = #[trigger] r@[i];
                &&& u.match_id == chunk@[i]
                &&& u.status@ == ERROR@
                &&& u.attempts_inc
                &&& u.n_files is None && u.best_size is None && u.best_pid is None && u.events is None
                &&& u.error matches Some(e) && truncated(e@, msg@, ERROR_MAX_BYTES as int)
            },
{
    let mut out: Vec<Update> = Vec::new();
    let mut i: usize = 0;
    while i < chunk.len()
        invariant
            i <= chunk@.len(),
            out@.len() == i,
            forall|j: int|
                0 <= j < i ==> {
                    let u = #[trigger] out@[j];
                    &&& u.match_id == chunk@[j]
                    &&& u.status@ == ERROR@
                    &&& u.attempts_inc
                    &&& u.n_files is None && u.best_size is None && u.best_pid is None && u.events is None
                    &&& u.error matches Some(e) && truncated(e@, msg@, ERROR_MAX_BYTES as int)
                },
        decreases chunk@.len() - i,
    {
        let mut u = Update::new(chunk[i], ERROR);
        u.error = Some(truncate(msg, ERROR_MAX_BYTES));
        out.push(u);
        i = i + 1;
    }
    out
}


// --- the archive fallback within a run ------------------------------------------------------

/// Why the fallback of a candidate is deferred this run: the archive throttled an earlier
/// candidate past its retries, or the run's archive request budget is spent.
pub open spec fn archive_deferral(blocked: bool, requests_made: usize, limit: usize) -> Option<Seq<char>> {
    if blocked {
        Some("archive: rate limited (deferred to next run)"@)
    } else if requests_made >= limit {
        Some("archive: request budget exhausted (deferred to next run)"@)
    } else {
        None
    }
}

/// Whether to try the archive for the next candidate (`None`) or defer it, and why.
pub fn archive_gate(blocked: bool, requests_made: usize, limit: usize) -> (r: Option<&'static str>)
    ensures
        match r {
            Some(m) => archive_deferral(blocked, requests_made, limit) == Some(m@),
            None => archive_deferral(blocked, requests_made, limit) is None,
        },
{
    if blocked {
        Some("archive: rate limited (deferred to next run)")
    } else if requests_made >= limit {
        Some("archive: request budget exhausted (deferred to next run)")
    } else {
        None
    }
}

/// How an archive lookup that brought no replay ended.
pub enum ArchiveMiss {
    /// Every tried participant answered 404.
    NotFound,
    /// The archive sent a body that is no usable ZIP; why.
    BadPayload(String),
    /// The archive kept throttling.
    RateLimited,
    /// A network or protocol failure; its message.
    Failed(String),
}

/// The status and message a missed archive lookup settles a match with, and whether the
/// archive is blocked for the rest of the run: a 404 everywhere expires the match, a bad
/// payload is a terminal parse failure, throttling defers the match and blocks the archive,
/// and a failure is a retryable error.
pub open spec fn miss_settlement(m: ArchiveMiss) -> (&'static str, Seq<char>, bool) {
    match m {
        ArchiveMiss::NotFound => (EXPIRED, "archive: 404 for all participants"@, false),
        ArchiveMiss::BadPayload(msg) => (PARSE_FAILED, msg@, false),
        ArchiveMiss::RateLimited => (ERROR, "archive: rate limited (deferred to next run)"@, true),
        ArchiveMiss::Failed(msg) => (ERROR, "archive: "@ + msg@, false),
    }
}

/// The outcome of a missed archive lookup for `match_id`, and whether the archive is now
/// blocked for the run.
pub fn archive_miss(match_id: i64, miss: &ArchiveMiss) -> (r: (Outcome, bool))
    ensures
        r.0.match_id == match_id && r.0.events is None && r.0.n_files == 0 && r.0.best_size == -1
            && r.0.best_pid is None,
        r.0.status == miss_settlement(*miss).0,
        r.0.error matches Some(e) && truncated(e@, miss_settlement(*miss).1, ERROR_MAX_BYTES as int),
        r.1 == miss_settlement(*miss).2,
{
    match miss {
        ArchiveMiss::NotFound => (Outcome::archive(match_id, EXPIRED, "archive: 404 for all participants"), false),
        ArchiveMiss::BadPayload(msg) => (Outcome::archive(match_id, PARSE_FAILED, msg.as_str()), false),
        ArchiveMiss::RateLimited => (
            Outcome::archive(match_id, ERROR, "archive: rate limited (deferred to next run)"),
            true,
        ),
        ArchiveMiss::Failed(msg) => {
            let mut m = chars_of("archive: ");
            push_all(&mut m, &chars_of(msg.as_str()));
            let text = string_of(&m);
            (Outcome::archive(match_id, ERROR, text.as_str()), false)
        },
    }
}


// --- a batch ------------------------------------------------------------------------------------

/// The match ids of download rows, fallback rows, updates and outcomes.
pub open spec fn download_ids(d: Seq<Downloadable>) -> Seq<i64> {
    d.map_values(|x: Downloadable| x.match_id)
}

pub open spec fn fallback_ids(f: Seq<FallbackCandidate>) -> Seq<i64> {
    f.map_values(|x: FallbackCandidate| x.match_id)
}

pub open spec fn update_ids(u: Seq<Update>) -> Seq<i64> {
    u.map_values(|x: Update| x.match_id)
}

pub open spec fn outcome_ids(o: Seq<Outcome>) -> Seq<i64> {
    o.map_values(|x: Outcome| x.match_id)
}

/// The match ids a partition lists, counted with their repeats.
pub open spec fn listed_ids(d: Seq<Downloadable>, f: Seq<FallbackCandidate>, s: Seq<Update>) -> vstd::multiset::Multiset<i64> {
    download_ids(d).to_multiset().add(fallback_ids(f).to_multiset()).add(update_ids(s).to_multiset())
}

/// A chunk's partition lists each of its match ids exactly as often as the chunk does.
pub proof fn lemma_partition_lists_chunk(
    chunk: Seq<i64>,
    per_match: Map<i64, Vec<ReplayFile>>,
    pids: Map<i64, Seq<i64>>,
    d: Seq<Downloadable>,
    f: Seq<FallbackCandidate>,
    s: Seq<Update>,
)
    requires
        partitioned(decisions(chunk, per_match, pids), d, f, s),
    ensures
        listed_ids(d, f, s) == chunk.to_multiset(),
    decreases chunk.len(),
{
    broadcast use vstd::seq_lib::group_to_multiset_ensures;

    let ds = decisions(chunk, per_match, pids);
    if chunk.len() == 0 {
        assert(d.len() == 0 && f.len() == 0 && s.len() == 0);
        assert(download_ids(d) =~= Seq::<i64>::empty());
        assert(fallback_ids(f) =~= Seq::<i64>::empty());
        assert(update_ids(s) =~= Seq::<i64>::empty());
        assert(listed_ids(d, f, s) =~= chunk.to_multiset());
    } else {
        let w = chunk.drop_last();
        let m = chunk.last();
        assert(ds.drop_last() =~= decisions(w, per_match, pids));
        assert(ds.last() == decide(m, per_match, pids));
        assert(chunk =~= w.push(m));
        match ds.last() {
            Decision::Download { .. } => {
                lemma_partition_lists_chunk(w, per_match, pids, d.drop_last(), f, s);
                assert(d =~= d.drop_last().push(d.last()));
                assert(download_ids(d) =~= download_ids(d.drop_last()).push(m));
            },
            Decision::Fallback { .. } => {
                lemma_partition_lists_chunk(w, per_match, pids, d, f.drop_last(), s);
                assert(fallback_ids(f) =~= fallback_ids(f.drop_last()).push(m));
            },
            _ => {
                lemma_partition_lists_chunk(w, per_match, pids, d, f, s.drop_last());
                assert(update_ids(s) =~= update_ids(s.drop_last()).push(m));
            },
        }
        assert(listed_ids(d, f, s) =~= chunk.to_multiset());
    }
}

/// What a batch has decided so far: the matches to download, those for the archive
/// fallback, and the updates of those already settled.
pub struct BatchPlan {
    pub downloads: Vec<Downloadable>,
    pub fallbacks: Vec<FallbackCandidate>,
    pub settled: Vec<Update>,
}

impl BatchPlan {
    /// The match ids the plan lists, counted with their repeats.
    pub open spec fn ids(&self) -> vstd::multiset::Multiset<i64> {
        listed_ids(self.downloads@, self.fallbacks@, self.settled@)
    }

    /// An empty plan.
    pub fn new() -> (r: Self)
        ensures
            r.downloads@.len() == 0 && r.fallbacks@.len() == 0 && r.settled@.len() == 0,
            r.ids() == vstd::multiset::Multiset::<i64>::empty(),
    {
        let r = BatchPlan { downloads: Vec::new(), fallbacks: Vec::new(), settled: Vec::new() };
        proof {
            broadcast use vstd::seq_lib::group_to_multiset_ensures, vstd::multiset::group_multiset_axioms;

            vstd::multiset::lemma_multiset_empty_len(Seq::<i64>::empty().to_multiset());
        }
        assert(download_ids(r.downloads@) =~= Seq::<i64>::empty());
        assert(fallback_ids(r.fallbacks@) =~= Seq::<i64>::empty());
        assert(update_ids(r.settled@) =~= Seq::<i64>::empty());
        assert(r.ids() =~= vstd::multiset::Multiset::<i64>::empty());
        r
    }

    /// Adds the decisions of a chunk whose lookup answered (see [`resolve_chunk`]): the plan
    /// then lists the chunk's ids too.
    pub fn add_lookup(
        &mut self,
        chunk: &[i64],
        per_match: &HashMap<i64, Vec<ReplayFile>>,
        pids: &HashMap<i64, Vec<i64>>,
    ) -> (r: (usize, usize, usize))
        ensures
            final(self).ids() == old(self).ids().add(chunk@.to_multiset()),
            ({
                let (nd, nf, ns) = r;
                &&& final(self).downloads@.subrange(0, old(self).downloads@.len() as int) == old(self).downloads@
                &&& final(self).fallbacks@.subrange(0, old(self).fallbacks@.len() as int) == old(self).fallbacks@
                &&& final(self).settled@.subrange(0, old(self).settled@.len() as int) == old(self).settled@
                &&& partitioned(
                    decisions(chunk@, per_match@, pids@.map_values(|v: Vec<i64>| v@)),
                    final(self).downloads@.skip(old(self).downloads@.len() as int),
                    final(self).fallbacks@.skip(old(self).fallbacks@.len() as int),
                    final(self).settled@.skip(old(self).settled@.len() as int),
                )
            }),
    {
        let (d, f, u) = resolve_chunk(chunk, per_match, pids);
        proof {
            lemma_partition_lists_chunk(chunk@, per_match@, pids@.map_values(|v: Vec<i64>| v@), d@, f@, u@);
        }
        let r = (d.len(), f.len(), u.len());
        let ghost (d0, f0, s0) = (self.downloads@, self.fallbacks@, self.settled@);
        let ghost (dn, fn_, sn) = (d@, f@, u@);
        append_downloads(&mut self.downloads, d);
        append_fallbacks(&mut self.fallbacks, f);
        append_updates(&mut self.settled, u);
        proof {
            broadcast use vstd::seq_lib::group_to_multiset_ensures, vstd::multiset::group_multiset_axioms;

            assert(self.downloads@.subrange(0, d0.len() as int) =~= d0);
            assert(self.fallbacks@.subrange(0, f0.len() as int) =~= f0);
            assert(self.settled@.subrange(0, s0.len() as int) =~= s0);
            assert(self.downloads@.skip(d0.len() as int) =~= dn);
            assert(self.fallbacks@.skip(f0.len() as int) =~= fn_);
            assert(self.settled@.skip(s0.len() as int) =~= sn);
            assert(download_ids(self.downloads@) =~= download_ids(d0) + download_ids(self.downloads@.skip(d0.len() as int)));
            assert(fallback_ids(self.fallbacks@) =~= fallback_ids(f0) + fallback_ids(self.fallbacks@.skip(f0.len() as int)));
            assert(update_ids(self.settled@) =~= update_ids(s0) + update_ids(self.settled@.skip(s0.len() as int)));
            vstd::seq_lib::lemma_multiset_commutative(download_ids(d0), download_ids(self.downloads@.skip(d0.len() as int)));
            vstd::seq_lib::lemma_multiset_commutative(fallback_ids(f0), fallback_ids(self.fallbacks@.skip(f0.len() as int)));
            vstd::seq_lib::lemma_multiset_commutative(update_ids(s0), update_ids(self.settled@.skip(s0.len() as int)));
            assert(self.ids() =~= listed_ids(d0, f0, s0).add(chunk@.to_multiset()));
        }
        r
    }

    /// Adds a chunk whose lookup failed: each id settles as a retryable error with `msg`
    /// (see [`lookup_failed`]); the plan then lists the chunk's ids too.
    pub fn add_failed(&mut self, chunk: &[i64], msg: &str)
        ensures
            final(self).ids() == old(self).ids().add(chunk@.to_multiset()),
            final(self).downloads@ == old(self).downloads@,
            final(self).fallbacks@ == old(self).fallbacks@,
            final(self).settled@.subrange(0, old(self).settled@.len() as int) == old(self).settled@,
            final(self).settled@.len() == old(self).settled@.len() + chunk@.len(),
            forall|i: int|
                0 <= i < chunk@.len() ==> {
                    let u = #[trigger] final(self).settled@[old(self).settled@.len() + i];
                    &&& u.match_id == chunk@[i]
                    &&& u.status@ == ERROR@
                    &&& u.attempts_inc
                    &&& u.n_files is None && u.best_size is None && u.best_pid is None && u.events is None
                    &&& u.error matches Some(e) && truncated(e@, msg@, ERROR_MAX_BYTES as int)
                },
    {
        broadcast use vstd::multiset::group_multiset_axioms;

        let u = lookup_failed(chunk, msg);
        let ghost s0 = self.settled@;
        let ghost uv = u@;
        assert(update_ids(uv) =~= chunk@);
        append_updates(&mut self.settled, u);
        proof {
            assert(self.settled@.skip(s0.len() as int) =~= uv);
            assert(update_ids(self.settled@) =~= update_ids(s0) + update_ids(uv));
            vstd::seq_lib::lemma_multiset_commutative(update_ids(s0), update_ids(uv));
            assert(self.settled@.subrange(0, s0.len() as int) =~= s0);
            assert(self.ids() =~= old(self).ids().add(chunk@.to_multiset()));
            assert forall|i: int| 0 <= i < chunk@.len() implies self.settled@[s0.len() + i] == uv[i] by {}
        }
    }

    /// The match ids of the work still to do, in order: the downloads, then the fallbacks.
    pub open spec fn work_ids(&self) -> Seq<i64> {
        download_ids(self.downloads@) + fallback_ids(self.fallbacks@)
    }
}

fn append_downloads(a: &mut Vec<Downloadable>, b: Vec<Downloadable>)
    ensures
        final(a)@ == old(a)@ + b@,
{
    let mut b = b;
    a.append(&mut b);
}

fn append_fallbacks(a: &mut Vec<FallbackCandidate>, b: Vec<FallbackCandidate>)
    ensures
        final(a)@ == old(a)@ + b@,
{
    let mut b = b;
    a.append(&mut b);
}

fn append_updates(a: &mut Vec<Update>, b: Vec<Update>)
    ensures
        final(a)@ == old(a)@ + b@,
{
    let mut b = b;
    a.append(&mut b);
}

/// The updates that close a batch: the settled ones, then one per outcome of the work, in
/// order; `None` when the outcomes do not answer the plan's work item for item (by match id).
/// Every match the plan lists then gets exactly one update.
pub fn settle_batch(plan: BatchPlan, outcomes: &[Outcome]) -> (r: Option<Vec<Update>>)
    ensures
        r is Some <==> outcome_ids(outcomes@) == plan.work_ids(),
        r matches Some(us) ==> {
            &&& us@.len() == plan.settled@.len() + outcomes@.len()
            &&& us@.subrange(0, plan.settled@.len() as int) == plan.settled@
            &&& forall|j: int| 0 <= j < outcomes@.len() ==> is_update_of(#[trigger] us@[plan.settled@.len() + j], outcomes@[j])
            &&& update_ids(us@).to_multiset() == plan.ids()
        },
{
    let ghost work = plan.work_ids();
    let nd = plan.downloads.len();
    let nf = plan.fallbacks.len();
    if outcomes.len() < nd || outcomes.len() - nd != nf {
        assert(outcome_ids(outcomes@).len() != work.len());
        return None;
    }
    let mut i: usize = 0;
    while i < outcomes.len()
        invariant
            i <= outcomes@.len(),
            outcomes@.len() == nd + nf,
            nd == plan.downloads@.len(),
            nf == plan.fallbacks@.len(),
            work == plan.work_ids(),
            forall|j: int| 0 <= j < i ==> outcome_ids(outcomes@)[j] == work[j],
        decreases outcomes@.len() - i,
    {
        let want = if i < nd { plan.downloads[i].match_id } else { plan.fallbacks[i - nd].match_id };
        assert(want == work[i as int]);
        if outcomes[i].match_id != want {
            assert(outcome_ids(outcomes@)[i as int] != work[i as int]);
            return None;
        }
        i = i + 1;
    }
    assert(outcome_ids(outcomes@) =~= work);
    let ghost ids = plan.ids();
    let ghost s0 = plan.settled@;
    let mut us = plan.settled;
    let mut k: usize = 0;
    while k < outcomes.len()
        invariant
            k <= outcomes@.len(),
            us@.len() == s0.len() + k,
            us@.subrange(0, s0.len() as int) == s0,
            forall|j: int| 0 <= j < k ==> is_update_of(#[trigger] us@[s0.len() + j], outcomes@[j]),
        decreases outcomes@.len() - k,
    {
        let u = outcome_update(&outcomes[k]);
        let ghost before = us@;
        us.push(u);
        assert(us@.subrange(0, s0.len() as int) =~= before.subrange(0, s0.len() as int));
        assert forall|j: int| 0 <= j < k + 1 implies is_update_of(#[trigger] us@[s0.len() + j], outcomes@[j]) by {
            if j < k {
                assert(us@[s0.len() + j] == before[s0.len() + j]);
            }
        }
        k = k + 1;
    }
    proof {
        broadcast use vstd::seq_lib::group_to_multiset_ensures, vstd::multiset::group_multiset_axioms;

        assert(update_ids(us@) =~= update_ids(s0) + outcome_ids(outcomes@)) by {
            assert forall|j: int| 0 <= j < us@.len() implies update_ids(us@)[j] == (update_ids(s0) + outcome_ids(outcomes@))[j] by {
                if j < s0.len() {
                    assert(us@.subrange(0, s0.len() as int)[j] == us@[j]);
                } else {
                    assert(is_update_of(us@[s0.len() + (j - s0.len())], outcomes@[j - s0.len()]));
                }
            }
        }
        vstd::seq_lib::lemma_multiset_commutative(update_ids(s0), outcome_ids(outcomes@));
        vstd::seq_lib::lemma_multiset_commutative(download_ids(plan.downloads@), fallback_ids(plan.fallbacks@));
        assert(update_ids(us@).to_multiset() =~= ids);
    }
    Some(us)
}

} // verus!
