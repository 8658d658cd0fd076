//! The replay API's data and what the pipeline computes from it: the request URLs, the
//! choice of the best uploaded file, the grouping of a lookup's files by match, the
//! unpacking of downloaded blobs (gzip, single-member ZIP), and the recent-match history
//! normalized from one profile's point of view.
use std::collections::HashMap;

use vstd::prelude::*;

use crate::replay::config::{API_BASE, TITLE};
use crate::replay::extract::opt_view;
use crate::text::{chars_of, decimal, i64_decimal, push_all, signed_decimal, str_eq, string_of};

verus! {

broadcast use vstd::std_specs::hash::group_hash_axioms;

// --- request URLs ----------------------------------------------------------------------

/// The match ids as decimals joined by `%2C` (an URL-encoded comma).
pub open spec fn joined_ids(ids: Seq<i64>) -> Seq<char>
    decreases ids.len(),
{
    if ids.len() == 0 {
        Seq::empty()
    } else if ids.len() == 1 {
        signed_decimal(ids[0] as int)
    } else {
        joined_ids(ids.drop_last()) + "%2C"@ + signed_decimal(ids.last() as int)
    }
}

/// The replay-file lookup URL for a batch of match ids.
pub open spec fn replay_files_url_spec(ids: Seq<i64>) -> Seq<char> {
    API_BASE@ + "/getReplayFiles?matchIDs=%5B"@ + joined_ids(ids) + "%5D&title="@ + TITLE@
}

/// The replay-file lookup URL: `{API}/getReplayFiles?matchIDs=%5B{ids joined by %2C}%5D&title={title}`.
pub fn replay_files_url(match_ids: &[i64]) -> (r: String)
    ensures
        r@ == replay_files_url_spec(match_ids@),
{
    let mut out = chars_of(API_BASE);
    push_all(&mut out, &chars_of("/getReplayFiles?matchIDs=%5B"));
    let ghost head = out@;
    let mut i: usize = 0;
    while i < match_ids.len()
        invariant
            i <= match_ids@.len(),
            out@ == head + joined_ids(match_ids@.subrange(0, i as int)),
        decreases match_ids@.len() - i,
    {
        let ghost s = match_ids@.subrange(0, i + 1);
        assert(s.drop_last() == match_ids@.subrange(0, i as int));
        if i > 0 {
            push_all(&mut out, &chars_of("%2C"));
        } else {
            assert(match_ids@.subrange(0, 0) == Seq::<i64>::empty());
        }
        push_all(&mut out, &i64_decimal(match_ids[i]));
        i = i + 1;
    }
    assert(match_ids@.subrange(0, match_ids@.len() as int) == match_ids@);
    push_all(&mut out, &chars_of("%5D&title="));
    push_all(&mut out, &chars_of(TITLE));
    string_of(&out)
}

/// The recent-match-history URL for one profile.
pub open spec fn recent_matches_url_spec(profile_id: i64) -> Seq<char> {
    API_BASE@ + "/getRecentMatchHistory?title="@ + TITLE@ + "&profile_ids=%5B"@ + signed_decimal(profile_id as int)
        + "%5D"@
}

/// The recent-match-history URL: `{API}/getRecentMatchHistory?title={title}&profile_ids=%5B{id}%5D`.
pub fn recent_matches_url(profile_id: i64) -> (r: String)
    ensures
        r@ == recent_matches_url_spec(profile_id),
{
    let mut out = chars_of(API_BASE);
    push_all(&mut out, &chars_of("/getRecentMatchHistory?title="));
    push_all(&mut out, &chars_of(TITLE));
    push_all(&mut out, &chars_of("&profile_ids=%5B"));
    push_all(&mut out, &i64_decimal(profile_id));
    push_all(&mut out, &chars_of("%5D"));
    string_of(&out)
}

// --- replay files ----------------------------------------------------------------------

/// One uploaded replay file of a match (one per player who stayed in).
#[derive(Debug, Clone)]
pub struct ReplayFile {
    pub profile_id: Option<i64>,
    pub matchhistory_id: Option<i64>,
    pub size: Option<i64>,
    pub url: Option<String>,
}

/// A file worth downloading: a positive size and an URL.
pub open spec fn usable(f: ReplayFile) -> bool {
    &&& match f.size {
        Some(s) => s > 0,
        None => false,
    }
    &&& f.url is Some
}

/// A file's size, `-1` when absent.
pub open spec fn size_or(f: ReplayFile) -> i64 {
    match f.size {
        Some(s) => s,
        None => -1i64,
    }
}

/// The position of the largest usable file, the last one among equally large ones; `-1`
/// when no file is usable.
pub open spec fn best_index(files: Seq<ReplayFile>) -> int
    decreases files.len(),
{
    if files.len() == 0 {
        -1
    } else {
        let prev = best_index(files.drop_last());
        let f = files.last();
        if usable(f) && (prev < 0 || size_or(f) >= size_or(files[prev])) {
            files.len() - 1
        } else {
            prev
        }
    }
}

pub(crate) proof fn lemma_best_index_bound(files: Seq<ReplayFile>)
    ensures
        -1 <= best_index(files) < files.len(),
        best_index(files) >= 0 ==> usable(files[best_index(files)]),
    decreases files.len(),
{
    if files.len() > 0 {
        lemma_best_index_bound(files.drop_last());
    }
}

/// The largest usable replay (the player who stayed longest has the most complete one):
/// the last of equally large ones; `None` when no file has a positive size and an URL.
pub fn best_file(files: &[ReplayFile]) -> (r: Option<&ReplayFile>)
    ensures
        match r {
            Some(f) => best_index(files@) >= 0 && *f == files@[best_index(files@)],
            None => best_index(files@) == -1,
        },
{
    let mut best: Option<usize> = None;
    let mut i: usize = 0;
    while i < files.len()
        invariant
            i <= files@.len(),
            match best {
                Some(b) => b < i && b == best_index(files@.subrange(0, i as int)),
                None => best_index(files@.subrange(0, i as int)) == -1,
            },
        decreases files@.len() - i,
    {
        let ghost s = files@.subrange(0, i + 1);
        assert(s.drop_last() == files@.subrange(0, i as int));
        let f = &files[i];
        let ok = match f.size {
            Some(sz) => sz > 0,
            None => false,
        } && f.url.is_some();
        let sz: i64 = match f.size {
            Some(x) => x,
            None => -1,
        };
        match best {
            Some(b) => {
                assert(s[b as int] == files@[b as int]);
                let bsz: i64 = match files[b].size {
                    Some(x) => x,
                    None => -1,
                };
                if ok && sz >= bsz {
                    best = Some(i);
                }
            },
            None => {
                if ok {
                    best = Some(i);
                }
            },
        }
        i = i + 1;
    }
    assert(files@.subrange(0, files@.len() as int) == files@);
    match best {
        Some(b) => Some(&files[b]),
        None => None,
    }
}

/// The files of match `mid`, in order.
pub open spec fn files_of(files: Seq<ReplayFile>, mid: i64) -> Seq<ReplayFile> {
    files.filter(|f: ReplayFile| f.matchhistory_id == Some(mid))
}

/// Groups a lookup's files by match id, each group in response order; files without a
/// match id are dropped.
pub fn group_by_match(files: Vec<ReplayFile>) -> (r: HashMap<i64, Vec<ReplayFile>>)
    ensures
        forall|mid: i64| #[trigger] r@.contains_key(mid) <==> files_of(files@, mid).len() > 0,
        forall|mid: i64| #[trigger] r@.contains_key(mid) ==> r@[mid]@ == files_of(files@, mid),
{
    let ghost all = files@;
    let n = files.len();
    let mut rest = files;
    let mut out: HashMap<i64, Vec<ReplayFile>> = HashMap::new();
    let mut i: usize = 0;
    while rest.len() > 0
        invariant
            i + rest@.len() == all.len(),
            all.len() == n,
            rest@ == all.subrange(i as int, all.len() as int),
            forall|mid: i64| #[trigger] out@.contains_key(mid) <==> files_of(all.subrange(0, i as int), mid).len() > 0,
            forall|mid: i64| #[trigger] out@.contains_key(mid) ==> out@[mid]@ == files_of(all.subrange(0, i as int), mid),
        decreases rest@.len(),
    {
        let ghost pre = all.subrange(0, i as int);
        let ghost cur = all.subrange(0, i + 1);
        assert(cur.drop_last() == pre);
        let f = rest.remove(0);
        assert(f == all[i as int]);
        assert(cur.last() == f);
        proof {
            assert forall|mid: i64| #[trigger] files_of(cur, mid) == (if f.matchhistory_id == Some(mid) {
                files_of(pre, mid).push(f)
            } else {
                files_of(pre, mid)
            }) by {
                assert(cur == pre.push(f));
                pre.lemma_filter_push(f, |g: ReplayFile| g.matchhistory_id == Some(mid));
            }
        }
        match f.matchhistory_id {
            Some(mid) => {
                let ghost old_out = out@;
                let mut group: Vec<ReplayFile> = match out.remove(&mid) {
                    Some(g) => g,
                    None => Vec::new(),
                };
                assert(group@ == files_of(pre, mid));
                group.push(f);
                out.insert(mid, group);
                assert forall|m: i64| #[trigger] out@.contains_key(m) <==> files_of(cur, m).len() > 0 by {
                    if m != mid {
                        assert(old_out.contains_key(m) == out@.contains_key(m));
                    }
                }
                assert forall|m: i64| #[trigger] out@.contains_key(m) implies out@[m]@ == files_of(cur, m) by {
                    if m != mid {
                        assert(old_out.contains_key(m));
                        assert(out@[m] == old_out[m]);
                    }
                }
            },
            None => {},
        }
        i = i + 1;
    }
    assert(all.subrange(0, all.len() as int) == all);
    out
}

// --- unpacking ----------------------------------------------------------------------------

/// The bytes a raw-deflate stream decompresses to, `None` for a corrupt or incomplete
/// stream (what `flate2`'s `DeflateDecoder` reads to its end).
pub uninterp spec fn inflated(data: Seq<u8>) -> Option<Seq<u8>>;

/// The bytes a gzip member decompresses to, `None` for a corrupt one (what `flate2`'s
/// `GzDecoder` reads to its end).
pub uninterp spec fn gunzipped(data: Seq<u8>) -> Option<Seq<u8>>;

/// Reads `flate2::read::DeflateDecoder` over `data` to its end. The contract claims that
/// the bytes depend on `data` alone (named `inflated`); the decoder's error text is not
/// stated.
#[verifier::external_body]
fn inflate(data: &[u8]) -> (r: Result<Vec<u8>, String>)
    ensures
        match r {
            Ok(v) => inflated(data@) == Some(v@),
            Err(_) => inflated(data@) is None,
        },
{
    let mut out = Vec::new();
    match std::io::Read::read_to_end(&mut flate2::read::DeflateDecoder::new(data), &mut out) {
        Ok(_) => Ok(out),
        Err(e) => Err(e.to_string()),
    }
}

/// Reads `flate2::read::GzDecoder` over `data` to its end. The contract claims that the
/// bytes depend on `data` alone (named `gunzipped`); the decoder's error text is not
/// stated.
#[verifier::external_body]
fn gunzip(data: &[u8]) -> (r: Result<Vec<u8>, String>)
    ensures
        match r {
            Ok(v) => gunzipped(data@) == Some(v@),
            Err(_) => gunzipped(data@) is None,
        },
{
    let mut out = Vec::new();
    match std::io::Read::read_to_end(&mut flate2::read::GzDecoder::new(data), &mut out) {
        Ok(_) => Ok(out),
        Err(e) => Err(e.to_string()),
    }
}

/// Gunzips a downloaded replay blob to the raw record bytes.
pub fn gunzip_replay(raw: &[u8]) -> (r: Result<Vec<u8>, String>)
    ensures
        match r {
            Ok(v) => gunzipped(raw@) == Some(v@),
            Err(_) => gunzipped(raw@) is None,
        },
{
    gunzip(raw)
}

/// Why a single-member ZIP could not be unpacked.
#[derive(Debug, Clone, PartialEq, Eq)]
pub enum UnzipError {
    /// No local-file header; the buffer's length.
    NotZip(usize),
    /// The header's name and extra fields run past the buffer.
    HeaderPastBuffer,
    /// A stored member whose size field is zero or runs past the buffer.
    BadStoredSize,
    /// A compression method other than stored (0) or deflate (8).
    UnsupportedMethod(usize),
    /// The deflate stream did not decompress; the decoder's message.
    Inflate(String),
}

/// The little-endian `u16` at `o`.
pub open spec fn u16_at(z: Seq<u8>, o: int) -> int {
    z[o] + z[o + 1] * 0x100
}

/// The little-endian `u32` at `o`.
pub open spec fn u32_at(z: Seq<u8>, o: int) -> int {
    z[o] + z[o + 1] * 0x100 + z[o + 2] * 0x1_0000 + z[o + 3] * 0x100_0000
}

/// Whether `z` starts with a ZIP local-file header (`PK\x03\x04`, at least 30 bytes).
pub open spec fn has_zip_header(z: Seq<u8>) -> bool {
    z.len() >= 30 && z[0] == 0x50 && z[1] == 0x4b && z[2] == 3 && z[3] == 4
}

/// Where the member's data starts: after the 30-byte header, the name and the extra field.
pub open spec fn data_offset(z: Seq<u8>) -> int {
    30 + u16_at(z, 26) + u16_at(z, 28)
}

/// What unpacking the first member of `z` gives, apart from the decoder's message: the
/// member's bytes, or the error without its message.
pub open spec fn unzip_spec(z: Seq<u8>) -> Result<Seq<u8>, UnzipError> {
    if !has_zip_header(z) {
        Err(UnzipError::NotZip(z.len() as usize))
    } else if data_offset(z) > z.len() {
        Err(UnzipError::HeaderPastBuffer)
    } else {
        let method = u16_at(z, 8);
        let size = u32_at(z, 18);
        let off = data_offset(z);
        if method == 8 {
            match inflated(z.subrange(off, z.len() as int)) {
                Some(v) => Ok(v),
                None => Err(UnzipError::Inflate(arbitrary())),
            }
        } else if method == 0 {
            if size == 0 || off + size > z.len() {
                Err(UnzipError::BadStoredSize)
            } else {
                Ok(z.subrange(off, off + size))
            }
        } else {
            Err(UnzipError::UnsupportedMethod(method as usize))
        }
    }
}

/// Unpacks the one member of a single-member ZIP: a deflate member is inflated from its
/// data offset (the stream's own end marker ends it, so a streaming header's zero size
/// is harmless); a stored member needs a real size; any other method fails.
pub fn unzip_single_member(zip: &[u8]) -> (r: Result<Vec<u8>, UnzipError>)
    ensures
        match (r, unzip_spec(zip@)) {
            (Ok(v), Ok(w)) => v@ == w,
            (Err(UnzipError::Inflate(_)), Err(UnzipError::Inflate(_))) => true,
            (Err(e), Err(f)) => e == f,
            _ => false,
        },
{
    if zip.len() < 30 || zip[0] != 0x50 || zip[1] != 0x4b || zip[2] != 3 || zip[3] != 4 {
        return Err(UnzipError::NotZip(zip.len()));
    }
    let method: usize = zip[8] as usize + (zip[9] as usize) * 0x100;
    let size: u64 = zip[18] as u64 + (zip[19] as u64) * 0x100 + (zip[20] as u64) * 0x1_0000
        + (zip[21] as u64) * 0x100_0000;
    let off: usize = 30 + (zip[26] as usize + (zip[27] as usize) * 0x100) + (zip[28] as usize
        + (zip[29] as usize) * 0x100);
    if off > zip.len() {
        return Err(UnzipError::HeaderPastBuffer);
    }
    if method == 8 {
        let tail = crate::replay::api::slice_from(zip, off);
        match inflate(&tail) {
            Ok(v) => Ok(v),
            Err(e) => Err(UnzipError::Inflate(e)),
        }
    } else if method == 0 {
        if size == 0 || off as u64 + size > zip.len() as u64 {
            return Err(UnzipError::BadStoredSize);
        }
        let end: usize = off + size as usize;
        Ok(slice_range(zip, off, end))
    } else {
        Err(UnzipError::UnsupportedMethod(method))
    }
}

fn slice_from(z: &[u8], from: usize) -> (r: Vec<u8>)
    requires
        from <= z@.len(),
    ensures
        r@ == z@.subrange(from as int, z@.len() as int),
{
    slice_range(z, from, z.len())
}

fn slice_range(z: &[u8], from: usize, to: usize) -> (r: Vec<u8>)
    requires
        from <= to <= z@.len(),
    ensures
        r@ == z@.subrange(from as int, to as int),
{
    let mut out: Vec<u8> = Vec::new();
    let mut i: usize = from;
    while i < to
        invariant
            from <= i <= to <= z@.len(),
            out@ == z@.subrange(from as int, i as int),
        decreases to - i,
    {
        out.push(z[i]);
        i = i + 1;
    }
    out
}

// --- recent matches ------------------------------------------------------------------------

/// One member of a match-history entry.
#[derive(Debug, Clone)]
pub struct MatchMember {
    pub profile_id: i64,
    pub civilization_id: Option<u32>,
    pub oldrating: Option<i32>,
    pub newrating: Option<i32>,
    pub outcome: Option<i32>,
}

/// One match-history entry.
#[derive(Debug, Clone)]
pub struct MatchStat {
    pub id: i64,
    pub completiontime: i64,
    pub description: String,
    pub matchhistorymember: Vec<MatchMember>,
}

/// One profile of a match-history response.
#[derive(Debug, Clone)]
pub struct ProfileEntry {
    pub profile_id: i64,
    pub alias: Option<String>,
}

/// A recent-match-history response.
#[derive(Debug, Clone)]
pub struct RecentHistory {
    pub match_history_stats: Vec<MatchStat>,
    pub profiles: Vec<ProfileEntry>,
}

/// One recent ranked game from the profile's point of view.
#[derive(Debug, Clone)]
pub struct RecentMatch {
    pub match_id: i64,
    pub completed_unix: i64,
    pub team_size: usize,
    pub my_civ_id: Option<u32>,
    pub my_rating: Option<i32>,
    pub my_won: Option<bool>,
    pub my_alias: Option<String>,
}

/// The view of a recent match.
pub type RecentView = (i64, i64, usize, Option<u32>, Option<i32>, Option<bool>, Option<Seq<char>>);

impl View for RecentMatch {
    type V = RecentView;

    open spec fn view(&self) -> RecentView {
        (
            self.match_id,
            self.completed_unix,
            self.team_size,
            self.my_civ_id,
            self.my_rating,
            self.my_won,
            match self.my_alias {
                Some(a) => Some(a@),
                None => None,
            },
        )
    }
}

/// The alias of the first profile entry with id `pid` (none when that entry has none).
pub open spec fn alias_of(ps: Seq<ProfileEntry>, pid: i64) -> Option<Seq<char>>
    decreases ps.len(),
{
    if ps.len() == 0 {
        None
    } else if ps[0].profile_id == pid {
        match ps[0].alias {
            Some(a) => Some(a@),
            None => None,
        }
    } else {
        alias_of(ps.drop_first(), pid)
    }
}

/// The first member with profile id `pid`.
pub open spec fn member_of(ms: Seq<MatchMember>, pid: i64) -> Option<MatchMember>
    decreases ms.len(),
{
    if ms.len() == 0 {
        None
    } else if ms[0].profile_id == pid {
        Some(ms[0])
    } else {
        member_of(ms.drop_first(), pid)
    }
}

/// A ranked (`AUTOMATCH`) and completed entry.
pub open spec fn ranked_done(m: MatchStat) -> bool {
    m.description@ == "AUTOMATCH"@ && m.completiontime > 0
}

/// One entry seen by `pid`: its rating the new one falling back to the old, a win when
/// the outcome is 1.
pub open spec fn recent_of(m: MatchStat, pid: i64, alias: Option<Seq<char>>) -> RecentView {
    let me = member_of(m.matchhistorymember@, pid);
    (
        m.id,
        m.completiontime,
        m.matchhistorymember@.len() as usize,
        match me {
            Some(x) => x.civilization_id,
            None => None,
        },
        match me {
            Some(x) => match x.newrating {
                Some(r) => Some(r),
                None => x.oldrating,
            },
            None => None,
        },
        match me {
            Some(x) => match x.outcome {
                Some(o) => Some(o == 1),
                None => None,
            },
            None => None,
        },
        alias,
    )
}

/// The ranked, completed entries seen by `pid`, in response order.
pub open spec fn ranked_of(stats: Seq<MatchStat>, pid: i64, alias: Option<Seq<char>>) -> Seq<RecentView>
    decreases stats.len(),
{
    if stats.len() == 0 {
        Seq::empty()
    } else {
        let prev = ranked_of(stats.drop_last(), pid, alias);
        if ranked_done(stats.last()) {
            prev.push(recent_of(stats.last(), pid, alias))
        } else {
            prev
        }
    }
}

/// `x` placed into `s` after every entry completed no earlier than it.
pub open spec fn insert_newest_first(s: Seq<RecentView>, x: RecentView) -> Seq<RecentView>
    decreases s.len(),
{
    if s.len() == 0 {
        seq![x]
    } else if x.1 > s[0].1 {
        seq![x] + s
    } else {
        seq![s[0]] + insert_newest_first(s.drop_first(), x)
    }
}

/// The entries sorted newest first, stably (ties keep response order).
pub open spec fn newest_first(s: Seq<RecentView>) -> Seq<RecentView>
    decreases s.len(),
{
    if s.len() == 0 {
        Seq::empty()
    } else {
        insert_newest_first(newest_first(s.drop_last()), s.last())
    }
}

/// The normalized recent matches of `pid`.
pub open spec fn recent_spec(doc: RecentHistory, pid: i64) -> Seq<RecentView> {
    newest_first(ranked_of(doc.match_history_stats@, pid, alias_of(doc.profiles@, pid)))
}

proof fn lemma_insert_at(s: Seq<RecentView>, x: RecentView, p: int)
    requires
        0 <= p <= s.len(),
        forall|j: int| 0 <= j < p ==> !(x.1 > (#[trigger] s[j]).1),
        p < s.len() ==> x.1 > s[p].1,
    ensures
        insert_newest_first(s, x) == s.insert(p, x),
    decreases s.len(),
{
    if s.len() == 0 {
        assert(s.insert(p, x) =~= seq![x]);
    } else if p == 0 {
        assert(s.insert(0, x) =~= seq![x] + s);
    } else {
        let t = s.drop_first();
        assert forall|j: int| 0 <= j < p - 1 implies !(x.1 > (#[trigger] t[j]).1) by {
            assert(t[j] == s[j + 1]);
        }
        if p - 1 < t.len() {
            assert(t[p - 1] == s[p]);
        }
        lemma_insert_at(t, x, p - 1);
        assert(seq![s[0]] + t.insert(p - 1, x) =~= s.insert(p, x));
    }
}

proof fn lemma_insert_sorted(s: Seq<RecentView>, x: RecentView)
    requires
        forall|i: int, j: int| 0 <= i < j < s.len() ==> (#[trigger] s[i]).1 >= (#[trigger] s[j]).1,
    ensures
        forall|i: int, j: int|
            0 <= i < j < insert_newest_first(s, x).len() ==> (#[trigger] insert_newest_first(s, x)[i]).1
                >= (#[trigger] insert_newest_first(s, x)[j]).1,
        insert_newest_first(s, x).len() == s.len() + 1,
    decreases s.len(),
{
    if s.len() > 0 && !(x.1 > s[0].1) {
        let t = s.drop_first();
        assert forall|i: int, j: int| 0 <= i < j < t.len() implies (#[trigger] t[i]).1 >= (#[trigger] t[j]).1 by {
            assert(t[i] == s[i + 1] && t[j] == s[j + 1]);
        }
        lemma_insert_sorted(t, x);
        let r = insert_newest_first(s, x);
        let rt = insert_newest_first(t, x);
        assert(r == seq![s[0]] + rt);
        assert forall|j: int| 0 <= j < rt.len() implies s[0].1 >= (#[trigger] rt[j]).1 by {
            lemma_insert_members(t, x, j);
        }
        assert forall|i: int, j: int| 0 <= i < j < r.len() implies (#[trigger] r[i]).1 >= (#[trigger] r[j]).1 by {
            if i == 0 {
                assert(r[j] == rt[j - 1]);
            } else {
                assert(r[i] == rt[i - 1] && r[j] == rt[j - 1]);
            }
        }
    } else if s.len() > 0 {
        let r = insert_newest_first(s, x);
        assert forall|i: int, j: int| 0 <= i < j < r.len() implies (#[trigger] r[i]).1 >= (#[trigger] r[j]).1 by {
            if i == 0 {
                assert(r[j] == s[j - 1]);
                assert(s[0].1 >= s[j - 1].1 || j - 1 == 0);
            } else {
                assert(r[i] == s[i - 1] && r[j] == s[j - 1]);
            }
        }
    }
}

proof fn lemma_insert_members(s: Seq<RecentView>, x: RecentView, j: int)
    requires
        0 <= j < insert_newest_first(s, x).len(),
    ensures
        insert_newest_first(s, x)[j] == x || exists|k: int| 0 <= k < s.len() && s[k] == insert_newest_first(s, x)[j],
        insert_newest_first(s, x).len() == s.len() + 1,
    decreases s.len(),
{
    if s.len() == 0 {
    } else if x.1 > s[0].1 {
        if j > 0 {
            assert(insert_newest_first(s, x)[j] == s[j - 1]);
        }
    } else {
        let t = s.drop_first();
        if j == 0 {
            lemma_insert_members(t, x, 0);
            assert(insert_newest_first(s, x)[0] == s[0]);
        } else {
            lemma_insert_members(t, x, j - 1);
            assert(insert_newest_first(s, x)[j] == insert_newest_first(t, x)[j - 1]);
            if insert_newest_first(t, x)[j - 1] != x {
                let k = choose|k: int| 0 <= k < t.len() && t[k] == insert_newest_first(t, x)[j - 1];
                assert(s[k + 1] == t[k]);
            }
        }
    }
}

/// The recent matches come out newest first: the normalized list is sorted by completion
/// time, descending.
pub proof fn lemma_recent_newest_first(s: Seq<RecentView>)
    ensures
        forall|i: int, j: int|
            0 <= i < j < newest_first(s).len() ==> (#[trigger] newest_first(s)[i]).1 >= (#[trigger] newest_first(s)[j]).1,
        newest_first(s).len() == s.len(),
    decreases s.len(),
{
    if s.len() > 0 {
        lemma_recent_newest_first(s.drop_last());
        lemma_insert_sorted(newest_first(s.drop_last()), s.last());
    }
}

fn alias_for(ps: &Vec<ProfileEntry>, pid: i64) -> (r: Option<String>)
    ensures
        match r {
            Some(a) => alias_of(ps@, pid) == Some(a@),
            None => alias_of(ps@, pid) is None,
        },
{
    let mut i: usize = 0;
    assert(ps@.subrange(0, ps@.len() as int) == ps@);
    while i < ps.len()
        invariant
            i <= ps@.len(),
            alias_of(ps@, pid) == alias_of(ps@.subrange(i as int, ps@.len() as int), pid),
        decreases ps@.len() - i,
    {
        let ghost t = ps@.subrange(i as int, ps@.len() as int);
        assert(t[0] == ps@[i as int]);
        assert(t.drop_first() == ps@.subrange(i + 1, ps@.len() as int));
        if ps[i].profile_id == pid {
            return match &ps[i].alias {
                Some(a) => Some(a.clone()),
                None => None,
            };
        }
        i = i + 1;
    }
    None
}

fn member_for(ms: &Vec<MatchMember>, pid: i64) -> (r: Option<MatchMember>)
    ensures
        r == member_of(ms@, pid),
{
    let mut i: usize = 0;
    assert(ms@.subrange(0, ms@.len() as int) == ms@);
    while i < ms.len()
        invariant
            i <= ms@.len(),
            member_of(ms@, pid) == member_of(ms@.subrange(i as int, ms@.len() as int), pid),
        decreases ms@.len() - i,
    {
        let ghost t = ms@.subrange(i as int, ms@.len() as int);
        assert(t[0] == ms@[i as int]);
        assert(t.drop_first() == ms@.subrange(i + 1, ms@.len() as int));
        if ms[i].profile_id == pid {
            let m = &ms[i];
            return Some(
                MatchMember {
                    profile_id: m.profile_id,
                    civilization_id: m.civilization_id,
                    oldrating: m.oldrating,
                    newrating: m.newrating,
                    outcome: m.outcome,
                },
            );
        }
        i = i + 1;
    }
    None
}

fn clone_alias(a: &Option<String>) -> (r: Option<String>)
    ensures
        match (r, *a) {
            (Some(x), Some(y)) => x@ == y@,
            (None, None) => true,
            _ => false,
        },
{
    match a {
        Some(s) => Some(s.clone()),
        None => None,
    }
}

/// The ranked (`AUTOMATCH`), completed matches of a history response, newest first (ties
/// in response order), each with the profile's own civ, rating (new, else old), result
/// (outcome 1 is a win) and alias joined by profile id.
pub fn normalize_recent(doc: &RecentHistory, profile_id: i64) -> (r: Vec<RecentMatch>)
    ensures
        r@.map_values(|m: RecentMatch| m@) == recent_spec(*doc, profile_id),
{
    let alias = alias_for(&doc.profiles, profile_id);
    let ghost av: Option<Seq<char>> = opt_view(alias);
    let stats = &doc.match_history_stats;
    let mut kept: Vec<RecentMatch> = Vec::new();
    let mut i: usize = 0;
    while i < stats.len()
        invariant
            i <= stats@.len(),
            av == alias_of(doc.profiles@, profile_id),
            av == opt_view(alias),
            kept@.map_values(|m: RecentMatch| m@) == ranked_of(stats@.subrange(0, i as int), profile_id, av),
        decreases stats@.len() - i,
    {
        assert(stats@.subrange(0, i + 1).drop_last() == stats@.subrange(0, i as int));
        let m = &stats[i];
        if str_eq(m.description.as_str(), "AUTOMATCH") && m.completiontime > 0 {
            let me = member_for(&m.matchhistorymember, profile_id);
            let my_civ_id = match &me {
                Some(x) => x.civilization_id,
                None => None,
            };
            let my_rating = match &me {
                Some(x) => match x.newrating {
                    Some(r) => Some(r),
                    None => x.oldrating,
                },
                None => None,
            };
            let my_won = match &me {
                Some(x) => match x.outcome {
                    Some(o) => Some(o == 1),
                    None => None,
                },
                None => None,
            };
            let rm = RecentMatch {
                match_id: m.id,
                completed_unix: m.completiontime,
                team_size: m.matchhistorymember.len(),
                my_civ_id,
                my_rating,
                my_won,
                my_alias: clone_alias(&alias),
            };
            assert(rm@ == recent_of(stats@[i as int], profile_id, av));
            kept.push(rm);
            assert(kept@.map_values(|m: RecentMatch| m@) =~= ranked_of(stats@.subrange(0, i as int), profile_id, av).push(rm@));
        }
        i = i + 1;
    }
    assert(stats@.subrange(0, stats@.len() as int) == stats@);
    // stable insertion sort, newest first
    let ghost src = kept@.map_values(|m: RecentMatch| m@);
    let mut out: Vec<RecentMatch> = Vec::new();
    let total = kept.len();
    let mut rest = kept;
    let mut k: usize = 0;
    assert(out@.map_values(|m: RecentMatch| m@) =~= newest_first(src.subrange(0, 0)));
    while rest.len() > 0
        invariant
            k + rest@.len() == src.len(),
            src.len() == total,
            rest@.map_values(|m: RecentMatch| m@) == src.subrange(k as int, src.len() as int),
            out@.map_values(|m: RecentMatch| m@) == newest_first(src.subrange(0, k as int)),
        decreases rest@.len(),
    {
        let ghost ov = out@.map_values(|m: RecentMatch| m@);
        let ghost old_rest = rest@;
        let x = rest.remove(0);
        assert(old_rest.map_values(|m: RecentMatch| m@)[0] == src.subrange(k as int, src.len() as int)[0]);
        assert(x@ == src[k as int]);
        assert forall|j: int| 0 <= j < rest@.len() implies #[trigger] rest@[j]@ == src.subrange(k + 1, src.len() as int)[j] by {
            assert(rest@[j] == old_rest[j + 1]);
            assert(old_rest.map_values(|m: RecentMatch| m@)[j + 1] == src.subrange(k as int, src.len() as int)[j + 1]);
        }
        assert(rest@.map_values(|m: RecentMatch| m@) =~= src.subrange(k + 1, src.len() as int));
        let mut p: usize = 0;
        while p < out.len() && !(x.completed_unix > out[p].completed_unix)
            invariant
                p <= out@.len(),
                ov == out@.map_values(|m: RecentMatch| m@),
                forall|j: int| 0 <= j < p ==> !(x@.1 > (#[trigger] ov[j]).1),
            decreases out@.len() - p,
        {
            assert(ov[p as int] == out@[p as int]@);
            p = p + 1;
        }
        proof {
            if p < out@.len() {
                assert(ov[p as int] == out@[p as int]@);
            }
            lemma_insert_at(ov, x@, p as int);
        }
        out.insert(p, x);
        assert(out@.map_values(|m: RecentMatch| m@) =~= ov.insert(p as int, x@));
        assert(src.subrange(0, k + 1).drop_last() == src.subrange(0, k as int));
        assert(src.subrange(0, k + 1).last() == x@);
        k = k + 1;
    }
    assert(src.subrange(0, src.len() as int) == src);
    out
}

} // verus!
