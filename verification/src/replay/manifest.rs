//! The job manifest's rows and statements: the rows seeded and handed out, the status
//! updates, the update statement each one becomes, and the printed status counts. The
//! database itself is driven by the caller.
use std::collections::HashMap;
use vstd::prelude::*;

use crate::replay::config::{EXPIRED, PENDING};
use crate::text::{chars_of, i64_decimal, push_all, signed_decimal, str_eq, string_of};

verus! {

broadcast use vstd::std_specs::hash::group_hash_axioms;

/// A row to seed. New ids start pending; an existing id is left alone, except that a
/// missing `profile_ids` is filled in (and an expired row flips back to pending).
#[derive(Debug, Clone)]
pub struct SeedRow {
    pub match_id: i64,
    pub ladder: Option<String>,
    pub played_at: Option<i64>,
    /// Semicolon-separated participant profile ids (the archive-fallback key).
    pub profile_ids: Option<String>,
}

/// A pending row handed to the pipeline.
#[derive(Debug, Clone)]
pub struct PendingRow {
    pub match_id: i64,
    pub ladder: Option<String>,
    pub played_at: Option<i64>,
    pub profile_ids: Option<String>,
}

/// A status update for one match; the optional columns are only touched when given.
#[derive(Debug, Clone)]
pub struct Update {
    pub match_id: i64,
    pub status: String,
    pub attempts_inc: bool,
    pub n_files: Option<i64>,
    pub best_size: Option<i64>,
    pub best_pid: Option<i64>,
    pub events: Option<i64>,
    pub error: Option<String>,
}

impl Default for Update {
    fn default() -> (r: Self)
        ensures
            r.match_id == 0,
            r.status@ == Seq::<char>::empty(),
            !r.attempts_inc,
            r.n_files is None,
            r.best_size is None,
            r.best_pid is None,
            r.events is None,
            r.error is None,
    {
        Update {
            match_id: 0,
            status: string_of(&Vec::new()),
            attempts_inc: false,
            n_files: None,
            best_size: None,
            best_pid: None,
            events: None,
            error: None,
        }
    }
}

impl Update {
    /// An update setting `status` and counting one more attempt; nothing else.
    pub fn new(match_id: i64, status: &str) -> (r: Self)
        ensures
            r.match_id == match_id,
            r.status@ == status@,
            r.attempts_inc,
            r.n_files is None,
            r.best_size is None,
            r.best_pid is None,
            r.events is None,
            r.error is None,
    {
        Update {
            match_id,
            status: string_of(&chars_of(status)),
            attempts_inc: true,
            n_files: None,
            best_size: None,
            best_pid: None,
            events: None,
            error: None,
        }
    }
}

/// A bound parameter of a statement.
#[derive(Debug, Clone, PartialEq, Eq)]
pub enum SqlValue {
    Int(i64),
    Text(String),
}

/// The view of a parameter.
pub open spec fn sql_view(v: SqlValue) -> Result<i64, Seq<char>> {
    match v {
        SqlValue::Int(i) => Ok(i),
        SqlValue::Text(s) => Err(s@),
    }
}

/// The assignment of an optional integer column, if given.
pub open spec fn opt_int(o: Option<i64>, clause: Seq<char>) -> Seq<(Seq<char>, Result<i64, Seq<char>>)> {
    match o {
        Some(v) => seq![(clause, Ok(v))],
        None => Seq::empty(),
    }
}

/// The assignment of an optional text column, if given.
pub open spec fn opt_text(o: Option<String>, clause: Seq<char>) -> Seq<(Seq<char>, Result<i64, Seq<char>>)> {
    match o {
        Some(v) => seq![(clause, Err(v@))],
        None => Seq::empty(),
    }
}

/// The optional `column = ?` assignments an update makes, with their values, in column
/// order: files, best size, best profile, events, error.
pub open spec fn optional_sets(u: Update) -> Seq<(Seq<char>, Result<i64, Seq<char>>)> {
    opt_int(u.n_files, "n_files = ?"@) + opt_int(u.best_size, "best_size = ?"@) + opt_int(
        u.best_pid,
        "best_pid = ?"@,
    ) + opt_int(u.events, "events = ?"@) + opt_text(u.error, "error = ?"@)
}

/// The clauses joined by `", "`.
pub open spec fn join_clauses(cs: Seq<Seq<char>>) -> Seq<char>
    decreases cs.len(),
{
    if cs.len() == 0 {
        Seq::empty()
    } else if cs.len() == 1 {
        cs[0]
    } else {
        join_clauses(cs.drop_last()) + ", "@ + cs.last()
    }
}

/// The SET clauses of an update: status, time, the given optional columns, and the
/// attempt count when it counts one.
pub open spec fn set_clauses(u: Update) -> Seq<Seq<char>> {
    seq!["status = ?"@, "updated_at = ?"@] + optional_sets(u).map_values(|p: (Seq<char>, Result<i64, Seq<char>>)| p.0)
        + if u.attempts_inc {
        seq!["attempts = attempts + 1"@]
    } else {
        Seq::empty()
    }
}

/// The statement of an update: `UPDATE matches SET {clauses} WHERE match_id = ?`.
pub open spec fn update_sql_spec(u: Update) -> Seq<char> {
    "UPDATE matches SET "@ + join_clauses(set_clauses(u)) + " WHERE match_id = ?"@
}

/// The parameters of an update's statement, in placeholder order: status, `now`, the
/// given optional columns, the match id.
pub open spec fn update_params_spec(u: Update, now: i64) -> Seq<Result<i64, Seq<char>>> {
    seq![Err(u.status@), Ok(now)] + optional_sets(u).map_values(|p: (Seq<char>, Result<i64, Seq<char>>)| p.1)
        + seq![Ok(u.match_id)]
}

fn opt_sets(u: &Update) -> (r: Vec<(&'static str, SqlValue)>)
    ensures
        r@.map_values(|p: (&'static str, SqlValue)| (p.0@, sql_view(p.1))) == optional_sets(*u),
{
    let mut r: Vec<(&'static str, SqlValue)> = Vec::new();
    if let Some(v) = u.n_files {
        r.push(("n_files = ?", SqlValue::Int(v)));
    }
    let ghost r1 = r@;
    if let Some(v) = u.best_size {
        r.push(("best_size = ?", SqlValue::Int(v)));
    }
    let ghost r2 = r@;
    if let Some(v) = u.best_pid {
        r.push(("best_pid = ?", SqlValue::Int(v)));
    }
    let ghost r3 = r@;
    if let Some(v) = u.events {
        r.push(("events = ?", SqlValue::Int(v)));
    }
    let ghost r4 = r@;
    if let Some(v) = &u.error {
        r.push(("error = ?", SqlValue::Text(v.clone())));
    }
    proof {
        let f = |p: (&'static str, SqlValue)| (p.0@, sql_view(p.1));
        let a = opt_int(u.n_files, "n_files = ?"@);
        let b = opt_int(u.best_size, "best_size = ?"@);
        let c = opt_int(u.best_pid, "best_pid = ?"@);
        let d = opt_int(u.events, "events = ?"@);
        let e = opt_text(u.error, "error = ?"@);
        assert(r1.map_values(f) =~= a);
        assert(r2.map_values(f) =~= a + b);
        assert(r3.map_values(f) =~= a + b + c);
        assert(r4.map_values(f) =~= a + b + c + d);
        assert(r@.map_values(f) =~= a + b + c + d + e);
    }
    r
}

/// The statement and parameters that apply one update at time `now` (only the supplied
/// columns are touched).
pub fn update_statement(u: &Update, now: i64) -> (r: (String, Vec<SqlValue>))
    ensures
        r.0@ == update_sql_spec(*u),
        r.1@.map_values(|v: SqlValue| sql_view(v)) == update_params_spec(*u, now),
{
    let opts = opt_sets(u);
    let ghost ov = opts@.map_values(|p: (&'static str, SqlValue)| (p.0@, sql_view(p.1)));
    let mut sql = chars_of("UPDATE matches SET ");
    let ghost head = sql@;
    push_all(&mut sql, &chars_of("status = ?"));
    push_all(&mut sql, &chars_of(", "));
    push_all(&mut sql, &chars_of("updated_at = ?"));
    let mut vals: Vec<SqlValue> = Vec::new();
    vals.push(SqlValue::Text(u.status.clone()));
    vals.push(SqlValue::Int(now));
    let ghost base: Seq<Seq<char>> = seq!["status = ?"@, "updated_at = ?"@];
    proof {
        assert(base.drop_last() =~= seq!["status = ?"@]);
        assert(join_clauses(seq!["status = ?"@]) == "status = ?"@);
        assert(join_clauses(base) == "status = ?"@ + ", "@ + "updated_at = ?"@);
    }
    assert(sql@ =~= head + join_clauses(base));
    let mut i: usize = 0;
    while i < opts.len()
        invariant
            i <= opts@.len(),
            base == seq!["status = ?"@, "updated_at = ?"@],
            ov == opts@.map_values(|p: (&'static str, SqlValue)| (p.0@, sql_view(p.1))),
            sql@ == head + join_clauses(base + ov.subrange(0, i as int).map_values(|p: (Seq<char>, Result<i64, Seq<char>>)| p.0)),
            vals@.map_values(|v: SqlValue| sql_view(v)) == seq![Err(u.status@), Ok(now)] + ov.subrange(0, i as int).map_values(|p: (Seq<char>, Result<i64, Seq<char>>)| p.1),
        decreases opts@.len() - i,
    {
        let ghost cs = base + ov.subrange(0, i as int).map_values(|p: (Seq<char>, Result<i64, Seq<char>>)| p.0);
        proof {
            assert(cs.len() >= 2);
            lemma_join_push(cs, ov[i as int].0);
            assert(base + ov.subrange(0, i + 1).map_values(|p: (Seq<char>, Result<i64, Seq<char>>)| p.0) =~= cs.push(ov[i as int].0));
        }
        push_all(&mut sql, &chars_of(", "));
        push_all(&mut sql, &chars_of(opts[i].0));
        let v = match &opts[i].1 {
            SqlValue::Int(x) => SqlValue::Int(*x),
            SqlValue::Text(t) => SqlValue::Text(t.clone()),
        };
        assert(ov[i as int] == (opts@[i as int].0@, sql_view(opts@[i as int].1)));
        assert(sql_view(v) == ov[i as int].1);
        let ghost old_vals = vals@;
        vals.push(v);
        assert(vals@.map_values(|v: SqlValue| sql_view(v)) =~= old_vals.map_values(|v: SqlValue| sql_view(v)).push(ov[i as int].1));
        assert(ov.subrange(0, i + 1).map_values(|p: (Seq<char>, Result<i64, Seq<char>>)| p.1) =~= ov.subrange(0, i as int).map_values(|p: (Seq<char>, Result<i64, Seq<char>>)| p.1).push(ov[i as int].1));
        assert(vals@.map_values(|v: SqlValue| sql_view(v)) =~= seq![Err(u.status@), Ok(now)] + ov.subrange(0, i + 1).map_values(|p: (Seq<char>, Result<i64, Seq<char>>)| p.1));
        i = i + 1;
    }
    assert(ov.subrange(0, ov.len() as int) == ov);
    let ghost cs = base + ov.map_values(|p: (Seq<char>, Result<i64, Seq<char>>)| p.0);
    if u.attempts_inc {
        proof {
            assert(cs.len() >= 2);
            lemma_join_push(cs, "attempts = attempts + 1"@);
        }
        push_all(&mut sql, &chars_of(", "));
        push_all(&mut sql, &chars_of("attempts = attempts + 1"));
        assert(set_clauses(*u) =~= cs.push("attempts = attempts + 1"@));
    } else {
        assert(set_clauses(*u) =~= cs);
    }
    vals.push(SqlValue::Int(u.match_id));
    push_all(&mut sql, &chars_of(" WHERE match_id = ?"));
    assert(vals@.map_values(|v: SqlValue| sql_view(v)) =~= update_params_spec(*u, now));
    (string_of(&sql), vals)
}

proof fn lemma_join_push(cs: Seq<Seq<char>>, c: Seq<char>)
    requires
        cs.len() >= 1,
    ensures
        join_clauses(cs.push(c)) == join_clauses(cs) + ", "@ + c,
{
    assert(cs.push(c).drop_last() == cs);
}

// --- printed counts -----------------------------------------------------------------------

/// `status: n` entries joined by `", "`.
pub open spec fn counts_body(counts: Seq<(Seq<char>, i64)>) -> Seq<char>
    decreases counts.len(),
{
    if counts.len() == 0 {
        Seq::empty()
    } else if counts.len() == 1 {
        counts[0].0 + ": "@ + signed_decimal(counts[0].1 as int)
    } else {
        counts_body(counts.drop_last()) + ", "@ + counts.last().0 + ": "@ + signed_decimal(counts.last().1 as int)
    }
}

/// Pretty status counts, e.g. `{parsed: 12, expired: 3}`.
pub fn fmt_counts(counts: &[(String, i64)]) -> (r: String)
    ensures
        r@ == seq!['{'] + counts_body(counts@.map_values(|c: (String, i64)| (c.0@, c.1))) + seq!['}'],
{
    let ghost cv = counts@.map_values(|c: (String, i64)| (c.0@, c.1));
    let mut out: Vec<char> = Vec::new();
    out.push('{');
    let mut i: usize = 0;
    while i < counts.len()
        invariant
            i <= counts@.len(),
            cv == counts@.map_values(|c: (String, i64)| (c.0@, c.1)),
            out@ == seq!['{'] + counts_body(cv.subrange(0, i as int)),
        decreases counts@.len() - i,
    {
        assert(cv.subrange(0, i + 1).drop_last() == cv.subrange(0, i as int));
        assert(cv.subrange(0, i + 1).last() == (counts@[i as int].0@, counts@[i as int].1));
        if i > 0 {
            push_all(&mut out, &chars_of(", "));
        } else {
            assert(cv.subrange(0, 0) == Seq::<(Seq<char>, i64)>::empty());
        }
        push_all(&mut out, &chars_of(counts[i].0.as_str()));
        push_all(&mut out, &chars_of(": "));
        push_all(&mut out, &i64_decimal(counts[i].1));
        i = i + 1;
    }
    assert(cv.subrange(0, cv.len() as int) == cv);
    out.push('}');
    string_of(&out)
}


// --- seeding ----------------------------------------------------------------------------

/// What the manifest holds of one match that seeding reads: its status and participant ids.
#[derive(Debug, Clone)]
pub struct StoredRow {
    pub status: String,
    pub profile_ids: Option<String>,
}

/// The view of a stored row: status and participant ids as character sequences.
pub open spec fn stored_view(r: StoredRow) -> (Seq<char>, Option<Seq<char>>) {
    (r.status@, opt_chars(r.profile_ids))
}

/// An optional string as an optional character sequence.
pub open spec fn opt_chars(o: Option<String>) -> Option<Seq<char>> {
    match o {
        Some(s) => Some(s@),
        None => None,
    }
}

/// What seeding does to one match.
#[derive(Debug, Clone, PartialEq, Eq)]
pub enum SeedEffect {
    /// A new id: insert it, pending, with the seed's data.
    Insert,
    /// An id without participant ids that the seed carries: fill them in and set the status.
    Enrich { profile_ids: String, status: String },
    /// Leave the row as it is.
    Keep,
}

/// The row (status, participant ids) a match has after one seed row, from the row it had.
pub open spec fn seeded(
    existing: Option<(Seq<char>, Option<Seq<char>>)>,
    pids: Option<Seq<char>>,
) -> (Seq<char>, Option<Seq<char>>) {
    match existing {
        None => (PENDING@, pids),
        Some((status, have)) => if have is None && pids is Some {
            (if status == EXPIRED@ { PENDING@ } else { status }, pids)
        } else {
            (status, have)
        },
    }
}

/// Decides what seeding `seed` does to the match's stored row (`None` when the id is new):
/// a new id is inserted pending; an existing row without participant ids gets the seed's
/// (and an expired one flips back to pending); every other row is kept.
pub fn seed_effect(existing: &Option<StoredRow>, seed: &SeedRow) -> (r: SeedEffect)
    ensures
        match existing {
            None => r == SeedEffect::Insert,
            Some(row) => match r {
                SeedEffect::Enrich { profile_ids, status } => row.profile_ids is None && seed.profile_ids is Some
                    && seeded(Some(stored_view(*row)), opt_chars(seed.profile_ids)) == (
                    status@,
                    Some(profile_ids@),
                ),
                SeedEffect::Keep => seeded(Some(stored_view(*row)), opt_chars(seed.profile_ids)) == stored_view(*row),
                SeedEffect::Insert => false,
            },
        },
{
    match existing {
        None => SeedEffect::Insert,
        Some(row) => match (&row.profile_ids, &seed.profile_ids) {
            (None, Some(p)) => {
                let status = if str_eq(row.status.as_str(), EXPIRED) {
                    string_of(&chars_of(PENDING))
                } else {
                    string_of(&chars_of(row.status.as_str()))
                };
                SeedEffect::Enrich { profile_ids: string_of(&chars_of(p.as_str())), status }
            },
            _ => SeedEffect::Keep,
        },
    }
}

/// Seeding is self-limiting: a row that has participant ids is never changed by a seed, so
/// once enriched (and, say, expired again after the archive failed too) no later seed flips
/// it back; and seeding the same row twice is seeding it once.
pub proof fn lemma_seed_self_limiting(
    existing: Option<(Seq<char>, Option<Seq<char>>)>,
    pids: Option<Seq<char>>,
    status: Seq<char>,
    have: Seq<char>,
)
    ensures
        seeded(Some((status, Some(have))), pids) == (status, Some(have)),
        seeded(Some(seeded(existing, pids)), pids) == seeded(existing, pids),
{
}

/// Seeding changes a stored status only from expired to pending.
pub proof fn lemma_seed_status_flip(existing: (Seq<char>, Option<Seq<char>>), pids: Option<Seq<char>>)
    ensures
        seeded(Some(existing), pids).0 == existing.0 || (existing.0 == EXPIRED@ && seeded(
            Some(existing),
            pids,
        ).0 == PENDING@),
{
}


// --- seeding a batch ------------------------------------------------------------------------

/// A stored row by its view: status and participant ids.
pub type RowView = (Seq<char>, Option<Seq<char>>);

/// The manifest's rows by match id, by their views.
pub open spec fn rows_view(m: Map<i64, StoredRow>) -> Map<i64, RowView> {
    m.map_values(|r: StoredRow| stored_view(r))
}

/// The row `m` holds for `id`, if any.
pub open spec fn row_of(m: Map<i64, RowView>, id: i64) -> Option<RowView> {
    if m.contains_key(id) {
        Some(m[id])
    } else {
        None
    }
}

/// The manifest's rows after seeding `rows` in order, each against the rows as the earlier
/// seeds left them.
pub open spec fn seeded_all(m: Map<i64, RowView>, rows: Seq<SeedRow>) -> Map<i64, RowView>
    decreases rows.len(),
{
    if rows.len() == 0 {
        m
    } else {
        let prev = seeded_all(m, rows.drop_last());
        let r = rows.last();
        prev.insert(r.match_id, seeded(row_of(prev, r.match_id), opt_chars(r.profile_ids)))
    }
}

/// How many of `rows` insert a new id (an id the manifest does not hold when its seed comes).
pub open spec fn inserted_count(m: Map<i64, RowView>, rows: Seq<SeedRow>) -> nat
    decreases rows.len(),
{
    if rows.len() == 0 {
        0
    } else {
        inserted_count(m, rows.drop_last()) + if seeded_all(m, rows.drop_last()).contains_key(
            rows.last().match_id,
        ) {
            0nat
        } else {
            1nat
        }
    }
}

/// Whether `e` is what seeding a row with participant ids `pids` does to the stored row
/// `existing` (`None` for a new id).
pub open spec fn effect_ok(e: SeedEffect, existing: Option<RowView>, pids: Option<Seq<char>>) -> bool {
    match existing {
        None => e == SeedEffect::Insert,
        Some(row) => match e {
            SeedEffect::Enrich { profile_ids, status } => row.1 is None && pids is Some && seeded(
                Some(row),
                pids,
            ) == (status@, Some(profile_ids@)),
            SeedEffect::Keep => seeded(Some(row), pids) == row,
            SeedEffect::Insert => false,
        },
    }
}

/// The view of an optional stored row.
pub open spec fn opt_row_view(o: Option<StoredRow>) -> Option<RowView> {
    match o {
        Some(x) => Some(stored_view(x)),
        None => None,
    }
}

fn copy_opt(o: &Option<String>) -> (r: Option<String>)
    ensures
        opt_chars(r) == opt_chars(*o),
{
    match o {
        Some(s) => Some(string_of(&chars_of(s.as_str()))),
        None => None,
    }
}

/// Seeds `rows` in order into `stored` (the manifest's rows for the batch's ids, by match
/// id): returns each row's effect, decided against the rows as the earlier seeds left them,
/// and how many rows were inserted; `stored` ends as the manifest does.
pub fn seed_batch(stored: &mut HashMap<i64, StoredRow>, rows: &[SeedRow]) -> (r: (Vec<SeedEffect>, usize))
    ensures
        rows_view(final(stored)@) == seeded_all(rows_view(old(stored)@), rows@),
        r.1 == inserted_count(rows_view(old(stored)@), rows@),
        r.0@.len() == rows@.len(),
        forall|i: int|
            0 <= i < rows@.len() ==> effect_ok(
                #[trigger] r.0@[i],
                row_of(seeded_all(rows_view(old(stored)@), rows@.take(i)), rows@[i].match_id),
                opt_chars(rows@[i].profile_ids),
            ),
{
    let ghost m0 = rows_view(stored@);
    let mut effects: Vec<SeedEffect> = Vec::new();
    let mut inserted: usize = 0;
    let mut i: usize = 0;
    assert(rows@.take(0) =~= Seq::<SeedRow>::empty());
    while i < rows.len()
        invariant
            i <= rows@.len(),
            rows_view(stored@) == seeded_all(m0, rows@.take(i as int)),
            inserted == inserted_count(m0, rows@.take(i as int)),
            inserted <= i,
            effects@.len() == i,
            forall|j: int|
                0 <= j < i ==> effect_ok(
                    #[trigger] effects@[j],
                    row_of(seeded_all(m0, rows@.take(j)), rows@[j].match_id),
                    opt_chars(rows@[j].profile_ids),
                ),
        decreases rows@.len() - i,
    {
        let r = &rows[i];
        let ghost before = rows_view(stored@);
        assert(rows@.take(i + 1).drop_last() == rows@.take(i as int));
        assert(rows@.take(i + 1).last() == rows@[i as int]);
        let existing: Option<StoredRow> = match stored.get(&r.match_id) {
            Some(row) => Some(StoredRow { status: string_of(&chars_of(row.status.as_str())), profile_ids: copy_opt(&row.profile_ids) }),
            None => None,
        };
        let ghost ex = opt_row_view(existing);
        assert(ex == row_of(before, r.match_id));
        let e = seed_effect(&existing, r);
        assert(effect_ok(e, ex, opt_chars(r.profile_ids)));
        match &e {
            SeedEffect::Insert => {
                stored.insert(r.match_id, StoredRow { status: string_of(&chars_of(PENDING)), profile_ids: copy_opt(&r.profile_ids) });
                inserted = inserted + 1;
            },
            SeedEffect::Enrich { profile_ids, status } => {
                stored.insert(
                    r.match_id,
                    StoredRow { status: string_of(&chars_of(status.as_str())), profile_ids: Some(string_of(&chars_of(profile_ids.as_str()))) },
                );
            },
            SeedEffect::Keep => {},
        }
        assert(rows_view(stored@) =~= seeded_all(m0, rows@.take(i + 1)));
        effects.push(e);
        assert forall|j: int| 0 <= j < i + 1 implies effect_ok(
            #[trigger] effects@[j],
            row_of(seeded_all(m0, rows@.take(j)), rows@[j].match_id),
            opt_chars(rows@[j].profile_ids),
        ) by {
            if j == i {
                assert(effects@[j] == e);
            }
        }
        i = i + 1;
    }
    assert(rows@.take(rows@.len() as int) == rows@);
    (effects, inserted)
}

/// Once a row holds participant ids, no batch of seeds changes it.
pub proof fn lemma_seed_batch_keeps_enriched(m: Map<i64, RowView>, rows: Seq<SeedRow>, id: i64)
    requires
        m.contains_key(id),
        m[id].1 is Some,
    ensures
        seeded_all(m, rows).contains_key(id),
        seeded_all(m, rows)[id] == m[id],
    decreases rows.len(),
{
    if rows.len() > 0 {
        lemma_seed_batch_keeps_enriched(m, rows.drop_last(), id);
    }
}

/// Across a batch, a stored row either stays as it was, or it had no participant ids and
/// gains them, its status unchanged or flipped from expired to pending; a new id ends pending
/// or stays absent. With [`lemma_seed_batch_keeps_enriched`]: an expired row flips back to
/// pending at most once, however many batches come.
pub proof fn lemma_seed_batch_rows(m: Map<i64, RowView>, rows: Seq<SeedRow>, id: i64)
    ensures
        m.contains_key(id) ==> seeded_all(m, rows).contains_key(id) && {
            let a = m[id];
            let b = seeded_all(m, rows)[id];
            b == a || (a.1 is None && b.1 is Some && (b.0 == a.0 || (a.0 == EXPIRED@ && b.0 == PENDING@)))
        },
        !m.contains_key(id) && seeded_all(m, rows).contains_key(id) ==> seeded_all(m, rows)[id].0 == PENDING@,
        inserted_count(m, rows) <= rows.len(),
    decreases rows.len(),
{
    if rows.len() > 0 {
        lemma_seed_batch_rows(m, rows.drop_last(), id);
    }
}

} // verus!
