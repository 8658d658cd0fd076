//! The seed list's text formats: a newline list of match ids, or a CSV whose header names
//! the match-id, ladder and played-at columns. Lines without an integer match id are
//! skipped (so a header row is tolerated).
use vstd::prelude::*;

use crate::replay::manifest::SeedRow;
use crate::text::{
    chars_eq, chars_of, lines, lines_of, lowercase_of, parse_i64, parse_i64_spec, split_by, split_chars,
    str_to_lowercase, string_of, trim, trim_chars, views,
};

verus! {

/// The view of a seed row.
pub type SeedView = (i64, Option<Seq<char>>, Option<i64>, Option<Seq<char>>);

impl View for SeedRow {
    type V = SeedView;

    open spec fn view(&self) -> SeedView {
        (
            self.match_id,
            match self.ladder {
                Some(s) => Some(s@),
                None => None,
            },
            self.played_at,
            match self.profile_ids {
                Some(s) => Some(s@),
                None => None,
            },
        )
    }
}

/// The rows of a newline list: one per line holding an integer match id (trimmed).
pub open spec fn list_rows(ls: Seq<Seq<char>>) -> Seq<SeedView>
    decreases ls.len(),
{
    if ls.len() == 0 {
        Seq::empty()
    } else {
        let prev = list_rows(ls.drop_last());
        match parse_i64_spec(trim(ls.last())) {
            Some(id) => prev.push((id, None, None, None)),
            None => prev,
        }
    }
}

/// A CSV header's column names: trimmed, lowercased.
pub open spec fn header_cols(header: Seq<char>) -> Seq<Seq<char>> {
    split_by(header, ","@).map_values(|c: Seq<char>| lowercase_of(trim(c)))
}

/// The first column whose name is one of `names`.
pub open spec fn col_index(cols: Seq<Seq<char>>, names: Seq<Seq<char>>) -> Option<int>
    decreases cols.len(),
{
    if cols.len() == 0 {
        None
    } else {
        match col_index(cols.drop_last(), names) {
            Some(i) => Some(i),
            None => if names.contains(cols.last()) {
                Some(cols.len() - 1)
            } else {
                None
            },
        }
    }
}

/// The field at an optional column.
pub open spec fn field_at(fields: Seq<Seq<char>>, idx: Option<int>) -> Option<Seq<char>> {
    match idx {
        Some(i) => if 0 <= i < fields.len() {
            Some(fields[i])
        } else {
            None
        },
        None => None,
    }
}

/// A CSV data line's trimmed fields.
pub open spec fn csv_fields(l: Seq<char>) -> Seq<Seq<char>> {
    split_by(l, ","@).map_values(|f: Seq<char>| trim(f))
}

/// The row of one CSV data line: none for a blank line or one without an integer match id;
/// the ladder when non-empty; the played-at time when it is an integer.
pub open spec fn csv_row(l: Seq<char>, id_idx: int, ladder_idx: Option<int>, played_idx: Option<int>) -> Option<SeedView> {
    let fields = csv_fields(l);
    if trim(l).len() == 0 {
        None
    } else {
        match field_at(fields, Some(id_idx)) {
            None => None,
            Some(f) => match parse_i64_spec(f) {
                None => None,
                Some(id) => Some(
                    (
                        id,
                        match field_at(fields, ladder_idx) {
                            Some(s) => if s.len() > 0 {
                                Some(s)
                            } else {
                                None
                            },
                            None => None,
                        },
                        match field_at(fields, played_idx) {
                            Some(s) => parse_i64_spec(s),
                            None => None,
                        },
                        None,
                    ),
                ),
            },
        }
    }
}

/// The rows of the CSV data lines, in order.
pub open spec fn csv_rows(ls: Seq<Seq<char>>, id_idx: int, ladder_idx: Option<int>, played_idx: Option<int>) -> Seq<SeedView>
    decreases ls.len(),
{
    if ls.len() == 0 {
        Seq::empty()
    } else {
        let prev = csv_rows(ls.drop_last(), id_idx, ladder_idx, played_idx);
        match csv_row(ls.last(), id_idx, ladder_idx, played_idx) {
            Some(r) => prev.push(r),
            None => prev,
        }
    }
}

/// The match-id column's names.
pub open spec fn id_names() -> Seq<Seq<char>> {
    seq!["match_id"@, "matchid"@, "id"@]
}

/// The ladder column's names.
pub open spec fn ladder_names() -> Seq<Seq<char>> {
    seq!["ladder"@]
}

/// The played-at column's names.
pub open spec fn played_names() -> Seq<Seq<char>> {
    seq!["played_at"@, "playedat"@, "ts"@]
}

/// A minimal CSV: the header row maps column names (the match id defaulting to column 0).
pub open spec fn csv_spec(text: Seq<char>) -> Seq<SeedView> {
    let ls = lines(text);
    let header = if ls.len() > 0 {
        ls[0]
    } else {
        Seq::empty()
    };
    let cols = header_cols(header);
    let id_idx = match col_index(cols, id_names()) {
        Some(i) => i,
        None => 0,
    };
    csv_rows(
        if ls.len() > 0 {
            ls.drop_first()
        } else {
            ls
        },
        id_idx,
        col_index(cols, ladder_names()),
        col_index(cols, played_names()),
    )
}

/// The rows of a seed file's text: a CSV when its first line has a comma, else a newline
/// list.
pub open spec fn seed_spec(text: Seq<char>) -> Seq<SeedView> {
    if lines(text).len() > 0 && lines(text)[0].contains(',') {
        csv_spec(text)
    } else {
        list_rows(lines(text))
    }
}

proof fn lemma_col_index_absent(cols: Seq<Seq<char>>, names: Seq<Seq<char>>)
    requires
        forall|k: int| 0 <= k < cols.len() ==> !names.contains(#[trigger] cols[k]),
    ensures
        col_index(cols, names) is None,
    decreases cols.len(),
{
    if cols.len() > 0 {
        assert forall|k: int| 0 <= k < cols.drop_last().len() implies !names.contains(
            #[trigger] cols.drop_last()[k],
        ) by {
            assert(cols.drop_last()[k] == cols[k]);
        }
        lemma_col_index_absent(cols.drop_last(), names);
        assert(cols.last() == cols[cols.len() - 1]);
    }
}

/// The column `col_index` finds is the first one whose name is among `names`.
proof fn lemma_col_index_first(cols: Seq<Seq<char>>, names: Seq<Seq<char>>, j: int)
    requires
        0 <= j < cols.len(),
        names.contains(cols[j]),
        forall|k: int| 0 <= k < j ==> !names.contains(#[trigger] cols[k]),
    ensures
        col_index(cols, names) == Some(j),
    decreases cols.len(),
{
    let pre = cols.drop_last();
    if j == cols.len() - 1 {
        assert forall|k: int| 0 <= k < pre.len() implies !names.contains(#[trigger] pre[k]) by {
            assert(pre[k] == cols[k]);
        }
        lemma_col_index_absent(pre, names);
    } else {
        assert(pre[j] == cols[j]);
        assert forall|k: int| 0 <= k < j implies !names.contains(#[trigger] pre[k]) by {
            assert(pre[k] == cols[k]);
        }
        lemma_col_index_first(pre, names, j);
    }
}

/// Every row of `csv_rows` comes from a non-blank data line whose field at `id_idx` parses
/// to the row's match id and whose field at `played_idx` (when there is one) gives the
/// row's played-at time.
proof fn lemma_csv_rows_origin(ls: Seq<Seq<char>>, id_idx: int, ladder_idx: Option<int>, played_idx: Option<int>)
    ensures
        forall|i: int|
            0 <= i < csv_rows(ls, id_idx, ladder_idx, played_idx).len() ==> exists|m: int|
                0 <= m < ls.len() && row_from_line(
                    #[trigger] csv_rows(ls, id_idx, ladder_idx, played_idx)[i],
                    ls[m],
                    id_idx,
                    played_idx,
                ),
    decreases ls.len(),
{
    if ls.len() > 0 {
        let pre = ls.drop_last();
        lemma_csv_rows_origin(pre, id_idx, ladder_idx, played_idx);
        let rows = csv_rows(ls, id_idx, ladder_idx, played_idx);
        let prev = csv_rows(pre, id_idx, ladder_idx, played_idx);
        assert forall|i: int| 0 <= i < rows.len() implies exists|m: int|
            0 <= m < ls.len() && row_from_line(#[trigger] rows[i], ls[m], id_idx, played_idx) by {
            if i < prev.len() {
                assert(rows[i] == prev[i]);
                let m = choose|m: int| 0 <= m < pre.len() && row_from_line(prev[i], pre[m], id_idx, played_idx);
                assert(pre[m] == ls[m]);
            } else {
                assert(ls[ls.len() - 1] == ls.last());
                assert(row_from_line(rows[i], ls[ls.len() - 1], id_idx, played_idx));
            }
        }
    }
}

/// Row `r` is what the data line `l` gives: `l` is not blank, its field at `id_idx` parses
/// to `r`'s match id, and `r`'s played-at time is its field at `played_idx` parsed as an
/// integer (none without such a field).
pub open spec fn row_from_line(r: SeedView, l: Seq<char>, id_idx: int, played_idx: Option<int>) -> bool {
    let fields = csv_fields(l);
    &&& trim(l).len() > 0
    &&& 0 <= id_idx < fields.len()
    &&& parse_i64_spec(fields[id_idx]) == Some(r.0)
    &&& r.2 == match played_idx {
        Some(p) => if 0 <= p < fields.len() {
            parse_i64_spec(fields[p])
        } else {
            None
        },
        None => None,
    }
}

/// When a CSV header names a column `played_at` (trimmed, ASCII case ignored) and no earlier
/// column is named `played_at`, `playedat` or `ts`, every kept data row's played-at time is
/// the integer in that column of the data line it came from (none when that field is
/// missing or not an integer); a seed text whose first line has a comma reads so too.
pub proof fn lemma_csv_played_at_column(text: Seq<char>, j: int)
    requires
        lines(text).len() > 0,
        0 <= j < header_cols(lines(text)[0]).len(),
        header_cols(lines(text)[0])[j] == "played_at"@,
        forall|k: int|
            0 <= k < j ==> !(#[trigger] header_cols(lines(text)[0])[k] == "played_at"@
                || header_cols(lines(text)[0])[k] == "playedat"@ || header_cols(lines(text)[0])[k]
                == "ts"@),
    ensures
        played_names().contains("played_at"@),
        played_names().contains("playedat"@),
        played_names().contains("ts"@),
        ({
            let cols = header_cols(lines(text)[0]);
            let id_idx = match col_index(cols, id_names()) {
                Some(i) => i,
                None => 0,
            };
            &&& csv_spec(text) == csv_rows(lines(text).drop_first(), id_idx, col_index(cols, ladder_names()), Some(j))
            &&& forall|i: int|
                0 <= i < csv_spec(text).len() ==> exists|m: int|
                    1 <= m < lines(text).len() && row_from_line(
                        #[trigger] csv_spec(text)[i],
                        lines(text)[m],
                        id_idx,
                        Some(j),
                    )
        }),
        lines(text)[0].contains(',') ==> seed_spec(text) == csv_spec(text),
{
    let cols = header_cols(lines(text)[0]);
    let names = played_names();
    assert(names[0] == "played_at"@ && names[1] == "playedat"@ && names[2] == "ts"@);
    assert forall|k: int| 0 <= k < j implies !names.contains(#[trigger] cols[k]) by {
        if names.contains(cols[k]) {
            let n = choose|n: int| 0 <= n < names.len() && names[n] == cols[k];
            assert(n == 0 || n == 1 || n == 2);
        }
    }
    lemma_col_index_first(cols, names, j);
    let id_idx = match col_index(cols, id_names()) {
        Some(i) => i,
        None => 0,
    };
    let lad = col_index(cols, ladder_names());
    let data = lines(text).drop_first();
    lemma_csv_rows_origin(data, id_idx, lad, Some(j));
    assert forall|i: int| 0 <= i < csv_spec(text).len() implies exists|m: int|
        1 <= m < lines(text).len() && row_from_line(
            #[trigger] csv_spec(text)[i],
            lines(text)[m],
            id_idx,
            Some(j),
        ) by {
        let m = choose|m: int| 0 <= m < data.len() && row_from_line(csv_rows(data, id_idx, lad, Some(j))[i], data[m], id_idx, Some(j));
        assert(data[m] == lines(text)[m + 1]);
    }
}

/// The views of seed rows.
pub open spec fn seed_views(v: Seq<SeedRow>) -> Seq<SeedView> {
    v.map_values(|r: SeedRow| r@)
}

fn opt_string(v: &Vec<char>) -> (r: String)
    ensures
        r@ == v@,
{
    string_of(v.as_slice())
}

/// The rows of a newline list: one per line holding an integer match id.
pub fn parse_lines(text: &str) -> (r: Vec<SeedRow>)
    ensures
        seed_views(r@) == list_rows(lines(text@)),
{
    let ls = lines_of(&chars_of(text));
    let ghost lv = views(ls@);
    let mut out: Vec<SeedRow> = Vec::new();
    let mut i: usize = 0;
    while i < ls.len()
        invariant
            i <= ls@.len(),
            lv == views(ls@),
            lv == lines(text@),
            seed_views(out@) == list_rows(lv.subrange(0, i as int)),
        decreases ls@.len() - i,
    {
        assert(lv.subrange(0, i + 1).drop_last() == lv.subrange(0, i as int));
        assert(lv.subrange(0, i + 1).last() == ls@[i as int]@);
        let t = trim_chars(ls[i].as_slice());
        match parse_i64(t.as_slice()) {
            Some(id) => {
                out.push(SeedRow { match_id: id, ladder: None, played_at: None, profile_ids: None });
                assert(seed_views(out@) =~= list_rows(lv.subrange(0, i as int)).push((id, None, None, None)));
            },
            None => {},
        }
        i = i + 1;
    }
    assert(lv.subrange(0, lv.len() as int) == lv);
    out
}

fn is_one_of(c: &Vec<char>, names: &Vec<Vec<char>>) -> (r: bool)
    ensures
        r == views(names@).contains(c@),
{
    let mut k: usize = 0;
    while k < names.len()
        invariant
            k <= names@.len(),
            forall|j: int| 0 <= j < k ==> names@[j]@ != c@,
        decreases names@.len() - k,
    {
        if chars_eq(names[k].as_slice(), c.as_slice()) {
            assert(views(names@)[k as int] == c@);
            return true;
        }
        k = k + 1;
    }
    assert forall|j: int| 0 <= j < views(names@).len() implies views(names@)[j] != c@ by {
        assert(views(names@)[j] == names@[j]@);
    }
    false
}

fn find_col(cols: &Vec<Vec<char>>, names: &Vec<Vec<char>>) -> (r: Option<usize>)
    ensures
        match r {
            Some(i) => col_index(views(cols@), views(names@)) == Some(i as int),
            None => col_index(views(cols@), views(names@)) is None,
        },
{
    let ghost cv = views(cols@);
    let mut j: usize = 0;
    while j < cols.len()
        invariant
            j <= cols@.len(),
            cv == views(cols@),
            col_index(cv.subrange(0, j as int), views(names@)) is None,
        decreases cols@.len() - j,
    {
        assert(cv.subrange(0, j + 1).drop_last() == cv.subrange(0, j as int));
        assert(cv.subrange(0, j + 1).last() == cols@[j as int]@);
        if is_one_of(&cols[j], names) {
            proof {
                lemma_col_index_prefix(cv, views(names@), j as int);
            }
            return Some(j);
        }
        j = j + 1;
    }
    assert(cv.subrange(0, cv.len() as int) == cv);
    None
}

proof fn lemma_col_index_prefix(cols: Seq<Seq<char>>, names: Seq<Seq<char>>, j: int)
    requires
        0 <= j < cols.len(),
        col_index(cols.subrange(0, j + 1), names) == Some(j),
    ensures
        col_index(cols, names) == Some(j),
    decreases cols.len(),
{
    if cols.len() > j + 1 {
        assert(cols.drop_last().subrange(0, j + 1) == cols.subrange(0, j + 1));
        lemma_col_index_prefix(cols.drop_last(), names, j);
    } else {
        assert(cols.subrange(0, j + 1) == cols);
    }
}

fn names_of(a: &str, b: &str, c: &str, n: usize) -> (r: Vec<Vec<char>>)
    requires
        1 <= n <= 3,
    ensures
        views(r@) == seq![a@, b@, c@].subrange(0, n as int),
{
    let mut r: Vec<Vec<char>> = Vec::new();
    r.push(chars_of(a));
    if n >= 2 {
        r.push(chars_of(b));
    }
    if n >= 3 {
        r.push(chars_of(c));
    }
    assert(views(r@) =~= seq![a@, b@, c@].subrange(0, n as int));
    r
}

fn trimmed_fields(l: &Vec<char>) -> (r: Vec<Vec<char>>)
    ensures
        views(r@) == csv_fields(l@),
{
    let comma = chars_of(",");
    proof {
        reveal_strlit(",");
    }
    let parts = split_chars(l.as_slice(), comma.as_slice());
    let ghost pv = views(parts@);
    let mut out: Vec<Vec<char>> = Vec::new();
    let mut i: usize = 0;
    while i < parts.len()
        invariant
            i <= parts@.len(),
            pv == views(parts@),
            pv == split_by(l@, ","@),
            views(out@) == pv.subrange(0, i as int).map_values(|f: Seq<char>| trim(f)),
        decreases parts@.len() - i,
    {
        let v = trim_chars(parts[i].as_slice());
        let ghost old = out@;
        out.push(v);
        assert(pv[i as int] == parts@[i as int]@);
        assert(views(out@) =~= views(old).push(trim(pv[i as int])));
        assert(pv.subrange(0, i + 1).map_values(|f: Seq<char>| trim(f)) =~= pv.subrange(0, i as int).map_values(|f: Seq<char>| trim(f)).push(trim(pv[i as int])));
        i = i + 1;
    }
    assert(pv.subrange(0, pv.len() as int) == pv);
    out
}

fn lower_cols(header: &Vec<char>) -> (r: Vec<Vec<char>>)
    ensures
        views(r@) == header_cols(header@),
{
    let comma = chars_of(",");
    proof {
        reveal_strlit(",");
    }
    let parts = split_chars(header.as_slice(), comma.as_slice());
    let ghost pv = views(parts@);
    let mut out: Vec<Vec<char>> = Vec::new();
    let mut i: usize = 0;
    while i < parts.len()
        invariant
            i <= parts@.len(),
            pv == views(parts@),
            pv == split_by(header@, ","@),
            views(out@) == pv.subrange(0, i as int).map_values(|c: Seq<char>| lowercase_of(trim(c))),
        decreases parts@.len() - i,
    {
        let t = string_of(trim_chars(parts[i].as_slice()).as_slice());
        let low = str_to_lowercase(t.as_str());
        let v = chars_of(low.as_str());
        let ghost old = out@;
        out.push(v);
        assert(pv[i as int] == parts@[i as int]@);
        assert(views(out@) =~= views(old).push(lowercase_of(trim(pv[i as int]))));
        assert(pv.subrange(0, i + 1).map_values(|c: Seq<char>| lowercase_of(trim(c))) =~= pv.subrange(0, i as int).map_values(|c: Seq<char>| lowercase_of(trim(c))).push(lowercase_of(trim(pv[i as int]))));
        i = i + 1;
    }
    assert(pv.subrange(0, pv.len() as int) == pv);
    out
}

fn field(fields: &Vec<Vec<char>>, idx: Option<usize>) -> (r: Option<Vec<char>>)
    ensures
        match r {
            Some(f) => field_at(views(fields@), match idx {
                Some(i) => Some(i as int),
                None => None,
            }) == Some(f@),
            None => field_at(views(fields@), match idx {
                Some(i) => Some(i as int),
                None => None,
            }) is None,
        },
{
    match idx {
        Some(i) => if i < fields.len() {
            Some(crate::text::copy_chars(fields[i].as_slice()))
        } else {
            None
        },
        None => None,
    }
}

/// A minimal CSV: the header row maps column names (`match_id`/`matchid`/`id`, else the
/// first column; `ladder`; `played_at`/`playedat`/`ts`); blank lines and lines without
/// an integer match id are skipped.
pub fn parse_csv(text: &str) -> (r: Vec<SeedRow>)
    ensures
        seed_views(r@) == csv_spec(text@),
{
    let ls = lines_of(&chars_of(text));
    let ghost lv = views(ls@);
    let header: Vec<char> = if ls.len() > 0 {
        crate::text::copy_chars(ls[0].as_slice())
    } else {
        Vec::new()
    };
    let cols = lower_cols(&header);
    let id_idx: usize = match find_col(&cols, &names_of("match_id", "matchid", "id", 3)) {
        Some(i) => i,
        None => 0,
    };
    let ladder_idx = find_col(&cols, &names_of("ladder", "", "", 1));
    let played_idx = find_col(&cols, &names_of("played_at", "playedat", "ts", 3));
    proof {
        assert(seq!["match_id"@, "matchid"@, "id"@].subrange(0, 3) =~= id_names());
        assert(seq!["ladder"@, ""@, ""@].subrange(0, 1) =~= ladder_names());
        assert(seq!["played_at"@, "playedat"@, "ts"@].subrange(0, 3) =~= played_names());
    }
    let ghost li = match ladder_idx {
        Some(i) => Some(i as int),
        None => None,
    };
    let ghost pi = match played_idx {
        Some(i) => Some(i as int),
        None => None,
    };
    let ghost data = if lv.len() > 0 {
        lv.drop_first()
    } else {
        lv
    };
    let mut out: Vec<SeedRow> = Vec::new();
    let mut i: usize = 1;
    if ls.len() == 0 {
        return out;
    }
    while i < ls.len()
        invariant
            1 <= i <= ls@.len(),
            lv == views(ls@),
            lv == lines(text@),
            data == lv.drop_first(),
            li == match ladder_idx {
                Some(i) => Some(i as int),
                None => None::<int>,
            },
            pi == match played_idx {
                Some(i) => Some(i as int),
                None => None::<int>,
            },
            seed_views(out@) == csv_rows(data.subrange(0, i - 1), id_idx as int, li, pi),
        decreases ls@.len() - i,
    {
        assert(data.subrange(0, i as int).drop_last() == data.subrange(0, i - 1));
        assert(data.subrange(0, i as int).last() == ls@[i as int]@);
        let l = &ls[i];
        let t = trim_chars(l.as_slice());
        if t.len() > 0 {
            let fields = trimmed_fields(l);
            match field(&fields, Some(id_idx)) {
                Some(f) => match parse_i64(f.as_slice()) {
                    Some(id) => {
                        let ladder = match field(&fields, ladder_idx) {
                            Some(s) => if s.len() > 0 {
                                Some(opt_string(&s))
                            } else {
                                None
                            },
                            None => None,
                        };
                        let played_at = match field(&fields, played_idx) {
                            Some(s) => parse_i64(s.as_slice()),
                            None => None,
                        };
                        let row = SeedRow { match_id: id, ladder, played_at, profile_ids: None };
                        assert(views(fields@) == csv_fields(ls@[i as int]@));
                        assert(trim(ls@[i as int]@).len() > 0);
                        assert(field_at(csv_fields(ls@[i as int]@), Some(id_idx as int)) == Some(f@));
                        assert(parse_i64_spec(f@) == Some(id));
                        assert(csv_row(ls@[i as int]@, id_idx as int, li, pi) == Some(row@));
                        out.push(row);
                        assert(seed_views(out@) =~= seed_views(out@.drop_last()).push(row@));
                    },
                    None => {},
                },
                None => {},
            }
        }
        i = i + 1;
    }
    assert(data.subrange(0, data.len() as int) == data);
    out
}

/// The rows of a seed file's text: a CSV when its first line has a comma, else a
/// newline list.
pub fn parse_seed_text(text: &str) -> (r: Vec<SeedRow>)
    ensures
        seed_views(r@) == seed_spec(text@),
{
    let ls = lines_of(&chars_of(text));
    let is_csv = if ls.len() > 0 {
        let first = &ls[0];
        let mut found = false;
        let mut k: usize = 0;
        while k < first.len()
            invariant
                k <= first@.len(),
                found == exists|j: int| 0 <= j < k && first@[j] == ',',
            decreases first@.len() - k,
        {
            if first[k] == ',' {
                found = true;
            }
            k = k + 1;
        }
        proof {
            assert(views(ls@)[0] == first@);
            if found {
                let j = choose|j: int| 0 <= j < first@.len() && first@[j] == ',';
                assert(first@.contains(','));
            } else {
                assert(!first@.contains(','));
            }
        }
        found
    } else {
        false
    };
    if is_csv {
        parse_csv(text)
    } else {
        parse_lines(text)
    }
}

} // verus!
