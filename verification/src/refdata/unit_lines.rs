//! Unit slug -> `{ line, lineRank }`, parsed from the hand-curated `unit-lines.tsv`:
//! `slug<TAB>line<TAB>lineRank` rows, `#`-comment and blank lines skipped.
use vstd::prelude::*;

use crate::refdata::error::{RefdataError, Result};
use crate::str_map::{assoc_get, assoc_insert, StrMap};
use crate::text::{
    chars_of, is_blank, lines, lines_of, parse_i32, parse_i32_spec, split_once, split_once_char,
    starts_with, string_of, trim, trim_chars, views,
};

verus! {

/// One `unit-lines.tsv` row.
#[derive(Debug, Clone, PartialEq, Eq)]
pub struct UnitLine {
    pub line: String,
    pub line_rank: i32,
}

impl View for UnitLine {
    type V = (Seq<char>, i32);

    open spec fn view(&self) -> (Seq<char>, i32) {
        (self.line@, self.line_rank)
    }
}

/// Slug-keyed lookup over the whole `unit-lines.tsv` table.
#[derive(Debug)]
pub struct UnitLineTable(pub StrMap<UnitLine>);

impl View for UnitLineTable {
    type V = Seq<(Seq<char>, (Seq<char>, i32))>;

    open spec fn view(&self) -> Seq<(Seq<char>, (Seq<char>, i32))> {
        self.0@
    }
}

/// Whether a line is skipped: a `#` comment, or empty / all whitespace.
pub open spec fn is_skipped_line(l: Seq<char>) -> bool {
    starts_with(l, seq!['#']) || is_blank(l)
}

/// The row a `unit-lines.tsv` line holds: `(slug, line, rank)`, each text field trimmed,
/// or `None` for a skipped line, one with fewer than three tab-separated fields, or one
/// whose rank is not an `i32`. The third field runs to the end of the line.
pub open spec fn unit_line_row(l: Seq<char>) -> Option<(Seq<char>, Seq<char>, i32)> {
    if is_skipped_line(l) {
        None
    } else {
        match split_once(l, '\t') {
            None => None,
            Some((slug, rest)) => match split_once(rest, '\t') {
                None => None,
                Some((name, rank)) => match parse_i32_spec(trim(rank)) {
                    None => None,
                    Some(r) => Some((trim(slug), trim(name), r)),
                },
            },
        }
    }
}

/// The table that the lines `ls` build: each row stored under its slug, a later row
/// replacing an earlier one with the same slug.
pub open spec fn unit_lines_table(ls: Seq<Seq<char>>) -> Seq<(Seq<char>, (Seq<char>, i32))>
    decreases ls.len(),
{
    if ls.len() == 0 {
        Seq::empty()
    } else {
        let prev = unit_lines_table(ls.drop_last());
        match unit_line_row(ls.last()) {
            None => prev,
            Some((slug, name, rank)) => assoc_insert(prev, slug, (name, rank)),
        }
    }
}

/// The row of one line, computed.
fn parse_row(l: &[char]) -> (r: Option<(Vec<char>, Vec<char>, i32)>)
    ensures
        match r {
            None => unit_line_row(l@) is None,
            Some((s, n, k)) => unit_line_row(l@) == Some((s@, n@, k)),
        },
{
    if (l.len() > 0 && l[0] == '#') || trim_chars(l).len() == 0 {
        proof {
            if l@.len() > 0 && l@[0] == '#' {
                assert(l@.subrange(0, 1) == seq!['#']);
            }
        }
        return None;
    }
    proof {
        if starts_with(l@, seq!['#']) {
            assert(l@[0] == l@.subrange(0, 1)[0]);
        }
    }
    match split_once_char(l, '\t') {
        None => None,
        Some((slug, rest)) => match split_once_char(&rest, '\t') {
            None => None,
            Some((name, rank)) => {
                let rank_t = trim_chars(&rank);
                match parse_i32(&rank_t) {
                    None => None,
                    Some(r) => Some((trim_chars(&slug), trim_chars(&name), r)),
                }
            },
        },
    }
}

/// Parses `unit-lines.tsv`-shaped text: `slug<TAB>line<TAB>lineRank`, skipping `#`-comment
/// and blank lines; a row whose `lineRank` is not a valid `i32` is dropped. A repeated
/// slug keeps the last row.
pub fn parse(tsv: &str) -> (r: UnitLineTable)
    ensures
        r@ == unit_lines_table(lines(tsv@)),
{
    let text = chars_of(tsv);
    let ls = lines_of(&text);
    let mut by_slug: StrMap<UnitLine> = StrMap::new();
    let mut i: usize = 0;
    while i < ls.len()
        invariant
            i <= ls@.len(),
            views(ls@) == lines(tsv@),
            by_slug@ == unit_lines_table(views(ls@).subrange(0, i as int)),
        decreases ls@.len() - i,
    {
        let ghost pre = views(ls@).subrange(0, i as int);
        let ghost cur = views(ls@).subrange(0, i + 1);
        assert(cur.drop_last() == pre);
        assert(cur.last() == ls@[i as int]@);
        match parse_row(&ls[i]) {
            None => {},
            Some((slug, name, rank)) => {
                let entry = UnitLine { line: string_of(&name), line_rank: rank };
                by_slug.insert(string_of(&slug), entry);
            },
        }
        i = i + 1;
    }
    assert(views(ls@).subrange(0, ls@.len() as int) == views(ls@));
    UnitLineTable(by_slug)
}

impl UnitLineTable {
    /// Looks up a unit's line/rank by content slug; `None` for a slug the table does not
    /// cover.
    pub fn get(&self, slug: &str) -> (r: Option<&UnitLine>)
        ensures
            match r {
                Some(u) => assoc_get(self@, slug@) == Some(u@),
                None => assoc_get(self@, slug@) is None,
            },
    {
        self.0.get(slug)
    }
}

/// Looks up `slug`, or fails with [`RefdataError::MissingUnitLine`]: a canonical unit the
/// curated table does not cover is an error, never a fabricated line/rank.
pub fn require<'a>(table: &'a UnitLineTable, slug: &'static str) -> (r: Result<&'a UnitLine>)
    ensures
        match r {
            Ok(u) => assoc_get(table@, slug@) == Some(u@),
            Err(e) => assoc_get(table@, slug@) is None && e == (RefdataError::MissingUnitLine {
                slug,
            }),
        },
{
    match table.get(slug) {
        Some(u) => Ok(u),
        None => Err(RefdataError::MissingUnitLine { slug }),
    }
}

} // verus!
