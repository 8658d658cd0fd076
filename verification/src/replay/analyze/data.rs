//! The civ-id table of the benchmark and ELO bucketing.
use std::collections::HashMap;
use vstd::prelude::*;

use crate::refdata::unit_lines::is_skipped_line;
use crate::text::{
    chars_of, lines, lines_of, parse_int, split_once, split_once_char, string_of, trim, trim_chars,
    views, all_digits, digits_value,
};

verus! {

broadcast use vstd::std_specs::hash::group_hash_axioms;

/// The bucket label of an ELO, by the games table's boundaries.
pub open spec fn elo_bucket_of(elo: i32) -> Seq<char> {
    if elo <= 999 {
        "<1000"@
    } else if elo <= 1199 {
        "1000-1199"@
    } else if elo <= 1399 {
        "1200-1399"@
    } else if elo <= 1649 {
        "1400-1649"@
    } else if elo <= 1799 {
        "1650-1799"@
    } else if elo <= 1999 {
        "1800-1999"@
    } else if elo <= 2199 {
        "2000-2199"@
    } else if elo <= 2499 {
        "2200-2499"@
    } else {
        "2500+"@
    }
}

/// Buckets an ELO.
pub fn elo_bucket(elo: i32) -> (r: &'static str)
    ensures
        r@ == elo_bucket_of(elo),
{
    if elo <= 999 {
        "<1000"
    } else if elo <= 1199 {
        "1000-1199"
    } else if elo <= 1399 {
        "1200-1399"
    } else if elo <= 1649 {
        "1400-1649"
    } else if elo <= 1799 {
        "1650-1799"
    } else if elo <= 1999 {
        "1800-1999"
    } else if elo <= 2199 {
        "2000-2199"
    } else if elo <= 2499 {
        "2200-2499"
    } else {
        "2500+"
    }
}

/// Each bucket label covers exactly its named range of ELOs: `<1000` up to 999,
/// `1000-1199`, `1200-1399`, `1400-1649`, `1650-1799`, `1800-1999`, `2000-2199`,
/// `2200-2499`, and `2500+` from 2500 on.
pub proof fn lemma_elo_bucket_ranges(elo: i32)
    ensures
        elo_bucket_of(elo) == "<1000"@ <==> elo <= 999,
        elo_bucket_of(elo) == "1000-1199"@ <==> 1000 <= elo <= 1199,
        elo_bucket_of(elo) == "1200-1399"@ <==> 1200 <= elo <= 1399,
        elo_bucket_of(elo) == "1400-1649"@ <==> 1400 <= elo <= 1649,
        elo_bucket_of(elo) == "1650-1799"@ <==> 1650 <= elo <= 1799,
        elo_bucket_of(elo) == "1800-1999"@ <==> 1800 <= elo <= 1999,
        elo_bucket_of(elo) == "2000-2199"@ <==> 2000 <= elo <= 2199,
        elo_bucket_of(elo) == "2200-2499"@ <==> 2200 <= elo <= 2499,
        elo_bucket_of(elo) == "2500+"@ <==> 2500 <= elo,
{
    reveal_strlit("<1000");
    reveal_strlit("1000-1199");
    reveal_strlit("1200-1399");
    reveal_strlit("1400-1649");
    reveal_strlit("1650-1799");
    reveal_strlit("1800-1999");
    reveal_strlit("2000-2199");
    reveal_strlit("2200-2499");
    reveal_strlit("2500+");
    let labels = seq![
        "<1000"@, "1000-1199"@, "1200-1399"@, "1400-1649"@, "1650-1799"@, "1800-1999"@,
        "2000-2199"@, "2200-2499"@, "2500+"@,
    ];
    assert forall|i: int, j: int| 0 <= i < j < 9 implies labels[i] != labels[j] by {
        if labels[i].len() == labels[j].len() {
            assert(labels[i][0] != labels[j][0] || labels[i][1] != labels[j][1] || labels[i][2]
                != labels[j][2] || labels[i][3] != labels[j][3]);
        }
    }
}

/// `str::parse::<u32>`: an optional `+` and one or more digits, within range.
pub open spec fn parse_u32_spec(s: Seq<char>) -> Option<u32> {
    match parse_int(s) {
        Some(v) => if 0 <= v <= u32::MAX && !(s.len() > 0 && s[0] == '-') {
            Some(v as u32)
        } else {
            None
        },
        None => None,
    }
}

/// `str::parse::<u32>`.
pub fn parse_u32(s: &[char]) -> (r: Option<u32>)
    ensures
        r == parse_u32_spec(s@),
{
    if s.len() > 0 && s[0] == '-' {
        return None;
    }
    match crate::text::parse_i64(s) {
        Some(v) => if 0 <= v && v <= 4294967295i64 {
            Some(v as u32)
        } else {
            proof {
                assert(parse_int(s@) == Some(v as int));
            }
            None
        },
        None => {
            proof {
                if parse_int(s@) is Some {
                    assert(!(i64::MIN <= parse_int(s@)->0 <= i64::MAX));
                }
            }
            None
        },
    }
}

/// The row a civs-table line holds: `(civ id, slug)`, or `None` for a skipped line, one
/// without a tab, or one whose id is not a `u32`.
pub open spec fn civ_row(l: Seq<char>) -> Option<(u32, Seq<char>)> {
    if is_skipped_line(l) {
        None
    } else {
        match split_once(l, '\t') {
            None => None,
            Some((id, slug)) => match parse_u32_spec(trim(id)) {
                None => None,
                Some(k) => Some((k, trim(slug))),
            },
        }
    }
}

/// The civ-id table the lines `ls` build (a later row replaces an earlier one).
pub open spec fn civ_table(ls: Seq<Seq<char>>) -> Map<u32, Seq<char>>
    decreases ls.len(),
{
    if ls.len() == 0 {
        Map::empty()
    } else {
        let prev = civ_table(ls.drop_last());
        match civ_row(ls.last()) {
            None => prev,
            Some((k, slug)) => prev.insert(k, slug),
        }
    }
}

/// The slugs of a civ-id map, by their views.
pub open spec fn slug_view(m: Map<u32, String>) -> Map<u32, Seq<char>> {
    m.map_values(|s: String| s@)
}

/// Parses civs-table text: `civ_id<TAB>slug` rows, `#`-comment and blank lines skipped.
pub fn parse_civs(tsv: &str) -> (r: HashMap<u32, String>)
    ensures
        slug_view(r@) == civ_table(lines(tsv@)),
{
    let text = chars_of(tsv);
    let ls = lines_of(&text);
    let mut out: HashMap<u32, String> = HashMap::new();
    assert(slug_view(out@) =~= Map::<u32, Seq<char>>::empty());
    let mut i: usize = 0;
    while i < ls.len()
        invariant
            i <= ls@.len(),
            views(ls@) == lines(tsv@),
            slug_view(out@) == civ_table(views(ls@).subrange(0, i as int)),
        decreases ls@.len() - i,
    {
        let ghost pre = views(ls@).subrange(0, i as int);
        let ghost cur = views(ls@).subrange(0, i + 1);
        assert(cur.drop_last() == pre);
        let l = &ls[i];
        assert(cur.last() == l@);
        let skipped = (l.len() > 0 && l[0] == '#') || trim_chars(l).len() == 0;
        proof {
            if l@.len() > 0 && l@[0] == '#' {
                assert(l@.subrange(0, 1) == seq!['#']);
            }
            if crate::text::starts_with(l@, seq!['#']) {
                assert(l@[0] == l@.subrange(0, 1)[0]);
            }
        }
        if !skipped {
            match split_once_char(l, '\t') {
                None => {},
                Some((id, slug)) => {
                    let id_t = trim_chars(&id);
                    match parse_u32(&id_t) {
                        None => {},
                        Some(k) => {
                            let st = trim_chars(&slug);
                            let s = string_of(&st);
                            let ghost before = out@;
                            out.insert(k, s);
                            assert(slug_view(out@) =~= slug_view(before).insert(k, st@));
                        },
                    }
                },
            }
        }
        i = i + 1;
    }
    assert(views(ls@).subrange(0, ls@.len() as int) == views(ls@));
    out
}


/// More than two real players make a team game (team ELO and team benchmark slices).
pub fn is_team_game(n_players: usize) -> (r: bool)
    ensures
        r == (n_players > 2),
{
    n_players > 2
}

/// How precisely a benchmark slice matched the civ, map, ELO bucket and mode.
#[derive(Debug, Clone, Copy, PartialEq, Eq, Structural)]
pub enum MatchKind {
    /// The slice of the ELO bucket and mode.
    Exact,
    /// The map's all-ELO slice of the mode.
    MapMode,
    /// The map's all-ELO, all-mode slice.
    MapAll,
}

/// The benchmark slice to compare against, given what the map's table holds under
/// `(bucket, mode)`, `("all", mode)` and `("all", "all")`: the first one present, with how
/// precisely it matched.
pub fn pick_slice<S>(exact: Option<S>, map_mode: Option<S>, map_all: Option<S>) -> (r: Option<(S, MatchKind)>)
    ensures
        match (exact, map_mode, map_all) {
            (Some(s), _, _) => r == Some((s, MatchKind::Exact)),
            (None, Some(s), _) => r == Some((s, MatchKind::MapMode)),
            (None, None, Some(s)) => r == Some((s, MatchKind::MapAll)),
            (None, None, None) => r is None,
        },
{
    match exact {
        Some(s) => Some((s, MatchKind::Exact)),
        None => match map_mode {
            Some(s) => Some((s, MatchKind::MapMode)),
            None => match map_all {
                Some(s) => Some((s, MatchKind::MapAll)),
                None => None,
            },
        },
    }
}

} // verus!
