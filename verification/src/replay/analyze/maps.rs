//! The map table of the analyzer (map id -> name and family) and the benchmark key of a map
//! name.
use std::collections::HashMap;
use vstd::prelude::*;

use crate::refdata::unit_lines::is_skipped_line;
use crate::replay::analyze::data::{parse_u32, parse_u32_spec};
use crate::replay::analyze::model::Family;
use crate::text::{
    ascii_lower, ascii_lower_chars, ascii_lower_seq, chars_eq, chars_of, decimal, lines, lines_of, push_all,
    split_once, split_once_char, string_of, to_ascii_lower, trim, trim_chars, u64_decimal, views,
};

verus! {

broadcast use vstd::std_specs::hash::group_hash_axioms;

/// The family a table's family field names (trimmed, ASCII case ignored); `Other` for any
/// other text.
pub open spec fn family_named(s: Seq<char>) -> Family {
    let f = ascii_lower_seq(trim(s));
    if f == "open"@ {
        Family::Open
    } else if f == "closed"@ {
        Family::Closed
    } else if f == "hybrid"@ {
        Family::Hybrid
    } else if f == "water"@ {
        Family::Water
    } else if f == "nomad"@ {
        Family::Nomad
    } else if f == "special"@ {
        Family::Special
    } else {
        Family::Other
    }
}

/// The family a family field names.
pub fn family_of(s: &[char]) -> (r: Family)
    ensures
        r == family_named(s@),
{
    let f = ascii_lower_chars(&trim_chars(s));
    if chars_eq(&f, &chars_of("open")) {
        Family::Open
    } else if chars_eq(&f, &chars_of("closed")) {
        Family::Closed
    } else if chars_eq(&f, &chars_of("hybrid")) {
        Family::Hybrid
    } else if chars_eq(&f, &chars_of("water")) {
        Family::Water
    } else if chars_eq(&f, &chars_of("nomad")) {
        Family::Nomad
    } else if chars_eq(&f, &chars_of("special")) {
        Family::Special
    } else {
        Family::Other
    }
}

/// A family's name in the map table's family column (snake_case).
pub open spec fn family_label(f: Family) -> Seq<char> {
    match f {
        Family::Open => "open"@,
        Family::Closed => "closed"@,
        Family::Hybrid => "hybrid"@,
        Family::Water => "water"@,
        Family::Nomad => "nomad"@,
        Family::Special => "special"@,
        Family::Other => "other"@,
    }
}

/// A family field names `open`, `closed`, `hybrid`, `water`, `nomad` or `special` exactly
/// when, trimmed and ASCII-lowercased, it is that word; any other text names `Other`.
pub proof fn lemma_family_named_words(s: Seq<char>)
    ensures
        family_named(s) == Family::Open <==> ascii_lower_seq(trim(s)) == "open"@,
        family_named(s) == Family::Closed <==> ascii_lower_seq(trim(s)) == "closed"@,
        family_named(s) == Family::Hybrid <==> ascii_lower_seq(trim(s)) == "hybrid"@,
        family_named(s) == Family::Water <==> ascii_lower_seq(trim(s)) == "water"@,
        family_named(s) == Family::Nomad <==> ascii_lower_seq(trim(s)) == "nomad"@,
        family_named(s) == Family::Special <==> ascii_lower_seq(trim(s)) == "special"@,
        family_named(s) == Family::Other <==> !(ascii_lower_seq(trim(s)) == "open"@
            || ascii_lower_seq(trim(s)) == "closed"@ || ascii_lower_seq(trim(s)) == "hybrid"@
            || ascii_lower_seq(trim(s)) == "water"@ || ascii_lower_seq(trim(s)) == "nomad"@
            || ascii_lower_seq(trim(s)) == "special"@),
{
    lemma_family_words_distinct();
    let w = family_words();
    assert(w[0] == "open"@ && w[1] == "closed"@ && w[2] == "hybrid"@ && w[3] == "water"@);
    assert(w[4] == "nomad"@ && w[5] == "special"@ && w[6] == "other"@);
}

proof fn lemma_family_words_distinct()
    ensures
        forall|i: int, j: int|
            0 <= i < j < 7 ==> #[trigger] family_words()[i] != #[trigger] family_words()[j],
{
    reveal_strlit("open");
    reveal_strlit("closed");
    reveal_strlit("hybrid");
    reveal_strlit("water");
    reveal_strlit("nomad");
    reveal_strlit("special");
    reveal_strlit("other");
    let w = family_words();
    assert forall|i: int, j: int| 0 <= i < j < 7 implies w[i] != w[j] by {
        if w[i].len() == w[j].len() {
            assert(w[i][0] != w[j][0]);
        }
    }
}

spec fn family_words() -> Seq<Seq<char>> {
    seq!["open"@, "closed"@, "hybrid"@, "water"@, "nomad"@, "special"@, "other"@]
}

/// Each family's own name, in any ASCII case and with surrounding whitespace, names it
/// back; in particular `family_named("open") == Open`.
pub proof fn lemma_family_label_round_trip(f: Family, s: Seq<char>)
    requires
        f != Family::Other,
        ascii_lower_seq(trim(s)) == family_label(f),
    ensures
        family_named(s) == f,
        family_named(family_label(f)) == f,
{
    lemma_family_words_distinct();
    let ws = family_words();
    assert(ws[0] == "open"@ && ws[1] == "closed"@ && ws[2] == "hybrid"@ && ws[3] == "water"@);
    assert(ws[4] == "nomad"@ && ws[5] == "special"@ && ws[6] == "other"@);
    let w = family_label(f);
    reveal_strlit("open");
    reveal_strlit("closed");
    reveal_strlit("hybrid");
    reveal_strlit("water");
    reveal_strlit("nomad");
    reveal_strlit("special");
    assert(w.len() > 0 && !crate::text::is_ws(w[0]) && !crate::text::is_ws(w.last()));
    assert(trim(w) == w);
    assert forall|k: int| 0 <= k < w.len() implies !('A' <= #[trigger] w[k] && w[k] <= 'Z') by {}
    assert(ascii_lower_seq(w) =~= w);
}

/// The row a map-table line holds: `(map id, name, family)` from `id<TAB>name<TAB>family`
/// (the family field runs to the end of the line), or `None` for a skipped line, one with
/// fewer than three fields, or one whose id is not a `u32`.
pub open spec fn map_row(l: Seq<char>) -> Option<(u32, Seq<char>, Family)> {
    if is_skipped_line(l) {
        None
    } else {
        match split_once(l, '\t') {
            None => None,
            Some((id, rest)) => match split_once(rest, '\t') {
                None => None,
                Some((name, fam)) => match parse_u32_spec(trim(id)) {
                    None => None,
                    Some(k) => Some((k, trim(name), family_named(fam))),
                },
            },
        }
    }
}

/// The map table the lines `ls` build (a later row replaces an earlier one).
pub open spec fn map_table(ls: Seq<Seq<char>>) -> Map<u32, (Seq<char>, Family)>
    decreases ls.len(),
{
    if ls.len() == 0 {
        Map::empty()
    } else {
        let prev = map_table(ls.drop_last());
        match map_row(ls.last()) {
            None => prev,
            Some((k, name, fam)) => prev.insert(k, (name, fam)),
        }
    }
}

/// Map id -> (name, family).
pub struct MapTable(pub HashMap<u32, (String, Family)>);

/// The view of a map table's entries.
pub open spec fn table_view(m: Map<u32, (String, Family)>) -> Map<u32, (Seq<char>, Family)> {
    m.map_values(|v: (String, Family)| (v.0@, v.1))
}

/// The name and family of a map id: the table's entry, else `map {id}` of the `Other` family.
pub open spec fn lookup_spec(t: Map<u32, (Seq<char>, Family)>, id: u32) -> (Seq<char>, Family) {
    if t.contains_key(id) {
        t[id]
    } else {
        ("map "@ + decimal(id as nat), Family::Other)
    }
}

impl MapTable {
    /// The name and family of a map id (`map {id}`, `Other`, for one the table lacks).
    pub fn lookup(&self, id: u32) -> (r: (String, Family))
        ensures
            (r.0@, r.1) == lookup_spec(table_view(self.0@), id),
    {
        match self.0.get(&id) {
            Some(v) => (string_of(&chars_of(v.0.as_str())), v.1),
            None => {
                let mut s = chars_of("map ");
                push_all(&mut s, &u64_decimal(id as u64));
                (string_of(&s), Family::Other)
            },
        }
    }
}

/// Parses map-table text: `id<TAB>name<TAB>family` rows, `#`-comment and blank lines skipped.
pub fn parse_maps(tsv: &str) -> (r: MapTable)
    ensures
        table_view(r.0@) == map_table(lines(tsv@)),
{
    let text = chars_of(tsv);
    let ls = lines_of(&text);
    let mut out: HashMap<u32, (String, Family)> = HashMap::new();
    assert(table_view(out@) =~= Map::<u32, (Seq<char>, Family)>::empty());
    let mut i: usize = 0;
    while i < ls.len()
        invariant
            i <= ls@.len(),
            views(ls@) == lines(tsv@),
            table_view(out@) == map_table(views(ls@).subrange(0, i as int)),
        decreases ls@.len() - i,
    {
        let ghost pre = views(ls@).subrange(0, i as int);
        let ghost cur = views(ls@).subrange(0, i + 1);
        assert(cur.drop_last() == pre);
        let l = &ls[i];
        assert(cur.last() == l@);
        let skipped = (l.len() > 0 && l[0] == '#') || trim_chars(l).len() == 0;
        proof {
            if l@.len() > 0 && l@[0] == '#' {
                assert(l@.subrange(0, 1) == seq!['#']);
            }
            if crate::text::starts_with(l@, seq!['#']) {
                assert(l@[0] == l@.subrange(0, 1)[0]);
            }
        }
        if !skipped {
            match split_once_char(l, '\t') {
                None => {},
                Some((id, rest)) => match split_once_char(&rest, '\t') {
                    None => {},
                    Some((name, fam)) => {
                        let id_t = trim_chars(&id);
                        match parse_u32(&id_t) {
                            None => {},
                            Some(k) => {
                                let nm = trim_chars(&name);
                                let family = family_of(&fam);
                                let ghost before = out@;
                                out.insert(k, (string_of(&nm), family));
                                assert(table_view(out@) =~= table_view(before).insert(k, (nm@, family)));
                            },
                        }
                    },
                },
            }
        }
        i = i + 1;
    }
    assert(views(ls@).subrange(0, ls@.len() as int) == views(ls@));
    MapTable(out)
}

/// Whether a char is an ASCII letter or digit.
pub open spec fn ascii_alnum(c: char) -> bool {
    ('0' <= c && c <= '9') || ('a' <= c && c <= 'z') || ('A' <= c && c <= 'Z')
}

/// The benchmark key of a map name: its ASCII letters and digits, lowercased, in order
/// ("Black Forest" -> "blackforest").
pub open spec fn slug_of(s: Seq<char>) -> Seq<char>
    decreases s.len(),
{
    if s.len() == 0 {
        Seq::empty()
    } else {
        slug_of(s.drop_last()) + if ascii_alnum(s.last()) {
            seq![ascii_lower(s.last())]
        } else {
            Seq::empty()
        }
    }
}

/// The benchmark key of a map name.
pub fn slug(name: &str) -> (r: String)
    ensures
        r@ == slug_of(name@),
{
    let s = chars_of(name);
    let mut out: Vec<char> = Vec::new();
    let mut i: usize = 0;
    while i < s.len()
        invariant
            i <= s@.len(),
            s@ == name@,
            out@ == slug_of(s@.subrange(0, i as int)),
        decreases s@.len() - i,
    {
        assert(s@.subrange(0, i + 1).drop_last() == s@.subrange(0, i as int));
        let c = s[i];
        if ('0' <= c && c <= '9') || ('a' <= c && c <= 'z') || ('A' <= c && c <= 'Z') {
            out.push(to_ascii_lower(c));
        }
        assert(out@ =~= slug_of(s@.subrange(0, i + 1)));
        i = i + 1;
    }
    assert(s@.subrange(0, s@.len() as int) == s@);
    string_of(&out)
}

} // verus!
