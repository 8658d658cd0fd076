//! Attack/armour class id -> readable label, parsed from the committed armour-class table:
//! `class_id<TAB>label` rows, `#`-comment and blank lines skipped.
use std::collections::HashMap;
use vstd::prelude::*;

use crate::refdata::error::{RefdataError, Result};
use crate::refdata::unit_lines::is_skipped_line;
use crate::text::{
    chars_of, lines, lines_of, parse_i32, parse_i32_spec, split_once, split_once_char, string_of,
    trim, trim_chars, views,
};

verus! {

broadcast use vstd::std_specs::hash::group_hash_axioms;

/// Class id -> label lookup over the whole committed table.
#[derive(Debug)]
pub struct ArmorClassTable(pub HashMap<i32, String>);

/// The labels of a table, by their views.
pub open spec fn label_view(m: Map<i32, String>) -> Map<i32, Seq<char>> {
    m.map_values(|s: String| s@)
}

impl View for ArmorClassTable {
    type V = Map<i32, Seq<char>>;

    open spec fn view(&self) -> Map<i32, Seq<char>> {
        label_view(self.0@)
    }
}

/// The row an armour-class line holds: `(id, label)` with the label trimmed, or `None`
/// for a skipped line, one without a tab, or one whose id is not an `i32`. The label runs
/// to the end of the line.
pub open spec fn armor_class_row(l: Seq<char>) -> Option<(i32, Seq<char>)> {
    if is_skipped_line(l) {
        None
    } else {
        match split_once(l, '\t') {
            None => None,
            Some((id, label)) => match parse_i32_spec(trim(id)) {
                None => None,
                Some(k) => Some((k, trim(label))),
            },
        }
    }
}

/// The table the lines `ls` build: a later row replaces an earlier one with the same id.
pub open spec fn armor_class_table(ls: Seq<Seq<char>>) -> Map<i32, Seq<char>>
    decreases ls.len(),
{
    if ls.len() == 0 {
        Map::empty()
    } else {
        let prev = armor_class_table(ls.drop_last());
        match armor_class_row(ls.last()) {
            None => prev,
            Some((k, label)) => prev.insert(k, label),
        }
    }
}

fn parse_row(l: &[char]) -> (r: Option<(i32, Vec<char>)>)
    ensures
        match r {
            None => armor_class_row(l@) is None,
            Some((k, s)) => armor_class_row(l@) == Some((k, s@)),
        },
{
    if (l.len() > 0 && l[0] == '#') || trim_chars(l).len() == 0 {
        proof {
            if l@.len() > 0 && l@[0] == '#' {
                assert(l@.subrange(0, 1) == seq!['#']);
            }
        }
        return None;
    }
    proof {
        if crate::text::starts_with(l@, seq!['#']) {
            assert(l@[0] == l@.subrange(0, 1)[0]);
        }
    }
    match split_once_char(l, '\t') {
        None => None,
        Some((id, label)) => {
            let id_t = trim_chars(&id);
            match parse_i32(&id_t) {
                None => None,
                Some(k) => Some((k, trim_chars(&label))),
            }
        },
    }
}

/// Parses armour-class-table-shaped text: `class_id<TAB>label`, skipping `#`-comment and
/// blank lines; a row whose id is not a valid `i32` is dropped.
pub fn parse(tsv: &str) -> (r: ArmorClassTable)
    ensures
        r@ == armor_class_table(lines(tsv@)),
{
    let text = chars_of(tsv);
    let ls = lines_of(&text);
    let mut by_id: HashMap<i32, String> = HashMap::new();
    let mut i: usize = 0;
    assert(label_view(by_id@) =~= Map::<i32, Seq<char>>::empty());
    while i < ls.len()
        invariant
            i <= ls@.len(),
            views(ls@) == lines(tsv@),
            label_view(by_id@) == armor_class_table(views(ls@).subrange(0, i as int)),
        decreases ls@.len() - i,
    {
        let ghost pre = views(ls@).subrange(0, i as int);
        let ghost cur = views(ls@).subrange(0, i + 1);
        assert(cur.drop_last() == pre);
        assert(cur.last() == ls@[i as int]@);
        match parse_row(&ls[i]) {
            None => {},
            Some((k, label)) => {
                let s = string_of(&label);
                let ghost before = by_id@;
                by_id.insert(k, s);
                assert(label_view(by_id@) =~= label_view(before).insert(k, label@));
            },
        }
        i = i + 1;
    }
    assert(views(ls@).subrange(0, ls@.len() as int) == views(ls@));
    ArmorClassTable(by_id)
}

impl ArmorClassTable {
    /// Resolves a class id to its label, or fails with
    /// [`RefdataError::UnknownAttackClass`]: an attack citing a class absent from the table
    /// is an anomaly, never an unnamed bonus.
    pub fn label(&self, class: i32) -> (r: Result<&str>)
        ensures
            match r {
                Ok(s) => self@.contains_key(class) && s@ == self@[class],
                Err(e) => !self@.contains_key(class) && e == (RefdataError::UnknownAttackClass {
                    class,
                }),
            },
    {
        match self.0.get(&class) {
            Some(s) => Ok(s.as_str()),
            None => Err(RefdataError::UnknownAttackClass { class }),
        }
    }
}

} // verus!
