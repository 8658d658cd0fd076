//! Small hand-curated civ tables (region, region noun, unique-unit overrides) and the
//! specialty cleanup applied to a civ's parsed type line.
use vstd::prelude::*;

use crate::refdata::error::{RefdataError, Result};
use crate::text::{
    ascii_lower_chars, ascii_lower_seq, char_to_uppercase, char_uppercase_of, chars_eq, chars_of,
    copy_chars, find, find_chars, is_whitespace, is_ws, lemma_find, lowercase_of, matches_at,
    match_at, push_all, str_eq, str_to_lowercase, string_of, subvec, trim, trim_chars,
    trim_start, trim_start_chars, trim_start_index, views,
};

verus! {

/// Civ slug to region label (every real civ has a row).
pub const REGION_OVERRIDE: [(&'static str, &'static str); 53] = [
    ("aztecs", "Mesoamerican"),
    ("mayans", "Mesoamerican"),
    ("incas", "South American"),
    ("huns", "Central Asian"),
    ("mongols", "East Asian"),
    ("chinese", "East Asian"),
    ("japanese", "East Asian"),
    ("koreans", "East Asian"),
    ("byzantines", "Eastern Mediterranean"),
    ("persians", "Middle Eastern"),
    ("saracens", "Middle Eastern"),
    ("turks", "Middle Eastern"),
    ("teutons", "Central European"),
    ("celts", "Western European"),
    ("franks", "Western European"),
    ("britons", "Western European"),
    ("vikings", "Northern European"),
    ("goths", "Northern European"),
    ("slavs", "Eastern European"),
    ("bulgarians", "Eastern European"),
    ("bohemians", "Eastern European"),
    ("poles", "Eastern European"),
    ("lithuanians", "Eastern European"),
    ("cumans", "Central Asian"),
    ("tatars", "Central Asian"),
    ("berbers", "North African"),
    ("malians", "West African"),
    ("ethiopians", "East African"),
    ("malay", "Southeast Asian"),
    ("burmese", "Southeast Asian"),
    ("khmer", "Southeast Asian"),
    ("vietnamese", "Southeast Asian"),
    ("italians", "Southern European"),
    ("spanish", "Southern European"),
    ("portuguese", "Southern European"),
    ("sicilians", "Southern European"),
    ("burgundians", "Western European"),
    ("magyars", "Eastern European"),
    ("hindustanis", "South Asian"),
    ("dravidians", "South Asian"),
    ("bengalis", "South Asian"),
    ("gurjaras", "South Asian"),
    ("georgians", "Caucasian"),
    ("armenians", "Caucasian"),
    ("mapuche", "South American"),
    ("romans", "Ancient Mediterranean"),
    ("shu", "East Asian"),
    ("wei", "East Asian"),
    ("wu", "East Asian"),
    ("jurchens", "East Asian"),
    ("khitans", "East Asian"),
    ("tupi", "South American"),
    ("muisca", "South American"),
];

/// Region label to the noun phrase used in tagline prose.
pub const REGION_NOUN: [(&'static str, &'static str); 19] = [
    ("Ancient Mediterranean", "the Ancient Mediterranean"),
    ("Ancient Middle Eastern", "the Ancient Middle East"),
    ("Caucasian", "the Caucasus"),
    ("Central Asian", "Central Asia"),
    ("Central European", "Central Europe"),
    ("East African", "East Africa"),
    ("East Asian", "East Asia"),
    ("Eastern European", "Eastern Europe"),
    ("Eastern Mediterranean", "the Eastern Mediterranean"),
    ("Mesoamerican", "Mesoamerica"),
    ("Middle Eastern", "the Middle East"),
    ("North African", "North Africa"),
    ("Northern European", "Northern Europe"),
    ("South American", "South America"),
    ("South Asian", "South Asia"),
    ("Southeast Asian", "Southeast Asia"),
    ("Southern European", "Southern Europe"),
    ("West African", "West Africa"),
    ("Western European", "Western Europe"),
];

/// The civs whose help text omits or reorders a unique unit, so their unique-unit list
/// comes from `unique_unit_override_for` instead.
pub const UNIQUE_UNIT_OVERRIDE: [&'static str; 3] = ["incas", "hindustanis", "portuguese"];

/// The curated unique-unit list of a civ slug, if it has one.
pub open spec fn unique_unit_override_spec(slug: Seq<char>) -> Option<Seq<Seq<char>>> {
    if slug == "incas"@ {
        Some(seq!["kamayuk"@, "slinger"@])
    } else if slug == "hindustanis"@ {
        Some(seq!["elephant-archer"@, "imperial-camel-rider"@, "ghulam"@])
    } else if slug == "portuguese"@ {
        Some(seq!["caravel"@, "organ-gun"@])
    } else {
        None
    }
}

/// The views of a list of `str`s.
pub open spec fn strs_view(v: Seq<&'static str>) -> Seq<Seq<char>> {
    v.map_values(|s: &'static str| s@)
}

/// Index of the first row of `table` whose key is `key`, or -1.
pub open spec fn first_key_index<V>(table: Seq<(&'static str, V)>, key: Seq<char>) -> int
    decreases table.len(),
{
    if table.len() == 0 {
        -1
    } else if first_key_index(table.drop_last(), key) != -1 {
        first_key_index(table.drop_last(), key)
    } else if table.last().0@ == key {
        table.len() - 1
    } else {
        -1
    }
}

/// Characterizes `first_key_index`: the least index with that key, or -1 when none.
pub proof fn lemma_first_key_index<V>(table: Seq<(&'static str, V)>, key: Seq<char>)
    ensures
        first_key_index(table, key) == -1 <==> forall|j: int|
            0 <= j < table.len() ==> (#[trigger] table[j]).0@ != key,
        first_key_index(table, key) != -1 ==> {
            let i = first_key_index(table, key);
            &&& 0 <= i < table.len()
            &&& table[i].0@ == key
            &&& forall|j: int| 0 <= j < i ==> (#[trigger] table[j]).0@ != key
        },
    decreases table.len(),
{
    if table.len() > 0 {
        lemma_first_key_index(table.drop_last(), key);
        assert forall|j: int| 0 <= j < table.len() - 1 implies table.drop_last()[j] == table[j] by {}
    }
}

/// The index of the first row of `table` keyed `key`.
fn lookup<V: Copy>(table: &[(&'static str, V)], key: &str) -> (r: Option<usize>)
    ensures
        match r {
            Some(i) => first_key_index(table@, key@) == i,
            None => first_key_index(table@, key@) == -1,
        },
{
    proof {
        lemma_first_key_index(table@, key@);
    }
    let mut i: usize = 0;
    while i < table.len()
        invariant
            i <= table@.len(),
            forall|j: int| 0 <= j < i ==> (#[trigger] table@[j]).0@ != key@,
            first_key_index(table@, key@) == -1 <==> forall|j: int|
                0 <= j < table@.len() ==> (#[trigger] table@[j]).0@ != key@,
            first_key_index(table@, key@) != -1 ==> {
                let t = first_key_index(table@, key@);
                &&& 0 <= t < table@.len()
                &&& table@[t].0@ == key@
                &&& forall|j: int| 0 <= j < t ==> (#[trigger] table@[j]).0@ != key@
            },
        decreases table@.len() - i,
    {
        if str_eq(table[i].0, key) {
            return Some(i);
        }
        i = i + 1;
    }
    None
}

/// Looks up a civ slug's region; a civ with no row is `MissingCivRegion`.
pub fn region_for(slug: &str) -> (r: Result<&'static str>)
    ensures
        first_key_index(REGION_OVERRIDE@, slug@) == -1 ==> (r matches Err(
            RefdataError::MissingCivRegion { slug: s },
        ) && s@ == slug@),
        first_key_index(REGION_OVERRIDE@, slug@) != -1 ==> (r matches Ok(v) && v
            == REGION_OVERRIDE@[first_key_index(REGION_OVERRIDE@, slug@)].1),
{
    broadcast use vstd::string::to_string_from_display_ensures_for_str;

    proof {
        lemma_first_key_index(REGION_OVERRIDE@, slug@);
    }
    match lookup(&REGION_OVERRIDE, slug) {
        Some(i) => Ok(REGION_OVERRIDE[i].1),
        None => Err(RefdataError::MissingCivRegion { slug: slug.to_string() }),
    }
}

/// A region's noun phrase, or the region label itself when the table has no row for it.
pub fn region_noun_for(region: &str) -> (r: String)
    ensures
        first_key_index(REGION_NOUN@, region@) == -1 ==> r@ == region@,
        first_key_index(REGION_NOUN@, region@) != -1 ==> r@ == REGION_NOUN@[first_key_index(
            REGION_NOUN@,
            region@,
        )].1@,
{
    broadcast use vstd::string::to_string_from_display_ensures_for_str;

    proof {
        lemma_first_key_index(REGION_NOUN@, region@);
    }
    match lookup(&REGION_NOUN, region) {
        Some(i) => REGION_NOUN[i].1.to_string(),
        None => region.to_string(),
    }
}

/// A civ slug's curated unique-unit list, if it has one.
pub fn unique_unit_override_for(slug: &str) -> (r: Option<&'static [&'static str]>)
    ensures
        match r {
            Some(v) => unique_unit_override_spec(slug@) == Some(strs_view(v@)),
            None => unique_unit_override_spec(slug@) is None,
        },
{
    if str_eq(slug, "incas") {
        let v: &'static [&'static str] = &["kamayuk", "slinger"];
        assert(strs_view(v@) =~= seq!["kamayuk"@, "slinger"@]);
        Some(v)
    } else if str_eq(slug, "hindustanis") {
        let v: &'static [&'static str] = &["elephant-archer", "imperial-camel-rider", "ghulam"];
        assert(strs_view(v@) =~= seq!["elephant-archer"@, "imperial-camel-rider"@, "ghulam"@]);
        Some(v)
    } else if str_eq(slug, "portuguese") {
        let v: &'static [&'static str] = &["caravel", "organ-gun"];
        assert(strs_view(v@) =~= seq!["caravel"@, "organ-gun"@]);
        Some(v)
    } else {
        None
    }
}

// ---------------------------------------------------------------------------------------
// Specialty cleanup.

/// `s` with every (ASCII case-insensitive) occurrence of the lowercased needle `nl`
/// replaced by `repl`, scanning left to right over non-overlapping matches.
pub open spec fn replace_ci_spec(s: Seq<char>, nl: Seq<char>, repl: Seq<char>) -> Seq<char>
    decreases s.len(),
{
    let i = find(ascii_lower_seq(s), nl);
    if nl.len() == 0 || i == -1 {
        s
    } else {
        proof {
            lemma_find(ascii_lower_seq(s), nl);
        }
        s.subrange(0, i) + repl + replace_ci_spec(s.subrange(i + nl.len(), s.len() as int), nl, repl)
    }
}

/// A regex word char: ASCII letter, digit or `'_'`.
pub open spec fn is_word_char_spec(c: char) -> bool {
    ('a' <= c && c <= 'z') || ('A' <= c && c <= 'Z') || ('0' <= c && c <= '9') || c == '_'
}

/// A regex `\b` at index `idx` of `s`: the chars on either side (a missing one counts
/// as a non-word char) differ in word-ness.
pub open spec fn word_boundary(s: Seq<char>, idx: int) -> bool {
    let before = 0 < idx <= s.len() && is_word_char_spec(s[idx - 1]);
    let after = 0 <= idx < s.len() && is_word_char_spec(s[idx]);
    before != after
}

/// Whether the lowercased word `wl` occurs case-insensitively at `i` as a whole word.
pub open spec fn word_ci_at(s: Seq<char>, wl: Seq<char>, i: int) -> bool {
    matches_at(ascii_lower_seq(s), wl, i) && word_boundary(s, i) && word_boundary(s, i + wl.len())
}

/// Removes each whole-word, case-insensitive occurrence of `wl` from `s[i..]`, together
/// with the whitespace before it, appending the kept chars to `out`.
pub open spec fn remove_word_from(s: Seq<char>, wl: Seq<char>, i: int, out: Seq<char>) -> Seq<
    char,
>
    decreases s.len() - i,
{
    if i < 0 || i >= s.len() {
        out
    } else if wl.len() > 0 && word_ci_at(s, wl, i) {
        remove_word_from(s, wl, i + wl.len(), crate::text::trim_end(out))
    } else {
        remove_word_from(s, wl, i + 1, out.push(s[i]))
    }
}

/// Replaces each whole-word (case-sensitive) occurrence of `w` in `s[i..]` with `r`.
pub open spec fn replace_word_from(s: Seq<char>, w: Seq<char>, r: Seq<char>, i: int) -> Seq<char>
    decreases s.len() - i,
{
    if i < 0 || i >= s.len() {
        Seq::empty()
    } else if w.len() > 0 && matches_at(s, w, i) && word_boundary(s, i) && word_boundary(
        s,
        i + w.len(),
    ) {
        r + replace_word_from(s, w, r, i + w.len())
    } else {
        seq![s[i]] + replace_word_from(s, w, r, i + 1)
    }
}

/// `s` split at the (ASCII case-insensitive) occurrences of the lowercased separator.
pub open spec fn split_ci_spec(s: Seq<char>, sl: Seq<char>) -> Seq<Seq<char>>
    decreases s.len(),
{
    let i = find(ascii_lower_seq(s), sl);
    if sl.len() == 0 || i == -1 {
        seq![s]
    } else {
        proof {
            lemma_find(ascii_lower_seq(s), sl);
        }
        seq![s.subrange(0, i)] + split_ci_spec(s.subrange(i + sl.len(), s.len() as int), sl)
    }
}

/// The index of the first whitespace char of `s` at or after `i`, or `s.len()`.
pub open spec fn ws_index_from(s: Seq<char>, i: int) -> int
    decreases s.len() - i,
{
    if i < 0 {
        0
    } else if i >= s.len() || is_ws(s[i]) {
        i
    } else {
        ws_index_from(s, i + 1)
    }
}

pub proof fn lemma_ws_index_from(s: Seq<char>, i: int)
    requires
        0 <= i <= s.len(),
    ensures
        i <= ws_index_from(s, i) <= s.len(),
        i < s.len() && !is_ws(s[i]) ==> ws_index_from(s, i) > i,
        forall|j: int| i <= j < ws_index_from(s, i) ==> !is_ws(#[trigger] s[j]),
        ws_index_from(s, i) < s.len() ==> is_ws(s[ws_index_from(s, i)]),
    decreases s.len() - i,
{
    if i < s.len() && !is_ws(s[i]) {
        lemma_ws_index_from(s, i + 1);
    }
}

pub proof fn lemma_trim_start_len(s: Seq<char>)
    ensures
        trim_start(s).len() <= s.len(),
        trim_start(s).len() > 0 ==> !is_ws(trim_start(s)[0]),
    decreases s.len(),
{
    if s.len() > 0 && is_ws(s[0]) {
        lemma_trim_start_len(s.drop_first());
    }
}

/// `str::split_whitespace`: the maximal runs of non-whitespace chars.
pub open spec fn words(s: Seq<char>) -> Seq<Seq<char>>
    decreases s.len(),
{
    let t = trim_start(s);
    if t.len() == 0 {
        Seq::empty()
    } else {
        proof {
            lemma_trim_start_len(s);
            lemma_ws_index_from(t, 0);
        }
        let k = ws_index_from(t, 0);
        seq![t.subrange(0, k)] + words(t.subrange(k, t.len() as int))
    }
}

/// The pieces of `parts` joined by `sep`.
pub open spec fn join(parts: Seq<Seq<char>>, sep: Seq<char>) -> Seq<char>
    decreases parts.len(),
{
    if parts.len() == 0 {
        Seq::empty()
    } else if parts.len() == 1 {
        parts[0]
    } else {
        join(parts.drop_last(), sep) + sep + parts.last()
    }
}

/// First char uppercased, the rest lowercased.
pub open spec fn title_case_word_spec(w: Seq<char>) -> Seq<char> {
    if w.len() == 0 {
        Seq::empty()
    } else {
        char_uppercase_of(w[0]) + lowercase_of(w.drop_first())
    }
}

/// Each whitespace-separated word title-cased, joined by single spaces.
pub open spec fn title_case_words_spec(s: Seq<char>) -> Seq<char> {
    join(words(s).map_values(|w: Seq<char>| title_case_word_spec(w)), seq![' '])
}

/// The cleaned-up `specialty` of a raw civ-type line.
pub open spec fn fix_specialty_spec(raw: Seq<char>) -> Seq<char> {
    let no_typos = replace_ci_spec(raw, ascii_lower_seq("Calvary"@), "Cavalry"@);
    let no_civilzation = remove_word_from(
        no_typos,
        ascii_lower_seq("Civilzation"@),
        0,
        Seq::empty(),
    );
    let trimmed = trim(no_civilzation);
    let joined = join(
        split_ci_spec(trimmed, ascii_lower_seq(" and "@)).map_values(
            |p: Seq<char>| title_case_words_spec(p),
        ),
        " and "@,
    );
    let singular = replace_word_from(joined, "Archers"@, "Archer"@, 0);
    if singular == "Cavalry Infantry"@ {
        "Cavalry and Infantry"@
    } else {
        singular
    }
}

/// Case-insensitive (ASCII) replace-all of a non-empty needle.
fn replace_ci(s: &[char], needle: &[char], repl: &[char]) -> (r: Vec<char>)
    requires
        needle@.len() > 0,
    ensures
        r@ == replace_ci_spec(s@, ascii_lower_seq(needle@), repl@),
{
    let nl = ascii_lower_chars(needle);
    let mut out: Vec<char> = Vec::new();
    let mut rest = copy_chars(s);
    loop
        invariant
            nl@ == ascii_lower_seq(needle@),
            nl@.len() > 0,
            out@ + replace_ci_spec(rest@, nl@, repl@) == replace_ci_spec(s@, nl@, repl@),
        decreases rest@.len(),
    {
        let rest_lower = ascii_lower_chars(&rest);
        match find_chars(&rest_lower, &nl) {
            None => {
                push_all(&mut out, &rest);
                return out;
            },
            Some(idx) => {
                proof {
                    lemma_find(rest_lower@, nl@);
                }
                assert(matches_at(rest_lower@, nl@, idx as int));
                let rl = rest.len();
                let nlen = nl.len();
                let head = subvec(&rest, 0, idx);
                let next = subvec(&rest, idx + nlen, rl);
                let ghost old_out = out@;
                push_all(&mut out, &head);
                push_all(&mut out, repl);
                assert(old_out + (head@ + repl@ + replace_ci_spec(next@, nl@, repl@)) =~= out@
                    + replace_ci_spec(next@, nl@, repl@));
                rest = next;
            },
        }
    }
}

/// Whether `c` is a regex word char.
fn is_word_char_c(c: char) -> (r: bool)
    ensures
        r == is_word_char_spec(c),
{
    ('a' <= c && c <= 'z') || ('A' <= c && c <= 'Z') || ('0' <= c && c <= '9') || c == '_'
}

/// `\b` at a char index.
fn word_boundary_c(s: &[char], idx: usize) -> (r: bool)
    ensures
        r == word_boundary(s@, idx as int),
{
    let before = idx > 0 && idx <= s.len() && is_word_char_c(s[idx - 1]);
    let after = idx < s.len() && is_word_char_c(s[idx]);
    before != after
}

/// A regex `\b` at byte offset `idx`: the bytes on either side (a missing one counts as a
/// non-word byte) differ in being ASCII word bytes.
pub fn is_word_boundary(bytes: &[u8], idx: usize) -> (r: bool)
    ensures
        r == ((0 < idx <= bytes@.len() && is_word_byte(bytes@[idx - 1])) != (idx < bytes@.len()
            && is_word_byte(bytes@[idx as int]))),
{
    let before = idx > 0 && idx <= bytes.len() && is_word_byte_b(bytes[idx - 1]);
    let after = idx < bytes.len() && is_word_byte_b(bytes[idx]);
    before != after
}

/// An ASCII letter, digit or `_` byte.
pub open spec fn is_word_byte(b: u8) -> bool {
    (97 <= b <= 122) || (65 <= b <= 90) || (48 <= b <= 57) || b == 95
}

fn is_word_byte_b(b: u8) -> (r: bool)
    ensures
        r == is_word_byte(b),
{
    (97 <= b && b <= 122) || (65 <= b && b <= 90) || (48 <= b && b <= 57) || b == 95
}

/// Removes each whole-word, case-insensitive occurrence of a non-empty word, with the
/// whitespace before it.
fn remove_word_ci(s: &[char], word: &[char]) -> (r: Vec<char>)
    requires
        word@.len() > 0,
    ensures
        r@ == remove_word_from(s@, ascii_lower_seq(word@), 0, Seq::empty()),
{
    let lower = ascii_lower_chars(s);
    let wl = ascii_lower_chars(word);
    let mut out: Vec<char> = Vec::new();
    let mut i: usize = 0;
    while i < s.len()
        invariant
            i <= s@.len(),
            lower@ == ascii_lower_seq(s@),
            wl@ == ascii_lower_seq(word@),
            wl@.len() > 0,
            remove_word_from(s@, wl@, 0, Seq::empty()) == remove_word_from(s@, wl@, i as int, out@),
        decreases s@.len() - i,
    {
        if match_at(&lower, &wl, i) && word_boundary_c(s, i) && word_boundary_c(s, i + wl.len()) {
            let k = crate::text::trim_end_index(&out);
            out.truncate(k);
            i = i + wl.len();
        } else {
            out.push(s[i]);
            i = i + 1;
        }
    }
    out
}

/// Replaces each whole-word (case-sensitive) occurrence of a non-empty word.
fn replace_whole_word(s: &[char], word: &[char], repl: &[char]) -> (r: Vec<char>)
    requires
        word@.len() > 0,
    ensures
        r@ == replace_word_from(s@, word@, repl@, 0),
{
    let mut out: Vec<char> = Vec::new();
    let mut i: usize = 0;
    while i < s.len()
        invariant
            i <= s@.len(),
            word@.len() > 0,
            replace_word_from(s@, word@, repl@, 0) == out@ + replace_word_from(
                s@,
                word@,
                repl@,
                i as int,
            ),
        decreases s@.len() - i,
    {
        let ghost old_out = out@;
        if match_at(s, word, i) && word_boundary_c(s, i) && word_boundary_c(s, i + word.len()) {
            push_all(&mut out, repl);
            assert(old_out + (repl@ + replace_word_from(s@, word@, repl@, i + word@.len())) =~= out@
                + replace_word_from(s@, word@, repl@, i + word@.len()));
            i = i + word.len();
        } else {
            out.push(s[i]);
            assert(old_out + (seq![s@[i as int]] + replace_word_from(s@, word@, repl@, i + 1))
                =~= out@ + replace_word_from(s@, word@, repl@, i + 1));
            i = i + 1;
        }
    }
    assert(out@ + Seq::<char>::empty() =~= out@);
    out
}

/// Splits at the (ASCII case-insensitive) occurrences of a non-empty separator.
fn split_ci(s: &[char], sep: &[char]) -> (r: Vec<Vec<char>>)
    requires
        sep@.len() > 0,
    ensures
        views(r@) == split_ci_spec(s@, ascii_lower_seq(sep@)),
{
    let sl = ascii_lower_chars(sep);
    let mut out: Vec<Vec<char>> = Vec::new();
    let mut rest = copy_chars(s);
    assert(views(out@) =~= Seq::<Seq<char>>::empty());
    assert(views(out@) + split_ci_spec(rest@, sl@) =~= split_ci_spec(s@, sl@));
    loop
        invariant
            sl@ == ascii_lower_seq(sep@),
            sl@.len() > 0,
            views(out@) + split_ci_spec(rest@, sl@) == split_ci_spec(s@, sl@),
        decreases rest@.len(),
    {
        let rest_lower = ascii_lower_chars(&rest);
        let ghost old_out = out@;
        match find_chars(&rest_lower, &sl) {
            None => {
                let ghost rv = rest@;
                out.push(rest);
                assert(views(out@) =~= views(old_out).push(rv));
                assert(views(old_out) + seq![rv] =~= views(out@));
                return out;
            },
            Some(idx) => {
                proof {
                    lemma_find(rest_lower@, sl@);
                }
                assert(matches_at(rest_lower@, sl@, idx as int));
                let rl = rest.len();
                let slen = sl.len();
                let piece = subvec(&rest, 0, idx);
                let next = subvec(&rest, idx + slen, rl);
                out.push(piece);
                assert(views(out@) =~= views(old_out).push(piece@));
                assert(views(old_out) + (seq![piece@] + split_ci_spec(next@, sl@)) =~= views(out@)
                    + split_ci_spec(next@, sl@));
                rest = next;
            },
        }
    }
}

/// `str::split_whitespace`, collected.
pub(crate) fn split_whitespace(s: &[char]) -> (r: Vec<Vec<char>>)
    ensures
        views(r@) == words(s@),
{
    let mut out: Vec<Vec<char>> = Vec::new();
    let mut rest = copy_chars(s);
    assert(views(out@) =~= Seq::<Seq<char>>::empty());
    assert(views(out@) + words(rest@) =~= words(s@));
    loop
        invariant
            views(out@) + words(rest@) == words(s@),
        decreases rest@.len(),
    {
        let t = trim_start_chars(&rest);
        proof {
            lemma_trim_start_len(rest@);
        }
        if t.len() == 0 {
            assert(words(rest@) =~= Seq::<Seq<char>>::empty());
            assert(views(out@) + Seq::<Seq<char>>::empty() =~= views(out@));
            return out;
        }
        let mut k: usize = 0;
        proof {
            lemma_ws_index_from(t@, 0);
        }
        while k < t.len() && !is_whitespace(t[k])
            invariant
                k <= t@.len(),
                ws_index_from(t@, 0) == ws_index_from(t@, k as int),
            decreases t@.len() - k,
        {
            k = k + 1;
        }
        let tl = t.len();
        let piece = subvec(&t, 0, k);
        let next = subvec(&t, k, tl);
        let ghost old_out = out@;
        out.push(piece);
        assert(views(out@) =~= views(old_out).push(piece@));
        assert(views(old_out) + (seq![piece@] + words(next@)) =~= views(out@) + words(next@));
        rest = next;
    }
}

/// Joins pieces with a separator.
pub(crate) fn join_chars(parts: &Vec<Vec<char>>, sep: &[char]) -> (r: Vec<char>)
    ensures
        r@ == join(views(parts@), sep@),
{
    if parts.len() == 0 {
        return Vec::new();
    }
    let mut out = copy_chars(&parts[0]);
    let mut i: usize = 1;
    assert(views(parts@).subrange(0, 1).len() == 1);
    while i < parts.len()
        invariant
            1 <= i <= parts@.len(),
            out@ == join(views(parts@).subrange(0, i as int), sep@),
        decreases parts@.len() - i,
    {
        push_all(&mut out, sep);
        push_all(&mut out, &parts[i]);
        assert(views(parts@).subrange(0, i + 1).drop_last() =~= views(parts@).subrange(0, i as int));
        i = i + 1;
    }
    assert(views(parts@).subrange(0, parts@.len() as int) =~= views(parts@));
    out
}

/// First char uppercased, the rest lowercased.
fn title_case_word(w: &[char]) -> (r: Vec<char>)
    ensures
        r@ == title_case_word_spec(w@),
{
    if w.len() == 0 {
        return Vec::new();
    }
    let mut out = char_to_uppercase(w[0]);
    let tail = subvec(w, 1, w.len());
    assert(tail@ == w@.drop_first());
    let tail_s = string_of(&tail);
    let lower = str_to_lowercase(tail_s.as_str());
    let lower_chars = chars_of(lower.as_str());
    push_all(&mut out, &lower_chars);
    out
}

/// Each whitespace-separated word title-cased, joined by single spaces.
fn title_case_words(s: &[char]) -> (r: Vec<char>)
    ensures
        r@ == title_case_words_spec(s@),
{
    let ws = split_whitespace(s);
    let mut cased: Vec<Vec<char>> = Vec::new();
    let mut i: usize = 0;
    while i < ws.len()
        invariant
            i <= ws@.len(),
            views(cased@) == views(ws@).subrange(0, i as int).map_values(
                |w: Seq<char>| title_case_word_spec(w),
            ),
        decreases ws@.len() - i,
    {
        let t = title_case_word(&ws[i]);
        let ghost old_c = cased@;
        cased.push(t);
        assert(views(cased@) =~= views(old_c).push(t@));
        assert(views(ws@).subrange(0, i + 1).map_values(|w: Seq<char>| title_case_word_spec(w))
            =~= views(ws@).subrange(0, i as int).map_values(
            |w: Seq<char>| title_case_word_spec(w),
        ).push(title_case_word_spec(ws@[i as int]@)));
        i = i + 1;
    }
    assert(views(ws@).subrange(0, ws@.len() as int) =~= views(ws@));
    let sp: Vec<char> = vec![' '];
    assert(sp@ == seq![' ']);
    join_chars(&cased, &sp)
}

/// Cleans a civ's raw parsed type line into its `specialty`: fixes the `Calvary` typo,
/// drops a stray `Civilzation` word, title-cases each `" and "`-separated part, makes
/// `Archers` singular, and expands `"Cavalry Infantry"`.
pub fn fix_specialty(raw: &str) -> (r: String)
    ensures
        r@ == fix_specialty_spec(raw@),
{
    let raw_c = chars_of(raw);
    let calvary = chars_of("Calvary");
    let cavalry = chars_of("Cavalry");
    proof {
        reveal_strlit("Calvary");
    }
    let no_typos = replace_ci(&raw_c, &calvary, &cavalry);
    let civilzation = chars_of("Civilzation");
    proof {
        reveal_strlit("Civilzation");
    }
    let no_civilzation = remove_word_ci(&no_typos, &civilzation);
    let trimmed = trim_chars(&no_civilzation);
    let and_sep = chars_of(" and ");
    proof {
        reveal_strlit(" and ");
    }
    let parts = split_ci(&trimmed, &and_sep);
    let mut cased: Vec<Vec<char>> = Vec::new();
    let mut i: usize = 0;
    while i < parts.len()
        invariant
            i <= parts@.len(),
            views(cased@) == views(parts@).subrange(0, i as int).map_values(
                |p: Seq<char>| title_case_words_spec(p),
            ),
        decreases parts@.len() - i,
    {
        let t = title_case_words(&parts[i]);
        let ghost old_c = cased@;
        cased.push(t);
        assert(views(cased@) =~= views(old_c).push(t@));
        assert(views(parts@).subrange(0, i + 1).map_values(|p: Seq<char>| title_case_words_spec(p))
            =~= views(parts@).subrange(0, i as int).map_values(
            |p: Seq<char>| title_case_words_spec(p),
        ).push(title_case_words_spec(parts@[i as int]@)));
        i = i + 1;
    }
    assert(views(parts@).subrange(0, parts@.len() as int) =~= views(parts@));
    let joined = join_chars(&cased, &and_sep);
    let archers = chars_of("Archers");
    let archer = chars_of("Archer");
    proof {
        reveal_strlit("Archers");
    }
    let singular = replace_whole_word(&joined, &archers, &archer);
    let special = chars_of("Cavalry Infantry");
    if chars_eq(&singular, &special) {
        "Cavalry and Infantry".to_string()
    } else {
        string_of(&singular)
    }
}

} // verus!
