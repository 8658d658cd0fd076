//! The civilizations document (English data layer) and the bilingual civ-help-strings
//! document, from the raw civ help strings, the help-text parser and the curated region
//! and unique-unit tables. Civs are emitted in slug order.
use vstd::prelude::*;

use crate::refdata::civ_help::{
    lang_label, parse_help_spec, require_parsed, strings_view, techs_view, HelpParse, HelpView,
    Lang, UniqueTechText,
};
use crate::refdata::civ_region::{
    first_key_index, fix_specialty, fix_specialty_spec, region_for, region_noun_for,
    strs_view, unique_unit_override_for, unique_unit_override_spec, REGION_NOUN, REGION_OVERRIDE,
};
use crate::refdata::civs::RawCiv;
use crate::refdata::error::{RefdataError, Result};
use crate::refdata::model::{
    CivEntry, CivHelpEntry, CivHelpLang, CivHelpStringsDoc, CivUniqueTech, CivUniqueTechs,
    CivilizationsDoc, NameMapProvenance,
};
use crate::str_map::{assoc_insert, sorted_as, StrMap};
use crate::text::{chars_eq, chars_lt, chars_of, lemma_lex_order, lex_lt, lowercase_of, str_to_lowercase, string_of};

verus! {

/// The patch label both civ documents carry.
pub const PATCH: &'static str = "v100.1.84";

/// The pinned upstream tech-tree source revision.
pub const AOE2TECHTREE_SHA: &'static str = "b9d494df6921d4080df69b22f9dbb7a4d1dcd9f0";

/// The civ-help-strings document's provenance note.
pub const PROVENANCE_NOTE: &'static str = "Bilingual (EN+TR) civ bonus/unique-tech/unique-unit/team-bonus text, parsed from aoe2techtree's per-civ 'help' strings (data/strings-en.json + data/strings-tr.json, keyed by civ.help_string_id) with the same section-marker logic as the old scripts/lib/parse-help.mjs. Intermediate output — NOT a committed src/data/ file; consumed by scripts/build-civilizations.mjs's thin YAML wrapper (see pipeline/crates/refdata/src/civilizations.rs's module doc for the exact wrapper contract). uniqueTechs[*].name here is the (possibly-translated) name from THIS language's help text; the wrapper must still use the EN name for BOTH languages' YAML output (unique-tech proper nouns are allow-listed EN-only site-wide) — only effect is sourced per-language.";

// --- slugs ---------------------------------------------------------------------------

/// `s` without ASCII apostrophes.
pub open spec fn drop_apostrophes(s: Seq<char>) -> Seq<char>
    decreases s.len(),
{
    if s.len() == 0 {
        Seq::empty()
    } else if s.last() == '\'' {
        drop_apostrophes(s.drop_last())
    } else {
        drop_apostrophes(s.drop_last()).push(s.last())
    }
}

/// A char a civ slug keeps as is: an ASCII lowercase letter or digit.
pub open spec fn slug_char(c: char) -> bool {
    ('a' <= c && c <= 'z') || ('0' <= c && c <= '9')
}

/// `s` with every run of other chars turned into one `-` (`in_run`: whether a run is
/// already open before `s`).
pub open spec fn hyphen_runs(s: Seq<char>, in_run: bool) -> Seq<char>
    decreases s.len(),
{
    if s.len() == 0 {
        Seq::empty()
    } else if slug_char(s[0]) {
        seq![s[0]] + hyphen_runs(s.drop_first(), false)
    } else if in_run {
        hyphen_runs(s.drop_first(), true)
    } else {
        seq!['-'] + hyphen_runs(s.drop_first(), true)
    }
}

/// `s` without leading `-`s.
pub open spec fn trim_start_hyphens(s: Seq<char>) -> Seq<char>
    decreases s.len(),
{
    if s.len() > 0 && s[0] == '-' {
        trim_start_hyphens(s.drop_first())
    } else {
        s
    }
}

/// `s` without trailing `-`s.
pub open spec fn trim_end_hyphens(s: Seq<char>) -> Seq<char>
    decreases s.len(),
{
    if s.len() > 0 && s.last() == '-' {
        trim_end_hyphens(s.drop_last())
    } else {
        s
    }
}

/// The slug of a civ or unit name: apostrophes dropped, lowercased, every run of chars
/// other than ASCII lowercase letters and digits turned into one `-`, leading and trailing
/// `-`s trimmed.
pub open spec fn civ_slug_of(name: Seq<char>) -> Seq<char> {
    trim_end_hyphens(trim_start_hyphens(hyphen_runs(lowercase_of(drop_apostrophes(name)), false)))
}

fn trim_hyphens(v: &Vec<char>) -> (r: Vec<char>)
    ensures
        r@ == trim_end_hyphens(trim_start_hyphens(v@)),
{
    let mut a: usize = 0;
    assert(v@.subrange(0, v@.len() as int) == v@);
    while a < v.len() && v[a] == '-'
        invariant
            a <= v@.len(),
            trim_start_hyphens(v@) == trim_start_hyphens(v@.subrange(a as int, v@.len() as int)),
        decreases v@.len() - a,
    {
        let ghost rest = v@.subrange(a as int, v@.len() as int);
        assert(rest.drop_first() == v@.subrange(a + 1, v@.len() as int));
        a = a + 1;
    }
    let ghost mid = v@.subrange(a as int, v@.len() as int);
    assert(trim_start_hyphens(v@) == mid);
    let mut b: usize = v.len();
    assert(mid.subrange(0, mid.len() as int) == mid);
    while b > a && v[b - 1] == '-'
        invariant
            a <= b <= v@.len(),
            mid == v@.subrange(a as int, v@.len() as int),
            trim_end_hyphens(mid) == trim_end_hyphens(v@.subrange(a as int, b as int)),
        decreases b,
    {
        let ghost cur = v@.subrange(a as int, b as int);
        assert(cur.drop_last() == v@.subrange(a as int, b - 1));
        b = b - 1;
    }
    let mut out: Vec<char> = Vec::new();
    let mut i = a;
    while i < b
        invariant
            a <= i <= b,
            b <= v@.len(),
            out@ == v@.subrange(a as int, i as int),
        decreases b - i,
    {
        out.push(v[i]);
        assert(v@.subrange(a as int, i + 1) == v@.subrange(a as int, i as int).push(v@[i as int]));
        i = i + 1;
    }
    out
}

fn civ_slug_chars(name: &str) -> (r: Vec<char>)
    ensures
        r@ == civ_slug_of(name@),
{
    let cs = chars_of(name);
    let mut kept: Vec<char> = Vec::new();
    let mut i: usize = 0;
    while i < cs.len()
        invariant
            i <= cs@.len(),
            kept@ == drop_apostrophes(cs@.subrange(0, i as int)),
        decreases cs@.len() - i,
    {
        assert(cs@.subrange(0, i + 1).drop_last() == cs@.subrange(0, i as int));
        if cs[i] != '\'' {
            kept.push(cs[i]);
        }
        i = i + 1;
    }
    assert(cs@.subrange(0, cs@.len() as int) == cs@);
    let lower = str_to_lowercase(string_of(&kept).as_str());
    let lc = chars_of(lower.as_str());
    let mut out: Vec<char> = Vec::new();
    let mut in_run = false;
    let mut k: usize = 0;
    assert(lc@.subrange(0, lc@.len() as int) == lc@);
    while k < lc.len()
        invariant
            k <= lc@.len(),
            out@ + hyphen_runs(lc@.subrange(k as int, lc@.len() as int), in_run) == hyphen_runs(lc@, false),
        decreases lc@.len() - k,
    {
        let ghost rest = lc@.subrange(k as int, lc@.len() as int);
        assert(rest[0] == lc@[k as int]);
        assert(rest.drop_first() == lc@.subrange(k + 1, lc@.len() as int));
        let c = lc[k];
        let ghost old_out = out@;
        if ('a' <= c && c <= 'z') || ('0' <= c && c <= '9') {
            out.push(c);
            in_run = false;
            assert(old_out + (seq![c] + hyphen_runs(rest.drop_first(), false)) == out@
                + hyphen_runs(rest.drop_first(), false));
        } else if !in_run {
            out.push('-');
            in_run = true;
            assert(old_out + (seq!['-'] + hyphen_runs(rest.drop_first(), true)) == out@
                + hyphen_runs(rest.drop_first(), true));
        }
        k = k + 1;
    }
    assert(out@ + Seq::<char>::empty() == out@);
    trim_hyphens(&out)
}

/// The slug of a civ or unit name (`"Elephant Archer"` -> `"elephant-archer"`).
pub fn civ_slug(name: &str) -> (r: String)
    ensures
        r@ == civ_slug_of(name@),
{
    string_of(&civ_slug_chars(name))
}

// --- unique units ---------------------------------------------------------------------

/// The distinct non-empty slugs of the names, in order of first appearance.
pub open spec fn unit_slugs(names: Seq<Seq<char>>) -> Seq<Seq<char>>
    decreases names.len(),
{
    if names.len() == 0 {
        Seq::empty()
    } else {
        let prev = unit_slugs(names.drop_last());
        let s = civ_slug_of(names.last());
        if s.len() > 0 && !prev.contains(s) {
            prev.push(s)
        } else {
            prev
        }
    }
}

/// A civ's unique units: its curated list where it has one, else the slugs of its
/// help-text unique-unit names; `None` when that comes out empty.
pub open spec fn unique_units_of(slug: Seq<char>, help_names: Seq<Seq<char>>) -> Option<Seq<Seq<char>>> {
    match unique_unit_override_spec(slug) {
        Some(v) => Some(v),
        None => {
            let u = unit_slugs(help_names);
            if u.len() == 0 {
                None
            } else {
                Some(u)
            }
        },
    }
}

fn contains_string(v: &Vec<String>, s: &Vec<char>) -> (r: bool)
    ensures
        r == strings_view(v@).contains(s@),
{
    let mut i: usize = 0;
    while i < v.len()
        invariant
            i <= v@.len(),
            forall|j: int| 0 <= j < i ==> strings_view(v@)[j] != s@,
        decreases v@.len() - i,
    {
        let c = chars_of(v[i].as_str());
        if chars_eq(&c, s) {
            assert(strings_view(v@)[i as int] == s@);
            return true;
        }
        i = i + 1;
    }
    false
}

/// Resolves a civ's unique units, or fails with [`RefdataError::NoCivUniqueUnit`] when
/// none comes from any source.
pub fn resolve_unique_units(slug: &str, help_names: &[String]) -> (r: Result<Vec<String>>)
    ensures
        match unique_units_of(slug@, strings_view(help_names@)) {
            Some(u) => r matches Ok(v) && strings_view(v@) == u,
            None => r matches Err(RefdataError::NoCivUniqueUnit { slug: s }) && s@ == slug@,
        },
{
    broadcast use vstd::string::to_string_from_display_ensures_for_str;

    if let Some(overridden) = unique_unit_override_for(slug) {
        let mut out: Vec<String> = Vec::new();
        let mut i: usize = 0;
        while i < overridden.len()
            invariant
                i <= overridden@.len(),
                out@.len() == i,
                strings_view(out@) == strs_view(overridden@).subrange(0, i as int),
            decreases overridden@.len() - i,
        {
            let item = string_of(&chars_of(overridden[i]));
            assert(item@ == strs_view(overridden@)[i as int]);
            out.push(item);
            assert(strings_view(out@)[i as int] == item@);
            assert(strings_view(out@) =~= strs_view(overridden@).subrange(0, i + 1));
            i = i + 1;
        }
        assert(strs_view(overridden@).subrange(0, overridden@.len() as int) =~= strs_view(overridden@));
        return Ok(out);
    }
    let ghost names = strings_view(help_names@);
    let mut units: Vec<String> = Vec::new();
    let mut i: usize = 0;
    while i < help_names.len()
        invariant
            i <= help_names@.len(),
            names == strings_view(help_names@),
            strings_view(units@) == unit_slugs(names.subrange(0, i as int)),
        decreases help_names@.len() - i,
    {
        assert(names.subrange(0, i + 1).drop_last() == names.subrange(0, i as int));
        assert(names.subrange(0, i + 1).last() == help_names@[i as int]@);
        let s = civ_slug_chars(help_names[i].as_str());
        if s.len() > 0 && !contains_string(&units, &s) {
            let ghost before = strings_view(units@);
            units.push(string_of(&s));
            assert(strings_view(units@) =~= before.push(s@));
        }
        i = i + 1;
    }
    assert(names.subrange(0, help_names@.len() as int) == names);
    if units.len() == 0 {
        return Err(RefdataError::NoCivUniqueUnit { slug: slug.to_string() });
    }
    Ok(units)
}

// --- slug order -----------------------------------------------------------------------

/// `x` inserted into `s` before the first entry whose slug orders after it.
pub open spec fn insert_by_slug(s: Seq<(Seq<char>, int)>, x: (Seq<char>, int)) -> Seq<(Seq<char>, int)>
    decreases s.len(),
{
    if s.len() == 0 {
        seq![x]
    } else if lex_lt(x.0, s[0].0) {
        seq![x] + s
    } else {
        seq![s[0]] + insert_by_slug(s.drop_first(), x)
    }
}

/// `(slug, position)` pairs sorted by slug, stably (insertion sort).
pub open spec fn sort_by_slug(s: Seq<(Seq<char>, int)>) -> Seq<(Seq<char>, int)>
    decreases s.len(),
{
    if s.len() == 0 {
        Seq::empty()
    } else {
        insert_by_slug(sort_by_slug(s.drop_last()), s.last())
    }
}

/// Whether `(slug, position)` pairs are in slug order.
pub open spec fn slug_sorted(s: Seq<(Seq<char>, int)>) -> bool {
    forall|i: int, j: int| 0 <= i < j < s.len() ==> !lex_lt((#[trigger] s[j]).0, (#[trigger] s[i]).0)
}

proof fn lemma_insert_by_slug(s: Seq<(Seq<char>, int)>, x: (Seq<char>, int), p: int)
    requires
        0 <= p <= s.len(),
        forall|j: int| 0 <= j < p ==> !lex_lt(x.0, (#[trigger] s[j]).0),
        p == s.len() || lex_lt(x.0, s[p].0),
    ensures
        insert_by_slug(s, x) == s.subrange(0, p) + seq![x] + s.subrange(p, s.len() as int),
    decreases s.len(),
{
    if s.len() == 0 {
        assert(s.subrange(0, p) + seq![x] + s.subrange(p, s.len() as int) =~= seq![x]);
    } else if p == 0 {
        assert(s.subrange(0, p) + seq![x] + s.subrange(p, s.len() as int) =~= seq![x] + s);
    } else {
        let t = s.drop_first();
        assert forall|j: int| 0 <= j < p - 1 implies !lex_lt(x.0, (#[trigger] t[j]).0) by {
            assert(t[j] == s[j + 1]);
        }
        if p - 1 < t.len() {
            assert(t[p - 1] == s[p]);
        }
        lemma_insert_by_slug(t, x, p - 1);
        assert(seq![s[0]] + (t.subrange(0, p - 1) + seq![x] + t.subrange(p - 1, t.len() as int))
            =~= s.subrange(0, p) + seq![x] + s.subrange(p, s.len() as int));
    }
}

proof fn lemma_insert_sorted(s: Seq<(Seq<char>, int)>, x: (Seq<char>, int))
    requires
        slug_sorted(s),
    ensures
        slug_sorted(insert_by_slug(s, x)),
        insert_by_slug(s, x).len() == s.len() + 1,
    decreases s.len(),
{
    if s.len() > 0 {
        let t = s.drop_first();
        assert forall|i: int, j: int| 0 <= i < j < t.len() implies !lex_lt((#[trigger] t[j]).0, (#[trigger] t[i]).0) by {
            assert(t[i] == s[i + 1] && t[j] == s[j + 1]);
        }
        lemma_insert_sorted(t, x);
        let r = insert_by_slug(s, x);
        if lex_lt(x.0, s[0].0) {
            assert forall|i: int, j: int| 0 <= i < j < r.len() implies !lex_lt((#[trigger] r[j]).0, (#[trigger] r[i]).0) by {
                if i == 0 {
                    assert(r[j] == s[j - 1]);
                    if j - 1 > 0 {
                        assert(!lex_lt(s[j - 1].0, s[0].0));
                    }
                    lemma_lex_order(s[j - 1].0, x.0, s[0].0);
                    lemma_lex_order(x.0, s[0].0, s[j - 1].0);
                    lemma_lex_order(s[0].0, s[j - 1].0, x.0);
                } else {
                    assert(r[i] == s[i - 1] && r[j] == s[j - 1]);
                }
            }
        } else {
            let ins = insert_by_slug(t, x);
            assert(r == seq![s[0]] + ins);
            assert forall|i: int, j: int| 0 <= i < j < r.len() implies !lex_lt((#[trigger] r[j]).0, (#[trigger] r[i]).0) by {
                if i == 0 {
                    assert(r[j] == ins[j - 1]);
                    // every element of ins is s[k] (k >= 1) or x, none orders before s[0]
                    lemma_insert_members(t, x, j - 1);
                    if ins[j - 1] == x {
                        lemma_lex_order(x.0, s[0].0, s[0].0);
                    } else {
                        let k = choose|k: int| 0 <= k < t.len() && t[k] == ins[j - 1];
                        assert(t[k] == s[k + 1]);
                    }
                } else {
                    assert(r[i] == ins[i - 1] && r[j] == ins[j - 1]);
                }
            }
        }
    }
}

proof fn lemma_insert_members(s: Seq<(Seq<char>, int)>, x: (Seq<char>, int), j: int)
    requires
        0 <= j < insert_by_slug(s, x).len(),
        insert_by_slug(s, x).len() == s.len() + 1,
    ensures
        insert_by_slug(s, x)[j] == x || exists|k: int| 0 <= k < s.len() && s[k] == insert_by_slug(s, x)[j],
    decreases s.len(),
{
    if s.len() > 0 && !lex_lt(x.0, s[0].0) {
        let t = s.drop_first();
        if j > 0 {
            lemma_insert_len(t, x);
            lemma_insert_members(t, x, j - 1);
            let ins = insert_by_slug(t, x);
            if ins[j - 1] != x {
                let k = choose|k: int| 0 <= k < t.len() && t[k] == ins[j - 1];
                assert(s[k + 1] == t[k]);
            }
        } else {
            assert(s[0] == insert_by_slug(s, x)[0]);
        }
    } else if s.len() > 0 {
        if j > 0 {
            assert(s[j - 1] == insert_by_slug(s, x)[j]);
        }
    }
}

proof fn lemma_insert_len(s: Seq<(Seq<char>, int)>, x: (Seq<char>, int))
    ensures
        insert_by_slug(s, x).len() == s.len() + 1,
    decreases s.len(),
{
    if s.len() > 0 && !lex_lt(x.0, s[0].0) {
        lemma_insert_len(s.drop_first(), x);
    }
}

/// The slug sort puts the civs in slug order.
pub proof fn lemma_sort_by_slug_sorted(s: Seq<(Seq<char>, int)>)
    ensures
        slug_sorted(sort_by_slug(s)),
        sort_by_slug(s).len() == s.len(),
    decreases s.len(),
{
    if s.len() > 0 {
        lemma_sort_by_slug_sorted(s.drop_last());
        lemma_insert_sorted(sort_by_slug(s.drop_last()), s.last());
    }
}


// --- the documents ----------------------------------------------------------------------

/// The view of a raw civ.
pub type RawCivView = (Option<Seq<char>>, i64, Seq<char>, Seq<char>);

/// The view of a civ entry.
pub type CivEntryView = (
    Seq<char>,
    Seq<char>,
    Seq<char>,
    Seq<Seq<char>>,
    Seq<Seq<char>>,
    Seq<char>,
    (Seq<char>, Seq<char>),
    (Seq<char>, Seq<char>),
    Seq<char>,
);

/// What one civ comes to: the first check it fails, or its entry and its parsed EN and
/// TR help.
pub enum CivOutcome {
    Unparseable(Lang),
    TechCount(Lang, nat),
    NoRegion,
    NoUnit,
    Done(CivEntryView, HelpView, HelpView),
}

/// A region's noun phrase (the region itself when the table has none).
pub open spec fn region_noun_of(region: Seq<char>) -> Seq<char> {
    let i = first_key_index(REGION_NOUN@, region);
    if i == -1 {
        region
    } else {
        REGION_NOUN@[i].1@
    }
}

/// The outcome for the civ slugged `slug`: its EN then TR help must parse with exactly two
/// unique techs, it must have a curated region, and it must have unique units.
#[verifier::opaque]
pub open spec fn civ_outcome(slug: Seq<char>, c: RawCivView) -> CivOutcome {
    match parse_help_spec(c.2, Lang::En) {
        None => CivOutcome::Unparseable(Lang::En),
        Some(en) => if en.3.len() != 2 {
            CivOutcome::TechCount(Lang::En, en.3.len())
        } else {
            match parse_help_spec(c.3, Lang::Tr) {
                None => CivOutcome::Unparseable(Lang::Tr),
                Some(tr) => if tr.3.len() != 2 {
                    CivOutcome::TechCount(Lang::Tr, tr.3.len())
                } else {
                    let ri = first_key_index(REGION_OVERRIDE@, slug);
                    if ri == -1 {
                        CivOutcome::NoRegion
                    } else {
                        match unique_units_of(slug, en.4) {
                            None => CivOutcome::NoUnit,
                            Some(units) => {
                                let region = REGION_OVERRIDE@[ri].1@;
                                CivOutcome::Done(
                                    (
                                        slug,
                                        region,
                                        fix_specialty_spec(en.0),
                                        units,
                                        en.1,
                                        en.2,
                                        en.3[0],
                                        en.3[1],
                                        region_noun_of(region),
                                    ),
                                    en,
                                    tr,
                                )
                            },
                        }
                    }
                }
            }
        },
    }
}

/// Whether `e` is the error an outcome that is not `Done` reports for the civ.
pub open spec fn civ_error(e: RefdataError, slug: Seq<char>, c: RawCivView, o: CivOutcome) -> bool {
    match o {
        CivOutcome::Unparseable(l) => e matches RefdataError::CivHelpUnparseable {
            civ_key,
            lang,
            help_string_id,
        } && civ_key@ == slug && lang@ == lang_label(l) && help_string_id == c.1,
        CivOutcome::TechCount(l, n) => e matches RefdataError::CivUniqueTechCount {
            civ_key,
            lang,
            count,
        } && civ_key@ == slug && lang@ == lang_label(l) && count == n,
        CivOutcome::NoRegion => e matches RefdataError::MissingCivRegion { slug: s } && s@ == slug,
        CivOutcome::NoUnit => e matches RefdataError::NoCivUniqueUnit { slug: s } && s@ == slug,
        CivOutcome::Done(..) => false,
    }
}

/// The `(slug, position)` pairs of the civ table's entries.
pub open spec fn slugged(es: Seq<(Seq<char>, RawCivView)>) -> Seq<(Seq<char>, int)> {
    Seq::new(es.len(), |i: int| (civ_slug_of(es[i].0), i))
}

/// The civs in emission order: by slug, ties in table order.
pub open spec fn civ_order(es: Seq<(Seq<char>, RawCivView)>) -> Seq<(Seq<char>, int)> {
    sort_by_slug(slugged(es))
}

/// The outcome of the `i`-th civ in emission order.
pub open spec fn outcome_at(es: Seq<(Seq<char>, RawCivView)>, i: int) -> CivOutcome {
    let o = civ_order(es)[i];
    civ_outcome(o.0, es[o.1].1)
}

/// The help-strings table of the first `n` civs in emission order (all `Done`).
pub open spec fn help_table(es: Seq<(Seq<char>, RawCivView)>, n: int) -> Seq<(Seq<char>, (HelpView, HelpView))>
    decreases n,
{
    if n <= 0 {
        Seq::empty()
    } else {
        match outcome_at(es, n - 1) {
            CivOutcome::Done(_, en, tr) => assoc_insert(
                help_table(es, n - 1),
                civ_order(es)[n - 1].0,
                (en, tr),
            ),
            _ => help_table(es, n - 1),
        }
    }
}

fn copy_strings(v: &Vec<String>) -> (r: Vec<String>)
    ensures
        strings_view(r@) == strings_view(v@),
{
    let mut out: Vec<String> = Vec::new();
    let mut i: usize = 0;
    while i < v.len()
        invariant
            i <= v@.len(),
            out@.len() == i,
            strings_view(out@) == strings_view(v@).subrange(0, i as int),
        decreases v@.len() - i,
    {
        let s = v[i].clone();
        out.push(s);
        assert(strings_view(out@)[i as int] == strings_view(v@)[i as int]);
        assert(strings_view(out@) =~= strings_view(v@).subrange(0, i + 1));
        i = i + 1;
    }
    assert(strings_view(v@).subrange(0, v@.len() as int) =~= strings_view(v@));
    out
}

fn to_civ_unique_tech(t: &UniqueTechText) -> (r: CivUniqueTech)
    ensures
        r@ == (t.name@, t.effect@),
{
    CivUniqueTech { name: t.name.clone(), effect: t.effect.clone() }
}

fn to_help_lang(parsed: &HelpParse) -> (r: CivHelpLang)
    ensures
        r@ == parsed@,
{
    let mut techs: Vec<CivUniqueTech> = Vec::new();
    let mut i: usize = 0;
    while i < parsed.unique_techs.len()
        invariant
            i <= parsed.unique_techs@.len(),
            techs@.len() == i,
            crate::refdata::model::unique_techs_view(techs@) == techs_view(parsed.unique_techs@).subrange(0, i as int),
        decreases parsed.unique_techs@.len() - i,
    {
        let t = to_civ_unique_tech(&parsed.unique_techs[i]);
        techs.push(t);
        assert(crate::refdata::model::unique_techs_view(techs@)[i as int] == techs_view(parsed.unique_techs@)[i as int]);
        assert(crate::refdata::model::unique_techs_view(techs@) =~= techs_view(parsed.unique_techs@).subrange(0, i + 1));
        i = i + 1;
    }
    assert(techs_view(parsed.unique_techs@).subrange(0, parsed.unique_techs@.len() as int) =~= techs_view(parsed.unique_techs@));
    CivHelpLang {
        civ_type: parsed.civ_type.clone(),
        civ_bonuses: copy_strings(&parsed.civ_bonuses),
        team_bonus: parsed.team_bonus.clone(),
        unique_techs: techs,
        unique_unit_names: copy_strings(&parsed.unique_unit_names),
    }
}

/// The raw civs of a civ table, by their views.
pub open spec fn raw_civs_view(v: Seq<(String, RawCiv)>) -> Seq<(Seq<char>, RawCivView)> {
    v.map_values(|e: (String, RawCiv)| (e.0@, e.1@))
}

/// Sorts `(slug, position)` pairs by slug, stably.
fn sort_slugs(items: Vec<(Vec<char>, usize)>) -> (r: Vec<(Vec<char>, usize)>)
    ensures
        pairs_view(r@) == sort_by_slug(pairs_view(items@)),
{
    let mut out: Vec<(Vec<char>, usize)> = Vec::new();
    let mut i: usize = 0;
    assert(pairs_view(out@) =~= sort_by_slug(pairs_view(items@).subrange(0, 0)));
    while i < items.len()
        invariant
            i <= items@.len(),
            pairs_view(out@) == sort_by_slug(pairs_view(items@).subrange(0, i as int)),
        decreases items@.len() - i,
    {
        let ghost pv = pairs_view(items@);
        assert(pv.subrange(0, i + 1).drop_last() == pv.subrange(0, i as int));
        let x = (crate::text::copy_chars(&items[i].0), items[i].1);
        assert(pv.subrange(0, i + 1).last() == (x.0@, x.1 as int));
        let ghost ov = pairs_view(out@);
        let mut p: usize = 0;
        while p < out.len() && !chars_lt(&x.0, &out[p].0)
            invariant
                p <= out@.len(),
                ov == pairs_view(out@),
                forall|j: int| 0 <= j < p ==> !lex_lt(x.0@, (#[trigger] ov[j]).0),
            decreases out@.len() - p,
        {
            assert(ov[p as int].0 == out@[p as int].0@);
            p = p + 1;
        }
        proof {
            if p < out@.len() {
                assert(ov[p as int].0 == out@[p as int].0@);
            }
            lemma_insert_by_slug(ov, (x.0@, x.1 as int), p as int);
        }
        out.insert(p, x);
        assert(pairs_view(out@) =~= ov.subrange(0, p as int) + seq![(x.0@, x.1 as int)] + ov.subrange(p as int, ov.len() as int));
        i = i + 1;
    }
    assert(pairs_view(items@).subrange(0, items@.len() as int) == pairs_view(items@));
    out
}

/// `(slug chars, position)` pairs by their views.
pub open spec fn pairs_view(v: Seq<(Vec<char>, usize)>) -> Seq<(Seq<char>, int)> {
    v.map_values(|e: (Vec<char>, usize)| (e.0@, e.1 as int))
}

/// One civ's entry and help entry, or the first check it fails.
fn build_one(slug: &String, civ: &RawCiv) -> (r: Result<(CivEntry, CivHelpEntry)>)
    ensures
        match civ_outcome(slug@, civ@) {
            CivOutcome::Done(entry, en, tr) => r matches Ok((e, h)) && e@ == entry && h@ == (en, tr),
            o => r matches Err(e) && civ_error(e, slug@, civ@, o),
        },
{
    broadcast use vstd::string::to_string_from_display_ensures_for_str;

    reveal(civ_outcome);
    let ghost o = civ_outcome(slug@, civ@);
    let en = match require_parsed(civ.help_en.as_str(), Lang::En, slug.as_str(), civ.help_string_id) {
        Ok(p) => p,
        Err(e) => {
            return Err(e);
        },
    };
    let tr = match require_parsed(civ.help_tr.as_str(), Lang::Tr, slug.as_str(), civ.help_string_id) {
        Ok(p) => p,
        Err(e) => {
            return Err(e);
        },
    };
    let region = match region_for(slug.as_str()) {
        Ok(r) => r,
        Err(e) => {
            return Err(e);
        },
    };
    let region_noun = region_noun_for(region);
    let specialty = fix_specialty(en.civ_type.as_str());
    let unique_units = match resolve_unique_units(slug.as_str(), en.unique_unit_names.as_slice()) {
        Ok(u) => u,
        Err(e) => {
            return Err(e);
        },
    };
    assert(en.unique_techs@.len() == 2);
    let castle = to_civ_unique_tech(&en.unique_techs[0]);
    let imperial = to_civ_unique_tech(&en.unique_techs[1]);
    assert(techs_view(en.unique_techs@)[0] == castle@);
    assert(techs_view(en.unique_techs@)[1] == imperial@);
    let entry = CivEntry {
        slug: slug.clone(),
        region: region.to_string(),
        specialty,
        unique_units,
        civ_bonuses: copy_strings(&en.civ_bonuses),
        team_bonus: en.team_bonus.clone(),
        unique_techs: CivUniqueTechs { castle, imperial },
        region_noun,
    };
    let help = CivHelpEntry { en: to_help_lang(&en), tr: to_help_lang(&tr) };
    Ok((entry, help))
}

/// Builds the civilizations document and the civ-help-strings document from the civ table:
/// civs in slug order, each with its parsed EN help, curated region and unique units; the
/// first civ (in that order) that fails a check fails the whole build with its error.
pub fn build(civs_by_name: &StrMap<RawCiv>) -> (r: Result<(CivilizationsDoc, CivHelpStringsDoc)>)
    ensures
        ({
            let es = civs_by_name@;
            let n = es.len() as int;
            &&& (forall|i: int| 0 <= i < n ==> outcome_at(es, i) is Done) ==> (r matches Ok((doc, help))
                && doc.patch@ == PATCH@ && doc.civs@.len() == n && (forall|i: int|
                0 <= i < n ==> (#[trigger] doc.civs@[i])@ == outcome_at(es, i)->Done_0)
                && sorted_as(help.civs@, help_table(es, n)) && help.provenance.source@
                == "SiegeEngineers/aoe2techtree"@ && help.provenance.sha@ == AOE2TECHTREE_SHA@
                && help.provenance.note@ == PROVENANCE_NOTE@)
            &&& (exists|i: int| 0 <= i < n && !(outcome_at(es, i) is Done)) ==> (r matches Err(e)
                && exists|i: int|
                0 <= i < n && !(outcome_at(es, i) is Done) && (forall|j: int|
                    0 <= j < i ==> outcome_at(es, j) is Done) && civ_error(
                    e,
                    civ_order(es)[i].0,
                    es[civ_order(es)[i].1].1,
                    outcome_at(es, i),
                ))
        }),
{
    broadcast use vstd::string::to_string_from_display_ensures_for_str;

    let entries = civs_by_name.entries();
    let ghost es = civs_by_name@;
    assert(es == raw_civs_view(entries@));
    let mut keyed: Vec<(Vec<char>, usize)> = Vec::new();
    let mut i: usize = 0;
    while i < entries.len()
        invariant
            i <= entries@.len(),
            es == raw_civs_view(entries@),
            keyed@.len() == i,
            pairs_view(keyed@) == slugged(es).subrange(0, i as int),
        decreases entries@.len() - i,
    {
        let s = civ_slug_chars(entries[i].0.as_str());
        keyed.push((s, i));
        assert(pairs_view(keyed@)[i as int] == slugged(es)[i as int]);
        assert(pairs_view(keyed@) =~= slugged(es).subrange(0, i + 1));
        i = i + 1;
    }
    assert(slugged(es).subrange(0, entries@.len() as int) =~= slugged(es));
    let order = sort_slugs(keyed);
    proof {
        lemma_sort_positions(es);
    }
    let mut civ_entries: Vec<CivEntry> = Vec::new();
    let mut help_entries: StrMap<CivHelpEntry> = StrMap::new();
    proof {
        assert forall|j: int| 0 <= j < order@.len() implies 0 <= (#[trigger] order@[j]).1 < es.len() by {
            assert(pairs_view(order@)[j] == (order@[j].0@, order@[j].1 as int));
        }
    }
    let mut k: usize = 0;
    while k < order.len()
        invariant
            k <= order@.len(),
            es == civs_by_name@,
            es == raw_civs_view(entries@),
            pairs_view(order@) == civ_order(es),
            order@.len() == es.len(),
            forall|j: int| 0 <= j < order@.len() ==> 0 <= (#[trigger] order@[j]).1 < es.len(),
            forall|j: int| 0 <= j < k ==> outcome_at(es, j) is Done,
            civ_entries@.len() == k,
            forall|j: int| 0 <= j < k ==> (#[trigger] civ_entries@[j])@ == outcome_at(es, j)->Done_0,
            help_entries@ == help_table(es, k as int),
        decreases order@.len() - k,
    {
        let slug = string_of(&order[k].0);
        let idx = order[k].1;
        let civ = &entries[idx].1;
        assert(pairs_view(order@)[k as int] == (slug@, idx as int));
        assert(es[idx as int].1 == civ@);
        assert(civ_outcome(slug@, civ@) == outcome_at(es, k as int));
        match build_one(&slug, civ) {
            Err(e) => {
                assert(civ_error(e, civ_order(es)[k as int].0, es[civ_order(es)[k as int].1].1, outcome_at(es, k as int)));
                assert(!(outcome_at(es, k as int) is Done));
                assert(k < es.len());
                assert(!(forall|i: int| 0 <= i < es.len() ==> outcome_at(es, i) is Done));
                assert(civs_by_name@ == es);
                assert(exists|i: int|
                    0 <= i < es.len() && !(outcome_at(es, i) is Done) && (forall|j: int|
                        0 <= j < i ==> outcome_at(es, j) is Done) && civ_error(
                        e,
                        civ_order(es)[i].0,
                        es[civ_order(es)[i].1].1,
                        outcome_at(es, i),
                    ));
                return Err(e);
            },
            Ok((entry, help)) => {
                civ_entries.push(entry);
                help_entries.insert(slug, help);
                assert(help_entries@ == help_table(es, k + 1));
            },
        }
        k = k + 1;
    }
    assert(!exists|i: int| 0 <= i < es.len() && !(outcome_at(es, i) is Done));
    let civilizations = CivilizationsDoc { patch: PATCH.to_string(), civs: civ_entries };
    let help_strings = CivHelpStringsDoc {
        provenance: NameMapProvenance {
            source: "SiegeEngineers/aoe2techtree".to_string(),
            sha: AOE2TECHTREE_SHA.to_string(),
            note: PROVENANCE_NOTE.to_string(),
        },
        civs: help_entries.into_sorted(),
    };
    Ok((civilizations, help_strings))
}

proof fn lemma_sort_positions(es: Seq<(Seq<char>, RawCivView)>)
    ensures
        civ_order(es).len() == es.len(),
        forall|j: int| 0 <= j < civ_order(es).len() ==> 0 <= (#[trigger] civ_order(es)[j]).1 < es.len(),
{
    lemma_sort_by_slug_sorted(slugged(es));
    lemma_sort_members(slugged(es));
}

proof fn lemma_sort_members(s: Seq<(Seq<char>, int)>)
    ensures
        forall|j: int| 0 <= j < sort_by_slug(s).len() ==> exists|k: int| 0 <= k < s.len() && s[k] == #[trigger] sort_by_slug(s)[j],
    decreases s.len(),
{
    if s.len() > 0 {
        let w = s.drop_last();
        lemma_sort_members(w);
        lemma_sort_by_slug_sorted(w);
        let sw = sort_by_slug(w);
        lemma_insert_len(sw, s.last());
        assert forall|j: int| 0 <= j < sort_by_slug(s).len() implies exists|k: int| 0 <= k < s.len() && s[k] == #[trigger] sort_by_slug(s)[j] by {
            lemma_insert_members(sw, s.last(), j);
            if sort_by_slug(s)[j] == s.last() {
                assert(s[s.len() - 1] == s.last());
            } else {
                let m = choose|m: int| 0 <= m < sw.len() && sw[m] == sort_by_slug(s)[j];
                let k = choose|k: int| 0 <= k < w.len() && w[k] == sw[m];
                assert(s[k] == w[k]);
            }
        }
    }
}

} // verus!
