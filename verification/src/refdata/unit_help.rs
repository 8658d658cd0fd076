//! Parsed bilingual description and upgrades text of each canonical unit, from the
//! unit help strings: `"Create <b>Name</b> (‹cost›)<br>\n{body}<br>\n<i>Upgrades: ...</i>‹DEFAULT›..."`.
use vstd::prelude::*;

use crate::refdata::civ_help::{lang_label, upgrades_label_of, Lang};
use crate::refdata::civ_region::{join, join_chars, split_whitespace, words};
use crate::refdata::civilizations::AOE2TECHTREE_SHA;
use crate::refdata::error::{RefdataError, Result};
use crate::refdata::model::{LocalizedString, NameMapProvenance, UnitDescriptionEntry, UnitDescriptionsDoc};
use crate::str_map::{assoc_get, assoc_insert, sorted_as, StrMap};
use crate::text::{
    chars_of, find, find_chars, i64_decimal, lemma_find, matches_at, signed_decimal, split_by,
    split_chars, starts_with, starts_with_chars, string_of, subvec, trim, trim_chars, views,
};

verus! {

/// The unit-descriptions document's provenance note.
pub const PROVENANCE_NOTE: &'static str = "Bilingual (EN+TR) unit description + upgrades text, parsed from aoe2techtree's per-unit 'help' strings (data/strings-en.json + data/strings-tr.json, keyed by LanguageNameId + 21000) with the same <b>name</b>/<br>body/<i>Upgrades: ...</i> extraction as the old scripts/build-unit-descriptions.mjs. Intermediate output — NOT a committed src/data/ file; consumed by build-unit-descriptions.mjs's thin YAML wrapper, which rewrites ONLY the description/ upgrades fields of each src/content/units/<slug>.yaml (see pipeline/crates/refdata/src/unit_help.rs's module doc for the exact wrapper contract).";

/// A unit's help string id is its language name id plus this offset.
pub const HELP_STRING_OFFSET: i64 = 21_000;

/// The text between the first `open` and the first `close` after it, with the index
/// where `open` starts.
pub open spec fn span_of(s: Seq<char>, open: Seq<char>, close: Seq<char>) -> Option<(int, Seq<char>)> {
    let a = find(s, open);
    if a == -1 {
        None
    } else {
        let rest = s.subrange(a + open.len(), s.len() as int);
        let e = find(rest, close);
        if e == -1 {
            None
        } else {
            Some((a, rest.subrange(0, e)))
        }
    }
}

fn span_chars(s: &[char], open: &[char], close: &[char]) -> (r: Option<(usize, Vec<char>)>)
    requires
        open@.len() > 0,
    ensures
        match r {
            Some((a, c)) => span_of(s@, open@, close@) == Some((a as int, c@)),
            None => span_of(s@, open@, close@) is None,
        },
{
    match find_chars(s, open) {
        None => None,
        Some(a) => {
            let sl = s.len();
            let ol = open.len();
            proof {
                lemma_find(s@, open@);
                assert(matches_at(s@, open@, a as int));
            }
            let start = a + ol;
            let rest = subvec(s, start, s.len());
            match find_chars(&rest, close) {
                None => None,
                Some(e) => {
                    proof {
                        lemma_find(rest@, close@);
                    }
                    Some((a, subvec(&rest, 0, e)))
                },
            }
        },
    }
}

/// The name inside a help string's first `<b>...</b>` span.
pub fn bold_span(help: &str) -> (r: Option<String>)
    ensures
        match r {
            Some(s) => span_of(help@, "<b>"@, "</b>"@) matches Some((_, c)) && s@ == c,
            None => span_of(help@, "<b>"@, "</b>"@) is None,
        },
{
    let h = chars_of(help);
    let open = chars_of("<b>");
    let close = chars_of("</b>");
    proof {
        reveal_strlit("<b>");
    }
    match span_chars(&h, &open, &close) {
        Some((_, c)) => Some(string_of(&c)),
        None => None,
    }
}

/// `s` without every `<...>` tag whose content is non-empty (a bare `<>` stays).
pub open spec fn strip_any(s: Seq<char>) -> Seq<char>
    decreases s.len(),
{
    let lt = find(s, seq!['<']);
    if lt == -1 {
        s
    } else {
        proof {
            lemma_find(s, seq!['<']);
        }
        let after = s.subrange(lt + 1, s.len() as int);
        let gt = find(after, seq!['>']);
        if gt > 0 {
            proof {
                lemma_find(after, seq!['>']);
            }
            s.subrange(0, lt) + strip_any(after.subrange(gt + 1, after.len() as int))
        } else {
            s.subrange(0, lt) + seq!['<'] + strip_any(after)
        }
    }
}

fn strip_any_chars(s: &[char]) -> (r: Vec<char>)
    ensures
        r@ == strip_any(s@),
{
    let lt_pat: Vec<char> = vec!['<'];
    let gt_pat: Vec<char> = vec!['>'];
    assert(lt_pat@ == seq!['<']);
    assert(gt_pat@ == seq!['>']);
    let mut out: Vec<char> = Vec::new();
    let mut rest = crate::text::copy_chars(s);
    loop
        invariant
            lt_pat@ == seq!['<'],
            gt_pat@ == seq!['>'],
            out@ + strip_any(rest@) == strip_any(s@),
        decreases rest@.len(),
    {
        match find_chars(&rest, &lt_pat) {
            None => {
                let ghost o = out@;
                crate::text::push_all(&mut out, &rest);
                return out;
            },
            Some(lt) => {
                proof {
                    lemma_find(rest@, lt_pat@);
                }
                let ghost rv = rest@;
                let rl = rest.len();
                assert(lt < rl);
                let head = subvec(&rest, 0, lt);
                let after = subvec(&rest, lt + 1, rl);
                crate::text::push_all(&mut out, &head);
                match find_chars(&after, &gt_pat) {
                    Some(gt) if gt > 0 => {
                        proof {
                            lemma_find(after@, gt_pat@);
                        }
                        let next = subvec(&after, gt + 1, after.len());
                        assert(strip_any(rv) == rv.subrange(0, lt as int) + strip_any(next@));
                        rest = next;
                    },
                    _ => {
                        out.push('<');
                        assert(strip_any(rv) == rv.subrange(0, lt as int) + seq!['<'] + strip_any(after@));
                        rest = after;
                    },
                }
            },
        }
    }
}

/// Strips every `<...>` tag with non-empty content (`a<>b` stays as is).
pub fn strip_any_tags(s: &str) -> (r: String)
    ensures
        r@ == strip_any(s@),
{
    string_of(&strip_any_chars(&chars_of(s)))
}

/// `s.replace("<br>", " ")`, tags stripped, whitespace runs collapsed to one space,
/// trimmed.
pub open spec fn strip_tags_spec(s: Seq<char>) -> Seq<char> {
    join(words(strip_any(join(split_by(s, "<br>"@), seq![' ']))), seq![' '])
}

fn strip_tags_chars(s: &[char]) -> (r: Vec<char>)
    ensures
        r@ == strip_tags_spec(s@),
{
    let br = chars_of("<br>");
    proof {
        reveal_strlit("<br>");
    }
    let pieces = split_chars(s, &br);
    let space: Vec<char> = vec![' '];
    assert(space@ == seq![' ']);
    let spaced = join_chars(&pieces, &space);
    let stripped = strip_any_chars(&spaced);
    let ws = split_whitespace(&stripped);
    join_chars(&ws, &space)
}

/// Folds `<br>` into a space, strips every tag, collapses whitespace runs to one space and
/// trims.
pub fn strip_tags(s: &str) -> (r: String)
    ensures
        r@ == strip_tags_spec(s@),
{
    string_of(&strip_tags_chars(&chars_of(s)))
}

/// One unit's parsed help text in one language.
#[derive(Debug, Clone, PartialEq, Eq)]
pub struct UnitHelpText {
    pub body: String,
    pub upgrades: Option<String>,
}

/// What a unit help string parses to.
pub enum UnitHelpOutcome {
    NoBold,
    NoBreak,
    LabelMismatch,
    EmptyBody,
    Parsed(Seq<char>, Option<Seq<char>>),
}

/// The part of a help string before the per-difficulty `‹DEFAULT›` marker.
pub open spec fn before_default(raw: Seq<char>) -> Seq<char> {
    split_by(raw, "‹DEFAULT›"@)[0]
}

/// The parse of a unit help string: it needs a `<b>` name span and a `<br>` after the
/// title; an `<i>` span after that is the upgrades line, which must start with the
/// language's label; the body is what precedes it, tag-stripped, and must not be empty.
pub open spec fn unit_help_spec(raw: Seq<char>, lang: Lang) -> UnitHelpOutcome {
    let cut = before_default(raw);
    if span_of(cut, "<b>"@, "</b>"@) is None {
        UnitHelpOutcome::NoBold
    } else {
        let fb = find(cut, "<br>"@);
        if fb == -1 {
            UnitHelpOutcome::NoBreak
        } else {
            let rest = cut.subrange(fb + 4, cut.len() as int);
            let label = upgrades_label_of(lang);
            match span_of(rest, "<i>"@, "</i>"@) {
                Some((st, content)) => {
                    let stripped = strip_tags_spec(content);
                    if !starts_with(stripped, label) {
                        UnitHelpOutcome::LabelMismatch
                    } else {
                        let body = strip_tags_spec(rest.subrange(0, st));
                        if body.len() == 0 {
                            UnitHelpOutcome::EmptyBody
                        } else {
                            UnitHelpOutcome::Parsed(
                                body,
                                Some(trim(stripped.subrange(label.len() as int, stripped.len() as int))),
                            )
                        }
                    }
                },
                None => {
                    let body = strip_tags_spec(rest);
                    if body.len() == 0 {
                        UnitHelpOutcome::EmptyBody
                    } else {
                        UnitHelpOutcome::Parsed(body, None)
                    }
                },
            }
        }
    }
}

/// Whether a result is what a help string parses to for unit `slug` in `lang`.
pub open spec fn unit_help_result(r: Result<UnitHelpText>, o: UnitHelpOutcome, slug: &'static str, lang: Lang) -> bool {
    match o {
        UnitHelpOutcome::NoBold => r matches Err(RefdataError::UnitHelpNoBoldName { slug: s, lang: l })
            && s == slug && l@ == lang_label(lang),
        UnitHelpOutcome::NoBreak => r matches Err(
            RefdataError::UnitHelpNoBreakAfterTitle { slug: s, lang: l },
        ) && s == slug && l@ == lang_label(lang),
        UnitHelpOutcome::LabelMismatch => r matches Err(
            RefdataError::UnitHelpUpgradesLabelMismatch { slug: s, lang: l, label },
        ) && s == slug && l@ == lang_label(lang) && label@ == upgrades_label_of(lang),
        UnitHelpOutcome::EmptyBody => r matches Err(RefdataError::UnitHelpEmptyBody { slug: s, lang: l })
            && s == slug && l@ == lang_label(lang),
        UnitHelpOutcome::Parsed(body, upgrades) => r matches Ok(t) && t.body@ == body && match t.upgrades {
            Some(u) => upgrades == Some(u@),
            None => upgrades is None,
        },
    }
}

/// Parses one unit help string into its body and upgrades line.
pub fn parse_unit_help(raw: &str, lang: Lang, slug: &'static str) -> (r: Result<UnitHelpText>)
    ensures
        unit_help_result(r, unit_help_spec(raw@, lang), slug, lang),
{
    let raw_c = chars_of(raw);
    let marker = chars_of("‹DEFAULT›");
    proof {
        reveal_strlit("‹DEFAULT›");
        reveal_strlit("<b>");
        reveal_strlit("<br>");
        reveal_strlit("<i>");
    }
    let parts = split_chars(&raw_c, &marker);
    proof {
        assert(views(parts@).len() > 0) by {
            lemma_split_by_nonempty(raw_c@, marker@);
        }
    }
    let cut = crate::text::copy_chars(&parts[0]);
    assert(cut@ == before_default(raw@));
    let b_open = chars_of("<b>");
    let b_close = chars_of("</b>");
    if span_chars(&cut, &b_open, &b_close).is_none() {
        return Err(RefdataError::UnitHelpNoBoldName { slug, lang: lang.label() });
    }
    let br = chars_of("<br>");
    let first_br = match find_chars(&cut, &br) {
        Some(i) => i,
        None => {
            return Err(RefdataError::UnitHelpNoBreakAfterTitle { slug, lang: lang.label() });
        },
    };
    proof {
        lemma_find(cut@, br@);
    }
    let cl = cut.len();
    assert(first_br + 4 <= cl);
    let rest = subvec(&cut, first_br + 4, cl);
    let i_open = chars_of("<i>");
    let i_close = chars_of("</i>");
    let mut upgrades: Option<String> = None;
    let mut body_src = crate::text::copy_chars(&rest);
    match span_chars(&rest, &i_open, &i_close) {
        Some((start, content)) => {
            let stripped = strip_tags_chars(&content);
            let label = lang.upgrades_label();
            let label_c = chars_of(label);
            if !starts_with_chars(&stripped, &label_c) {
                return Err(
                    RefdataError::UnitHelpUpgradesLabelMismatch { slug, lang: lang.label(), label },
                );
            }
            let tail = subvec(&stripped, label_c.len(), stripped.len());
            upgrades = Some(string_of(&trim_chars(&tail)));
            proof {
                lemma_find(rest@, i_open@);
            }
            body_src = subvec(&rest, 0, start);
        },
        None => {},
    }
    let body = strip_tags_chars(&body_src);
    if body.len() == 0 {
        return Err(RefdataError::UnitHelpEmptyBody { slug, lang: lang.label() });
    }
    Ok(UnitHelpText { body: string_of(&body), upgrades })
}

proof fn lemma_split_by_nonempty(s: Seq<char>, sep: Seq<char>)
    ensures
        split_by(s, sep).len() > 0,
{
    if sep.len() > 0 && find(s, sep) != -1 {
        lemma_find(s, sep);
    }
}


/// What one canonical unit's descriptions come to: a missing help string, a failed
/// parse, an upgrades line in one language only, or the entry.
pub enum UnitDescOutcome {
    Missing(Lang),
    Failed(Lang, UnitHelpOutcome),
    LangMismatch,
    Done(((Seq<char>, Seq<char>), Option<(Seq<char>, Seq<char>)>)),
}

/// The outcome for the unit `slug` with language name id `lid`, against the help-string
/// tables (keyed by decimal help-string id).
pub open spec fn unit_desc_outcome(
    lid: i64,
    en_map: Seq<(Seq<char>, Seq<char>)>,
    tr_map: Seq<(Seq<char>, Seq<char>)>,
) -> UnitDescOutcome {
    let key = signed_decimal(lid + HELP_STRING_OFFSET);
    match (assoc_get(en_map, key), assoc_get(tr_map, key)) {
        (None, _) => UnitDescOutcome::Missing(Lang::En),
        (Some(_), None) => UnitDescOutcome::Missing(Lang::Tr),
        (Some(raw_en), Some(raw_tr)) => match unit_help_spec(raw_en, Lang::En) {
            UnitHelpOutcome::Parsed(en_body, en_up) => match unit_help_spec(raw_tr, Lang::Tr) {
                UnitHelpOutcome::Parsed(tr_body, tr_up) => if en_up.is_some() != tr_up.is_some() {
                    UnitDescOutcome::LangMismatch
                } else {
                    UnitDescOutcome::Done(
                        (
                            (en_body, tr_body),
                            match (en_up, tr_up) {
                                (Some(a), Some(b)) => Some((a, b)),
                                _ => None,
                            },
                        ),
                    )
                },
                o => UnitDescOutcome::Failed(Lang::Tr, o),
            },
            o => UnitDescOutcome::Failed(Lang::En, o),
        },
    }
}

/// Whether `e` is the error an outcome that is not `Done` reports for unit `slug`.
pub open spec fn unit_desc_error(e: RefdataError, slug: &'static str, lid: i64, o: UnitDescOutcome) -> bool {
    match o {
        UnitDescOutcome::Missing(l) => e matches RefdataError::UnitHelpStringMissing {
            slug: s,
            language_name_id,
            lang,
        } && s == slug && language_name_id == lid && lang@ == lang_label(l),
        UnitDescOutcome::Failed(l, ho) => unit_help_result(Err(e), ho, slug, l),
        UnitDescOutcome::LangMismatch => e == (RefdataError::UnitHelpUpgradesLangMismatch { slug }),
        UnitDescOutcome::Done(_) => false,
    }
}

/// Whether the `i`-th unit's descriptions come out.
pub open spec fn unit_done(
    units: Seq<(&'static str, i64)>,
    en_map: Seq<(Seq<char>, Seq<char>)>,
    tr_map: Seq<(Seq<char>, Seq<char>)>,
    i: int,
) -> bool {
    unit_desc_outcome(units[i].1, en_map, tr_map) is Done
}

/// The descriptions table of the first `n` units (all `Done`), keyed by slug.
pub open spec fn desc_table(
    units: Seq<(&'static str, i64)>,
    en_map: Seq<(Seq<char>, Seq<char>)>,
    tr_map: Seq<(Seq<char>, Seq<char>)>,
    n: int,
) -> Seq<(Seq<char>, ((Seq<char>, Seq<char>), Option<(Seq<char>, Seq<char>)>))>
    decreases n,
{
    if n <= 0 {
        Seq::empty()
    } else {
        match unit_desc_outcome(units[n - 1].1, en_map, tr_map) {
            UnitDescOutcome::Done(entry) => assoc_insert(
                desc_table(units, en_map, tr_map, n - 1),
                units[n - 1].0@,
                entry,
            ),
            _ => desc_table(units, en_map, tr_map, n - 1),
        }
    }
}

fn describe_unit(
    slug: &'static str,
    lid: i64,
    help_en: &StrMap<String>,
    help_tr: &StrMap<String>,
) -> (r: Result<UnitDescriptionEntry>)
    requires
        lid <= i64::MAX - HELP_STRING_OFFSET,
    ensures
        match unit_desc_outcome(lid, help_en@, help_tr@) {
            UnitDescOutcome::Done(entry) => r matches Ok(e) && e@ == entry,
            o => r matches Err(e) && unit_desc_error(e, slug, lid, o),
        },
{
    let key = string_of(&i64_decimal(lid + HELP_STRING_OFFSET));
    let raw_en = match help_en.get(key.as_str()) {
        Some(s) => s,
        None => {
            return Err(RefdataError::UnitHelpStringMissing { slug, language_name_id: lid, lang: "EN" });
        },
    };
    let raw_tr = match help_tr.get(key.as_str()) {
        Some(s) => s,
        None => {
            return Err(RefdataError::UnitHelpStringMissing { slug, language_name_id: lid, lang: "TR" });
        },
    };
    proof {
        reveal_strlit("EN");
        reveal_strlit("TR");
    }
    let en = match parse_unit_help(raw_en.as_str(), Lang::En, slug) {
        Ok(t) => t,
        Err(e) => {
            return Err(e);
        },
    };
    let tr = match parse_unit_help(raw_tr.as_str(), Lang::Tr, slug) {
        Ok(t) => t,
        Err(e) => {
            return Err(e);
        },
    };
    if en.upgrades.is_some() != tr.upgrades.is_some() {
        return Err(RefdataError::UnitHelpUpgradesLangMismatch { slug });
    }
    let description = LocalizedString { en: en.body, tr: tr.body };
    let upgrades = match (en.upgrades, tr.upgrades) {
        (Some(a), Some(b)) => Some(LocalizedString { en: a, tr: b }),
        _ => None,
    };
    Ok(UnitDescriptionEntry { description, upgrades })
}

/// Builds the unit-descriptions document for the units `(slug, language name id)`, in
/// order, against the EN and TR help-string tables: the first unit that fails (a missing
/// help string, a failed parse, an upgrades line in one language only) fails the build
/// with its error.
pub fn build_from_ids(
    units: &[(&'static str, i64)],
    help_en: &StrMap<String>,
    help_tr: &StrMap<String>,
) -> (r: Result<UnitDescriptionsDoc>)
    requires
        forall|i: int| 0 <= i < units@.len() ==> (#[trigger] units@[i]).1 <= i64::MAX - HELP_STRING_OFFSET,
    ensures
        ({
            let n = units@.len() as int;
            &&& (forall|i: int| 0 <= i < n ==> #[trigger] unit_done(units@, help_en@, help_tr@, i)) ==> (
            r matches Ok(doc) && sorted_as(doc.units@, desc_table(units@, help_en@, help_tr@, n))
                && doc.provenance.source@ == "SiegeEngineers/aoe2techtree"@ && doc.provenance.sha@
                == AOE2TECHTREE_SHA@ && doc.provenance.note@ == PROVENANCE_NOTE@)
            &&& (exists|i: int| 0 <= i < n && !#[trigger] unit_done(units@, help_en@, help_tr@, i)) ==> (
            r matches Err(e) && exists|i: int|
                0 <= i < n && !#[trigger] unit_done(units@, help_en@, help_tr@, i) && (forall|j: int|
                    0 <= j < i ==> unit_done(units@, help_en@, help_tr@, j)) && unit_desc_error(
                    e,
                    units@[i].0,
                    units@[i].1,
                    unit_desc_outcome(units@[i].1, help_en@, help_tr@),
                ))
        }),
{
    broadcast use vstd::string::to_string_from_display_ensures_for_str;

    let mut table: StrMap<UnitDescriptionEntry> = StrMap::new();
    let mut i: usize = 0;
    while i < units.len()
        invariant
            i <= units@.len(),
            forall|k: int| 0 <= k < units@.len() ==> (#[trigger] units@[k]).1 <= i64::MAX - HELP_STRING_OFFSET,
            forall|j: int| 0 <= j < i ==> unit_done(units@, help_en@, help_tr@, j),
            table@ == desc_table(units@, help_en@, help_tr@, i as int),
        decreases units@.len() - i,
    {
        let (slug, lid) = units[i];
        match describe_unit(slug, lid, help_en, help_tr) {
            Err(e) => {
                assert(!unit_done(units@, help_en@, help_tr@, i as int));
                return Err(e);
            },
            Ok(entry) => {
                table.insert(slug.to_string(), entry);
            },
        }
        i = i + 1;
    }
    Ok(UnitDescriptionsDoc {
        provenance: NameMapProvenance {
            source: "SiegeEngineers/aoe2techtree".to_string(),
            sha: AOE2TECHTREE_SHA.to_string(),
            note: PROVENANCE_NOTE.to_string(),
        },
        units: table.into_sorted(),
    })
}

} // verus!
