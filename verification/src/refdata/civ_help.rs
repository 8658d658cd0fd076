//! Parser for aoe2techtree civ help strings (EN + TR): a civ's bonuses, unique unit(s),
//! unique techs and team bonus, `<br>`-separated, with `•`-bulleted list items and
//! per-language section headers.
use vstd::prelude::*;

use crate::refdata::error::{RefdataError, Result};
use crate::text::{
    ascii_lower_chars, ascii_lower_seq, chars_eq, chars_of, copy_chars, find, find_chars,
    lemma_find, lower_each, lower_each_chars, matches_at, push_all, split_by, starts_with,
    split_chars, starts_with_chars, string_of, subvec, trim, trim_chars, trim_end, trim_end_chars, trim_start,
    trim_start_chars, views,
};

verus! {

/// Which locale's help-string vocabulary to parse against.
#[derive(Debug, Clone, Copy, PartialEq, Eq)]
pub enum Lang {
    En,
    Tr,
}

/// The label of a language, as used in error values.
pub open spec fn lang_label(lang: Lang) -> Seq<char> {
    match lang {
        Lang::En => "EN"@,
        Lang::Tr => "TR"@,
    }
}

/// The "... civilization" suffix a civ-type line ends with.
pub open spec fn civ_suffix(lang: Lang) -> Seq<char> {
    match lang {
        Lang::En => "civilization"@,
        Lang::Tr => "medeniyeti"@,
    }
}

/// The "Unique Unit" section-header prefix.
pub open spec fn unit_prefix(lang: Lang) -> Seq<char> {
    match lang {
        Lang::En => "Unique Unit"@,
        Lang::Tr => "Özgün Birim"@,
    }
}

/// The "Unique Tech(s)" section-header prefixes (TR has a synonym).
pub open spec fn tech_prefixes(lang: Lang) -> Seq<Seq<char>> {
    match lang {
        Lang::En => seq!["Unique Tech"@],
        Lang::Tr => seq!["Özgün Teknoloji"@, "Özel Teknoloji"@],
    }
}

/// The "Team Bonus" section-header prefix.
pub open spec fn team_prefix(lang: Lang) -> Seq<char> {
    match lang {
        Lang::En => "Team Bonus"@,
        Lang::Tr => "Takım Bonusu"@,
    }
}

/// The label an upgrades line of a unit help string starts with.
pub open spec fn upgrades_label_of(lang: Lang) -> Seq<char> {
    match lang {
        Lang::En => "Upgrades:"@,
        Lang::Tr => "Yükseltmeler:"@,
    }
}

impl Lang {
    /// The language's label (`"EN"` / `"TR"`).
    pub fn label(self) -> (r: &'static str)
        ensures
            r@ == lang_label(self),
    {
        match self {
            Lang::En => "EN",
            Lang::Tr => "TR",
        }
    }

    fn civ_suffix(self) -> (r: Vec<char>)
        ensures
            r@ == civ_suffix(self),
    {
        match self {
            Lang::En => chars_of("civilization"),
            Lang::Tr => chars_of("medeniyeti"),
        }
    }

    fn unit_prefix(self) -> (r: Vec<char>)
        ensures
            r@ == unit_prefix(self),
    {
        match self {
            Lang::En => chars_of("Unique Unit"),
            Lang::Tr => chars_of("Özgün Birim"),
        }
    }

    fn tech_prefixes(self) -> (r: Vec<Vec<char>>)
        ensures
            views(r@) == tech_prefixes(self),
    {
        let mut r: Vec<Vec<char>> = Vec::new();
        match self {
            Lang::En => {
                r.push(chars_of("Unique Tech"));
            },
            Lang::Tr => {
                r.push(chars_of("Özgün Teknoloji"));
                r.push(chars_of("Özel Teknoloji"));
            },
        }
        assert(views(r@) =~= tech_prefixes(self));
        r
    }

    fn team_prefix(self) -> (r: Vec<char>)
        ensures
            r@ == team_prefix(self),
    {
        match self {
            Lang::En => chars_of("Team Bonus"),
            Lang::Tr => chars_of("Takım Bonusu"),
        }
    }

    /// The label an unpacked upgrades line is expected to start with.
    pub fn upgrades_label(self) -> (r: &'static str)
        ensures
            r@ == upgrades_label_of(self),
    {
        match self {
            Lang::En => "Upgrades:",
            Lang::Tr => "Yükseltmeler:",
        }
    }
}

/// One parsed unique tech: its name and its effect (empty when the line carries no
/// splittable trailing parenthetical).
#[derive(Debug, Clone, PartialEq, Eq, Default)]
pub struct UniqueTechText {
    pub name: String,
    pub effect: String,
}

/// A whole parsed civ help string.
#[derive(Debug, Clone, PartialEq, Eq, Default)]
pub struct HelpParse {
    pub civ_type: String,
    pub civ_bonuses: Vec<String>,
    pub team_bonus: String,
    pub unique_techs: Vec<UniqueTechText>,
    pub unique_unit_names: Vec<String>,
}

/// The view of a list of strings.
pub open spec fn strings_view(v: Seq<String>) -> Seq<Seq<char>> {
    v.map_values(|s: String| s@)
}

/// The view of a list of unique techs: `(name, effect)` pairs.
pub open spec fn techs_view(v: Seq<UniqueTechText>) -> Seq<(Seq<char>, Seq<char>)> {
    v.map_values(|t: UniqueTechText| (t.name@, t.effect@))
}

/// The parse state: civ type, bonuses, team bonus, unique techs, unique unit names.
pub type HelpView = (Seq<char>, Seq<Seq<char>>, Seq<char>, Seq<(Seq<char>, Seq<char>)>, Seq<Seq<char>>);

impl View for HelpParse {
    type V = HelpView;

    open spec fn view(&self) -> HelpView {
        (
            self.civ_type@,
            strings_view(self.civ_bonuses@),
            self.team_bonus@,
            techs_view(self.unique_techs@),
            strings_view(self.unique_unit_names@),
        )
    }
}

/// The section a help line belongs to.
#[derive(Debug, Clone, Copy, PartialEq, Eq)]
pub enum Section {
    Bonuses,
    Unit,
    Techs,
    Team,
}

// ---------------------------------------------------------------------------------------
// Specifications of the line-level helpers.

/// An ASCII letter.
pub open spec fn is_ascii_alpha(c: char) -> bool {
    ('a' <= c && c <= 'z') || ('A' <= c && c <= 'Z')
}

/// The number of consecutive ASCII letters in `a` starting at `i`.
pub open spec fn letters_from(a: Seq<char>, i: int) -> int
    decreases a.len() - i,
{
    if 0 <= i < a.len() && is_ascii_alpha(a[i]) {
        1 + letters_from(a, i + 1)
    } else {
        0
    }
}

/// Given the text after a `'<'`, the length of a `[/]letters+>` tag body including its
/// `'>'`, if the text starts with one.
pub open spec fn letter_tag_len_spec(a: Seq<char>) -> Option<int> {
    let i0: int = if a.len() > 0 && a[0] == '/' {
        1
    } else {
        0
    };
    let n = letters_from(a, i0);
    if n == 0 {
        None
    } else if i0 + n < a.len() && a[i0 + n] == '>' {
        Some(i0 + n + 1)
    } else {
        None
    }
}

pub proof fn lemma_letters_from_bound(a: Seq<char>, i: int)
    requires
        0 <= i <= a.len(),
    ensures
        0 <= letters_from(a, i) <= a.len() - i,
    decreases a.len() - i,
{
    if i < a.len() && is_ascii_alpha(a[i]) {
        lemma_letters_from_bound(a, i + 1);
    }
}

pub proof fn lemma_letter_tag_len_bound(a: Seq<char>)
    ensures
        letter_tag_len_spec(a) matches Some(n) ==> 0 < n <= a.len(),
{
    let i0: int = if a.len() > 0 && a[0] == '/' {
        1
    } else {
        0
    };
    lemma_letters_from_bound(a, i0);
}

/// `s` with every `<[/]letters>` tag removed (a `'<'` not opening such a tag is kept).
pub open spec fn strip_letter_tags_spec(s: Seq<char>) -> Seq<char>
    decreases s.len(),
{
    let lt = find(s, seq!['<']);
    if lt == -1 {
        s
    } else {
        proof {
            lemma_find(s, seq!['<']);
        }
        let after = s.subrange(lt + 1, s.len() as int);
        match letter_tag_len_spec(after) {
            Some(n) => {
                proof {
                    lemma_letter_tag_len_bound(after);
                }
                s.subrange(0, lt) + strip_letter_tags_spec(after.subrange(n, after.len() as int))
            },
            None => s.subrange(0, lt) + seq!['<'] + strip_letter_tags_spec(after),
        }
    }
}

/// Case-insensitive (ASCII) "ends with": the part of `line` before the suffix.
pub open spec fn strip_suffix_ci_spec(line: Seq<char>, suffix: Seq<char>) -> Option<Seq<char>> {
    if line.len() >= suffix.len() && ascii_lower_seq(
        line.subrange(line.len() - suffix.len(), line.len() as int),
    ) == ascii_lower_seq(suffix) {
        Some(line.subrange(0, line.len() - suffix.len()))
    } else {
        None
    }
}

/// Case-insensitive (Unicode lowercase mapping) "starts with".
pub open spec fn starts_with_ci_spec(line: Seq<char>, prefix: Seq<char>) -> bool {
    starts_with(lower_each(line), lower_each(prefix))
}

/// Whether some prefix of `prefixes` starts `line`, case-insensitively.
pub open spec fn starts_with_any_ci(line: Seq<char>, prefixes: Seq<Seq<char>>) -> bool {
    exists|i: int| 0 <= i < prefixes.len() && starts_with_ci_spec(line, #[trigger] prefixes[i])
}

/// `line` without a leading `'•'` and the whitespace after it.
pub open spec fn strip_bullet_spec(line: Seq<char>) -> Seq<char> {
    if line.len() > 0 && line[0] == '•' {
        trim_start(line.drop_first())
    } else {
        line
    }
}

/// The largest index `< k` holding `'('` or `')'`, or -1.
pub open spec fn last_paren_before(s: Seq<char>, k: int) -> int
    decreases k,
{
    if k <= 0 {
        -1
    } else if s[k - 1] == '(' || s[k - 1] == ')' {
        k - 1
    } else {
        last_paren_before(s, k - 1)
    }
}

proof fn lemma_last_paren_before_bound(s: Seq<char>, k: int)
    ensures
        -1 <= last_paren_before(s, k) < if k > 0 {
            k
        } else {
            0
        },
    decreases k,
{
    if k > 0 && !(s[k - 1] == '(' || s[k - 1] == ')') {
        lemma_last_paren_before_bound(s, k - 1);
    }
}

/// A found opening paren lies strictly inside `t`.
pub proof fn lemma_paren_open_bound(t: Seq<char>)
    ensures
        paren_open_spec(t) matches Some(i) ==> 0 < i < t.len() - 1,
{
    if t.len() > 0 {
        lemma_last_paren_before_bound(t, t.len() - 1);
    }
}

/// For `t` ending in `')'`: the index of the `'('` opening that final parenthetical,
/// when no other `')'` lies between them and at least one char precedes it.
pub open spec fn paren_open_spec(t: Seq<char>) -> Option<int> {
    if t.len() == 0 || t.last() != ')' {
        None
    } else {
        let i = last_paren_before(t, t.len() - 1);
        if i <= 0 || t[i] == ')' {
            None
        } else {
            Some(i)
        }
    }
}

/// The index of the last `')'` strictly before index `j` of `t`, or -1.
pub open spec fn last_close_before(t: Seq<char>, j: int) -> int
    decreases j,
{
    if j <= 0 {
        -1
    } else if t[j - 1] == ')' {
        j - 1
    } else {
        last_close_before(t, j - 1)
    }
}

/// The index of the first `'('` of `t` in `[i, j)`, or -1.
pub open spec fn first_open_from(t: Seq<char>, i: int, j: int) -> int
    decreases j - i,
{
    if i >= j {
        -1
    } else if t[i] == '(' {
        i
    } else {
        first_open_from(t, i + 1, j)
    }
}

/// For `t` ending in `')'`: where the trailing `\([^)]*\)` starts, the first `'('` after
/// the last `')'` before the final one (any position, the very first included).
pub open spec fn strip_open_spec(t: Seq<char>) -> Option<int> {
    if t.len() == 0 || t.last() != ')' {
        None
    } else {
        let j = t.len() - 1;
        let o = first_open_from(t, last_close_before(t, j) + 1, j);
        if o == -1 {
            None
        } else {
            Some(o)
        }
    }
}

/// `s` without a trailing parenthetical, by the rule `\s*\([^)]*\)\s*$` -> `""`: the
/// whitespace and `(...)` (content may be empty, may hold `'('` but no `')'`) ending the
/// text are dropped; text without one comes back trimmed.
pub open spec fn strip_trailing_paren_spec(s: Seq<char>) -> Seq<char> {
    let t = trim_end(s);
    match strip_open_spec(t) {
        None => trim(s),
        Some(i) => trim_end(t.subrange(0, i)),
    }
}

/// `"Name (Effect)"` split into name and effect; the whole trimmed text and an empty
/// effect when there is no such non-empty trailing parenthetical after a non-empty name.
pub open spec fn split_name_effect_spec(text: Seq<char>) -> (Seq<char>, Seq<char>) {
    let t = trim_end(text);
    match paren_open_spec(t) {
        None => (trim(text), Seq::empty()),
        Some(i) => {
            let name = trim_end(t.subrange(0, i));
            let effect = t.subrange(i + 1, t.len() - 1);
            if name.len() == 0 || effect.len() == 0 {
                (trim(text), Seq::empty())
            } else {
                (name, effect)
            }
        },
    }
}

/// The unique-unit names a unit-section line lists: each comma-separated part, trimmed
/// and stripped of its trailing parenthetical, empty ones dropped.
pub open spec fn unit_names_of(parts: Seq<Seq<char>>) -> Seq<Seq<char>>
    decreases parts.len(),
{
    if parts.len() == 0 {
        Seq::empty()
    } else {
        let name = strip_trailing_paren_spec(trim(parts.last()));
        if name.len() == 0 {
            unit_names_of(parts.drop_last())
        } else {
            unit_names_of(parts.drop_last()).push(name)
        }
    }
}

/// The parse state after one more raw help line.
pub open spec fn help_step(st: (HelpView, Section), raw_line: Seq<char>, lang: Lang) -> (
    HelpView,
    Section,
) {
    let (h, section) = st;
    let (civ_type, bonuses, team, techs, units) = h;
    let line = trim(strip_letter_tags_spec(raw_line));
    if line.len() == 0 {
        st
    } else if civ_type.len() == 0 && strip_suffix_ci_spec(line, civ_suffix(lang)) is Some {
        (
            (trim(strip_suffix_ci_spec(line, civ_suffix(lang))->0), bonuses, team, techs, units),
            section,
        )
    } else if starts_with_ci_spec(line, unit_prefix(lang)) {
        (h, Section::Unit)
    } else if starts_with_any_ci(line, tech_prefixes(lang)) {
        (h, Section::Techs)
    } else if starts_with_ci_spec(line, team_prefix(lang)) {
        (h, Section::Team)
    } else {
        let has_bullet = line[0] == '•';
        let text = trim(strip_bullet_spec(line));
        match section {
            Section::Bonuses => if has_bullet {
                ((civ_type, bonuses.push(text), team, techs, units), section)
            } else {
                st
            },
            Section::Unit => (
                (civ_type, bonuses, team, techs, units + unit_names_of(split_by(text, seq![',']))),
                section,
            ),
            Section::Team => (
                (
                    civ_type,
                    bonuses,
                    if team.len() == 0 {
                        text
                    } else {
                        team + seq![' '] + text
                    },
                    techs,
                    units,
                ),
                section,
            ),
            Section::Techs => if has_bullet {
                ((civ_type, bonuses, team, techs.push(split_name_effect_spec(text)), units), section)
            } else {
                st
            },
        }
    }
}

/// The parse state after the given raw help lines.
pub open spec fn help_run(lines: Seq<Seq<char>>, lang: Lang) -> (HelpView, Section)
    decreases lines.len(),
{
    if lines.len() == 0 {
        (
            (Seq::empty(), Seq::empty(), Seq::empty(), Seq::empty(), Seq::empty()),
            Section::Bonuses,
        )
    } else {
        help_step(help_run(lines.drop_last(), lang), lines.last(), lang)
    }
}

/// What parsing a civ help string yields: the state after all its `"<br>"`-separated
/// lines, or `None` when no civ bonus was found.
pub open spec fn parse_help_spec(raw: Seq<char>, lang: Lang) -> Option<HelpView> {
    let (h, _) = help_run(split_by(raw, "<br>"@), lang);
    if h.1.len() == 0 {
        None
    } else {
        Some(h)
    }
}

// ---------------------------------------------------------------------------------------
// Line-level helpers.

/// Given the text immediately after a `'<'`, the length of a `[/]letters+>` tag body
/// (including its `'>'`), if it starts with one.
fn letter_tag_len(after: &[char]) -> (r: Option<usize>)
    ensures
        match r {
            Some(n) => letter_tag_len_spec(after@) == Some(n as int),
            None => letter_tag_len_spec(after@) is None,
        },
{
    let i0: usize = if after.len() > 0 && after[0] == '/' {
        1
    } else {
        0
    };
    let mut i = i0;
    proof {
        lemma_letters_from_bound(after@, i0 as int);
    }
    while i < after.len() && (('a' <= after[i] && after[i] <= 'z') || ('A' <= after[i]
        && after[i] <= 'Z'))
        invariant
            i0 <= i <= after@.len(),
            i0 <= 1,
            i0 as int == (if after@.len() > 0 && after@[0] == '/' {
                1int
            } else {
                0int
            }),
            letters_from(after@, i0 as int) == (i - i0) + letters_from(after@, i as int),
        decreases after@.len() - i,
    {
        i = i + 1;
    }
    assert(letters_from(after@, i as int) == 0);
    if i == i0 {
        return None;
    }
    if i < after.len() && after[i] == '>' {
        Some(i + 1)
    } else {
        None
    }
}

/// Removes every `<[/]letters>` tag from `s`.
fn strip_letter_tags(s: &[char]) -> (r: Vec<char>)
    ensures
        r@ == strip_letter_tags_spec(s@),
{
    let mut out: Vec<char> = Vec::new();
    let mut rest = copy_chars(s);
    let lt_pat: Vec<char> = vec!['<'];
    assert(lt_pat@ == seq!['<']);
    loop
        invariant
            lt_pat@ == seq!['<'],
            out@ + strip_letter_tags_spec(rest@) == strip_letter_tags_spec(s@),
        decreases rest@.len(),
    {
        match find_chars(&rest, &lt_pat) {
            None => {
                push_all(&mut out, &rest);
                return out;
            },
            Some(lt) => {
                proof {
                    lemma_find(rest@, lt_pat@);
                }
                assert(matches_at(rest@, lt_pat@, lt as int));
                let rl = rest.len();
                let head = subvec(&rest, 0, lt);
                let after = subvec(&rest, lt + 1, rl);
                let ghost old_out = out@;
                push_all(&mut out, &head);
                match letter_tag_len(&after) {
                    Some(n) => {
                        proof {
                            lemma_letter_tag_len_bound(after@);
                        }
                        let next = subvec(&after, n, after.len());
                        assert(old_out + (head@ + strip_letter_tags_spec(next@)) =~= out@
                            + strip_letter_tags_spec(next@));
                        rest = next;
                    },
                    None => {
                        out.push('<');
                        assert(old_out + (head@ + seq!['<'] + strip_letter_tags_spec(after@))
                            =~= out@ + strip_letter_tags_spec(after@));
                        rest = after;
                    },
                }
            },
        }
    }
}

/// Case-insensitive (ASCII) suffix strip: the part of `line` before `suffix`.
fn strip_suffix_ci(line: &[char], suffix: &[char]) -> (r: Option<Vec<char>>)
    ensures
        match r {
            Some(v) => strip_suffix_ci_spec(line@, suffix@) == Some(v@),
            None => strip_suffix_ci_spec(line@, suffix@) is None,
        },
{
    if line.len() < suffix.len() {
        return None;
    }
    let split_at = line.len() - suffix.len();
    let tail = subvec(line, split_at, line.len());
    let a = ascii_lower_chars(&tail);
    let b = ascii_lower_chars(suffix);
    if chars_eq(&a, &b) {
        Some(subvec(line, 0, split_at))
    } else {
        None
    }
}

/// Case-insensitive (Unicode lowercase mapping) prefix test.
fn starts_with_ci(line: &[char], prefix: &[char]) -> (r: bool)
    ensures
        r == starts_with_ci_spec(line@, prefix@),
{
    let l = lower_each_chars(line);
    let p = lower_each_chars(prefix);
    starts_with_chars(&l, &p)
}

/// Whether any of `prefixes` starts `line`, case-insensitively.
fn starts_with_any(line: &[char], prefixes: &Vec<Vec<char>>) -> (r: bool)
    ensures
        r == starts_with_any_ci(line@, views(prefixes@)),
{
    let mut i: usize = 0;
    while i < prefixes.len()
        invariant
            i <= prefixes@.len(),
            forall|j: int|
                0 <= j < i ==> !starts_with_ci_spec(line@, #[trigger] views(prefixes@)[j]),
        decreases prefixes@.len() - i,
    {
        if starts_with_ci(line, &prefixes[i]) {
            assert(views(prefixes@)[i as int] == prefixes@[i as int]@);
            return true;
        }
        i = i + 1;
    }
    false
}

/// Strips a leading `'•'` bullet and the whitespace after it.
fn strip_bullet_prefix(line: &[char]) -> (r: Vec<char>)
    ensures
        r@ == strip_bullet_spec(line@),
{
    if line.len() > 0 && line[0] == '•' {
        let rest = subvec(line, 1, line.len());
        assert(rest@ == line@.drop_first());
        trim_start_chars(&rest)
    } else {
        copy_chars(line)
    }
}

/// For a right-trimmed `t` ending in `')'`, the index of the `'('` opening that final
/// parenthetical (see `paren_open_spec`).
fn find_unnested_trailing_paren_open(t: &[char]) -> (r: Option<usize>)
    ensures
        match r {
            Some(i) => paren_open_spec(t@) == Some(i as int),
            None => paren_open_spec(t@) is None,
        },
{
    if t.len() == 0 || t[t.len() - 1] != ')' {
        return None;
    }
    let close_idx = t.len() - 1;
    let mut i = close_idx;
    while i > 0
        invariant
            i <= close_idx,
            close_idx == t@.len() - 1,
            t@.len() > 0,
            t@.last() == ')',
            last_paren_before(t@, close_idx as int) == last_paren_before(t@, i as int),
        decreases i,
    {
        let ghost prev = i;
        i = i - 1;
        assert(last_paren_before(t@, prev as int) == if t@[i as int] == '(' || t@[i as int] == ')' {
            i as int
        } else {
            last_paren_before(t@, i as int)
        });
        if t[i] == ')' {
            return None;
        }
        if t[i] == '(' {
            if i == 0 {
                return None;
            } else {
                return Some(i);
            }
        }
    }
    None
}

/// Where the trailing parenthetical of `t` opens (see `strip_open_spec`).
fn strip_open(t: &[char]) -> (r: Option<usize>)
    ensures
        match r {
            Some(i) => strip_open_spec(t@) == Some(i as int) && i < t@.len(),
            None => strip_open_spec(t@) is None,
        },
{
    if t.len() == 0 || t[t.len() - 1] != ')' {
        return None;
    }
    let j = t.len() - 1;
    let mut k: usize = j;
    while k > 0 && t[k - 1] != ')'
        invariant
            k <= j,
            j == t@.len() - 1,
            last_close_before(t@, j as int) == last_close_before(t@, k as int),
        decreases k,
    {
        k = k - 1;
    }
    let mut i: usize = k;
    while i < j && t[i] != '('
        invariant
            k <= i <= j,
            j == t@.len() - 1,
            last_close_before(t@, j as int) + 1 == k as int,
            first_open_from(t@, k as int, j as int) == first_open_from(t@, i as int, j as int),
        decreases j - i,
    {
        i = i + 1;
    }
    if i < j {
        Some(i)
    } else {
        None
    }
}

/// Strips a trailing `(...)` parenthetical (content may be empty).
fn strip_trailing_parenthetical_chars(s: &[char]) -> (r: Vec<char>)
    ensures
        r@ == strip_trailing_paren_spec(s@),
{
    let trimmed = trim_end_chars(s);
    match strip_open(&trimmed) {
        None => trim_chars(s),
        Some(open_idx) => {
            let head = subvec(&trimmed, 0, open_idx);
            trim_end_chars(&head)
        },
    }
}

/// Splits `"Name (Effect)"` into `("Name", "Effect")`; see `split_name_effect_spec`.
fn split_name_effect_chars(text: &[char]) -> (r: (Vec<char>, Vec<char>))
    ensures
        (r.0@, r.1@) == split_name_effect_spec(text@),
{
    let trimmed = trim_end_chars(text);
    proof {
        lemma_paren_open_bound(trimmed@);
    }
    match find_unnested_trailing_paren_open(&trimmed) {
        None => (trim_chars(text), Vec::new()),
        Some(open_idx) => {
            let head = subvec(&trimmed, 0, open_idx);
            let name = trim_end_chars(&head);
            let effect = subvec(&trimmed, open_idx + 1, trimmed.len() - 1);
            if name.len() == 0 || effect.len() == 0 {
                (trim_chars(text), Vec::new())
            } else {
                (name, effect)
            }
        },
    }
}

/// Strips a trailing `"(...)"` parenthetical by the rule `\s*\([^)]*\)\s*$` -> `""`,
/// e.g. `"Iron Pagoda (Cavalry)"` becomes `"Iron Pagoda"` and `"(Cavalry)"` becomes `""`.
pub fn strip_trailing_parenthetical(s: &str) -> (r: String)
    ensures
        r@ == strip_trailing_paren_spec(s@),
{
    let v = chars_of(s);
    let out = strip_trailing_parenthetical_chars(&v);
    string_of(&out)
}

/// Splits `"Name (Effect)"` into `("Name", "Effect")`; the whole trimmed text and `""`
/// when there is no non-empty, unnested trailing parenthetical after a non-empty name.
pub fn split_name_effect(text: &str) -> (r: (String, String))
    ensures
        (r.0@, r.1@) == split_name_effect_spec(text@),
{
    let v = chars_of(text);
    let (name, effect) = split_name_effect_chars(&v);
    (string_of(&name), string_of(&effect))
}

// ---------------------------------------------------------------------------------------
// The help-string parser.

/// The running parse state.
struct HelpAcc {
    civ_type: Vec<char>,
    bonuses: Vec<Vec<char>>,
    team: Vec<char>,
    techs: Vec<(Vec<char>, Vec<char>)>,
    units: Vec<Vec<char>>,
    section: Section,
}

/// The view of a list of `(name, effect)` char-vector pairs.
pub open spec fn pairs_view(v: Seq<(Vec<char>, Vec<char>)>) -> Seq<(Seq<char>, Seq<char>)> {
    v.map_values(|p: (Vec<char>, Vec<char>)| (p.0@, p.1@))
}

impl HelpAcc {
    spec fn state(&self) -> (HelpView, Section) {
        (
            (self.civ_type@, views(self.bonuses@), self.team@, pairs_view(self.techs@), views(
                self.units@,
            )),
            self.section,
        )
    }
}

/// The unique-unit names a unit-section line lists.
fn unit_names(text: &[char]) -> (r: Vec<Vec<char>>)
    ensures
        views(r@) == unit_names_of(split_by(text@, seq![','])),
{
    let comma: Vec<char> = vec![','];
    assert(comma@ == seq![',']);
    let parts = split_chars(text, &comma);
    let mut out: Vec<Vec<char>> = Vec::new();
    let mut j: usize = 0;
    assert(views(out@) =~= unit_names_of(views(parts@).subrange(0, 0)));
    while j < parts.len()
        invariant
            j <= parts@.len(),
            views(out@) == unit_names_of(views(parts@).subrange(0, j as int)),
        decreases parts@.len() - j,
    {
        let part = trim_chars(&parts[j]);
        let name = strip_trailing_parenthetical_chars(&part);
        let ghost pre = views(parts@).subrange(0, j as int);
        let ghost next = views(parts@).subrange(0, j + 1);
        assert(next.drop_last() =~= pre);
        assert(next.last() == parts@[j as int]@);
        let ghost old_out = out@;
        if name.len() > 0 {
            out.push(name);
            assert(views(out@) =~= views(old_out).push(name@));
        }
        j = j + 1;
    }
    assert(views(parts@).subrange(0, parts@.len() as int) =~= views(parts@));
    out
}

/// Applies one raw help line to the parse state.
fn help_step_exec(acc: &mut HelpAcc, raw_line: &[char], lang: Lang)
    ensures
        final(acc).state() == help_step(old(acc).state(), raw_line@, lang),
{
    let ghost st0 = acc.state();
    let stripped = strip_letter_tags(raw_line);
    let line = trim_chars(&stripped);
    if line.len() == 0 {
        return;
    }
    if acc.civ_type.len() == 0 {
        let suffix = lang.civ_suffix();
        if let Some(before) = strip_suffix_ci(&line, &suffix) {
            acc.civ_type = trim_chars(&before);
            return;
        }
    }
    let up = lang.unit_prefix();
    if starts_with_ci(&line, &up) {
        acc.section = Section::Unit;
        return;
    }
    let tp = lang.tech_prefixes();
    if starts_with_any(&line, &tp) {
        acc.section = Section::Techs;
        return;
    }
    let mp = lang.team_prefix();
    if starts_with_ci(&line, &mp) {
        acc.section = Section::Team;
        return;
    }
    let has_bullet = line[0] == '•';
    let bare = strip_bullet_prefix(&line);
    let text = trim_chars(&bare);
    match acc.section {
        Section::Bonuses => {
            if has_bullet {
                let ghost old_b = acc.bonuses@;
                acc.bonuses.push(text);
                assert(views(acc.bonuses@) =~= views(old_b).push(text@));
            }
            assert(acc.state() == help_step(st0, raw_line@, lang));
        },
        Section::Unit => {
            let mut names = unit_names(&text);
            let ghost old_u = acc.units@;
            let ghost nv = names@;
            acc.units.append(&mut names);
            assert(views(acc.units@) =~= views(old_u) + views(nv));
            assert(acc.state() == help_step(st0, raw_line@, lang));
        },
        Section::Team => {
            if acc.team.len() == 0 {
                acc.team = text;
            } else {
                acc.team.push(' ');
                push_all(&mut acc.team, &text);
            }
            assert(acc.state() == help_step(st0, raw_line@, lang));
        },
        Section::Techs => {
            if has_bullet {
                let pair = split_name_effect_chars(&text);
                let ghost old_t = acc.techs@;
                let ghost pv = (pair.0@, pair.1@);
                acc.techs.push(pair);
                assert(pairs_view(acc.techs@) =~= pairs_view(old_t).push(pv));
            }
            assert(acc.state() == help_step(st0, raw_line@, lang));
        },
    }
}

/// Converts char vectors to strings.
fn strings_of(v: &Vec<Vec<char>>) -> (r: Vec<String>)
    ensures
        strings_view(r@) == views(v@),
{
    let mut r: Vec<String> = Vec::new();
    let mut i: usize = 0;
    while i < v.len()
        invariant
            i <= v@.len(),
            strings_view(r@) == views(v@).subrange(0, i as int),
        decreases v@.len() - i,
    {
        let s = string_of(&v[i]);
        let ghost old_r = r@;
        r.push(s);
        assert(strings_view(r@) =~= strings_view(old_r).push(s@));
        assert(views(v@).subrange(0, i + 1) =~= views(v@).subrange(0, i as int).push(v@[i as int]@));
        i = i + 1;
    }
    assert(views(v@).subrange(0, v@.len() as int) =~= views(v@));
    r
}

/// Converts `(name, effect)` char-vector pairs to unique-tech values.
fn techs_of(v: &Vec<(Vec<char>, Vec<char>)>) -> (r: Vec<UniqueTechText>)
    ensures
        techs_view(r@) == pairs_view(v@),
{
    let mut r: Vec<UniqueTechText> = Vec::new();
    let mut i: usize = 0;
    while i < v.len()
        invariant
            i <= v@.len(),
            techs_view(r@) == pairs_view(v@).subrange(0, i as int),
        decreases v@.len() - i,
    {
        let t = UniqueTechText { name: string_of(&v[i].0), effect: string_of(&v[i].1) };
        let ghost old_r = r@;
        let ghost tv = (t.name@, t.effect@);
        r.push(t);
        assert(techs_view(r@) =~= techs_view(old_r).push(tv));
        assert(pairs_view(v@).subrange(0, i + 1) =~= pairs_view(v@).subrange(0, i as int).push(
            (v@[i as int].0@, v@[i as int].1@),
        ));
        i = i + 1;
    }
    assert(pairs_view(v@).subrange(0, v@.len() as int) =~= pairs_view(v@));
    r
}

/// Splits on the literal `"<br>"`.
fn split_br_lines(s: &[char]) -> (r: Vec<Vec<char>>)
    ensures
        views(r@) == split_by(s@, "<br>"@),
{
    let br = chars_of("<br>");
    proof {
        reveal_strlit("<br>");
    }
    split_chars(s, &br)
}

/// Parses a civ's raw help string; `None` when it lists no civ bonus (then it is not
/// real civ help text).
pub fn parse_help(raw: &str, lang: Lang) -> (r: Option<HelpParse>)
    ensures
        match r {
            Some(h) => parse_help_spec(raw@, lang) == Some(h@),
            None => parse_help_spec(raw@, lang) is None,
        },
{
    let chars = chars_of(raw);
    let lines = split_br_lines(&chars);
    let mut acc = HelpAcc {
        civ_type: Vec::new(),
        bonuses: Vec::new(),
        team: Vec::new(),
        techs: Vec::new(),
        units: Vec::new(),
        section: Section::Bonuses,
    };
    assert(acc.state().0.1 =~= Seq::<Seq<char>>::empty());
    assert(acc.state().0.3 =~= Seq::<(Seq<char>, Seq<char>)>::empty());
    assert(acc.state().0.4 =~= Seq::<Seq<char>>::empty());
    assert(acc.state() == help_run(views(lines@).subrange(0, 0), lang));
    let mut i: usize = 0;
    while i < lines.len()
        invariant
            i <= lines@.len(),
            acc.state() == help_run(views(lines@).subrange(0, i as int), lang),
        decreases lines@.len() - i,
    {
        help_step_exec(&mut acc, &lines[i], lang);
        assert(views(lines@).subrange(0, i + 1).drop_last() =~= views(lines@).subrange(0, i as int));
        i = i + 1;
    }
    assert(views(lines@).subrange(0, lines@.len() as int) =~= views(lines@));
    if acc.bonuses.len() == 0 {
        None
    } else {
        Some(
            HelpParse {
                civ_type: string_of(&acc.civ_type),
                civ_bonuses: strings_of(&acc.bonuses),
                team_bonus: string_of(&acc.team),
                unique_techs: techs_of(&acc.techs),
                unique_unit_names: strings_of(&acc.units),
            },
        )
    }
}

/// Parses `raw` and requires it to carry civ bonuses and exactly 2 unique techs, the
/// shape every real civ's help text has.
pub fn require_parsed(raw: &str, lang: Lang, civ_key: &str, help_string_id: i64) -> (r: Result<
    HelpParse,
>)
    ensures
        match parse_help_spec(raw@, lang) {
            None => r matches Err(RefdataError::CivHelpUnparseable { civ_key: k, lang: l, help_string_id: h })
                && k@ == civ_key@ && l@ == lang_label(lang) && h == help_string_id,
            Some(h) => if h.3.len() != 2 {
                r matches Err(RefdataError::CivUniqueTechCount { civ_key: k, lang: l, count: n })
                    && k@ == civ_key@ && l@ == lang_label(lang) && n == h.3.len()
            } else {
                r matches Ok(p) && p@ == h
            },
        },
{
    broadcast use vstd::string::to_string_from_display_ensures_for_str;

    let parsed = match parse_help(raw, lang) {
        Some(p) => p,
        None => {
            return Err(
                RefdataError::CivHelpUnparseable {
                    civ_key: civ_key.to_string(),
                    lang: lang.label(),
                    help_string_id,
                },
            );
        },
    };
    if parsed.unique_techs.len() != 2 {
        return Err(
            RefdataError::CivUniqueTechCount {
                civ_key: civ_key.to_string(),
                lang: lang.label(),
                count: parsed.unique_techs.len(),
            },
        );
    }
    Ok(parsed)
}

} // verus!
