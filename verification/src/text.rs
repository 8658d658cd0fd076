//! Character-sequence primitives shared by every text parser in the crate.
//!
//! Strings are processed as `Vec<char>` (their view is the `Seq<char>` that a `str`
//! views as), so every contract below speaks of `Seq<char>`.
use vstd::prelude::*;

verus! {

/// The Unicode `White_Space` property: the exact set that `char::is_whitespace` accepts.
pub open spec fn is_ws(c: char) -> bool {
    ||| ('\u{9}' <= c && c <= '\u{d}')
    ||| c == ' '
    ||| c == '\u{85}'
    ||| c == '\u{a0}'
    ||| c == '\u{1680}'
    ||| ('\u{2000}' <= c && c <= '\u{200a}')
    ||| c == '\u{2028}'
    ||| c == '\u{2029}'
    ||| c == '\u{202f}'
    ||| c == '\u{205f}'
    ||| c == '\u{3000}'
}

/// `char::is_whitespace`.
pub fn is_whitespace(c: char) -> (r: bool)
    ensures
        r == is_ws(c),
{
    ('\u{9}' <= c && c <= '\u{d}') || c == ' ' || c == '\u{85}' || c == '\u{a0}' || c
        == '\u{1680}' || ('\u{2000}' <= c && c <= '\u{200a}') || c == '\u{2028}' || c == '\u{2029}'
        || c == '\u{202f}' || c == '\u{205f}' || c == '\u{3000}'
}

/// `s` without its leading whitespace (`str::trim_start`).
pub open spec fn trim_start(s: Seq<char>) -> Seq<char>
    decreases s.len(),
{
    if s.len() > 0 && is_ws(s[0]) {
        trim_start(s.drop_first())
    } else {
        s
    }
}

/// `s` without its trailing whitespace (`str::trim_end`).
pub open spec fn trim_end(s: Seq<char>) -> Seq<char>
    decreases s.len(),
{
    if s.len() > 0 && is_ws(s.last()) {
        trim_end(s.drop_last())
    } else {
        s
    }
}

/// `s` without leading and trailing whitespace (`str::trim`).
pub open spec fn trim(s: Seq<char>) -> Seq<char> {
    trim_end(trim_start(s))
}

/// A copy of `v[from..to]`.
pub fn subvec(v: &[char], from: usize, to: usize) -> (r: Vec<char>)
    requires
        from <= to <= v@.len(),
    ensures
        r@ == v@.subrange(from as int, to as int),
{
    let mut r: Vec<char> = Vec::new();
    let mut i = from;
    while i < to
        invariant
            from <= i <= to <= v@.len(),
            r@ == v@.subrange(from as int, i as int),
        decreases to - i,
    {
        r.push(v[i]);
        i = i + 1;
    }
    r
}

/// Appends all of `s` to `out`.
pub fn push_all(out: &mut Vec<char>, s: &[char])
    ensures
        final(out)@ == old(out)@ + s@,
{
    let mut i: usize = 0;
    while i < s.len()
        invariant
            i <= s@.len(),
            out@ == old(out)@ + s@.subrange(0, i as int),
        decreases s@.len() - i,
    {
        out.push(s[i]);
        i = i + 1;
    }
    assert(s@.subrange(0, s@.len() as int) == s@);
}

proof fn lemma_trim_start_skip(s: Seq<char>, k: int)
    requires
        0 <= k < s.len(),
        is_ws(s[k]),
    ensures
        trim_start(s.subrange(k, s.len() as int)) == trim_start(s.subrange(k + 1, s.len() as int)),
{
    assert(s.subrange(k, s.len() as int).drop_first() == s.subrange(k + 1, s.len() as int));
}

proof fn lemma_trim_end_skip(s: Seq<char>, k: int)
    requires
        0 < k <= s.len(),
        is_ws(s[k - 1]),
    ensures
        trim_end(s.subrange(0, k)) == trim_end(s.subrange(0, k - 1)),
{
    assert(s.subrange(0, k).drop_last() == s.subrange(0, k - 1));
}

/// Index of the first non-whitespace char of `v`, or its length.
pub fn trim_start_index(v: &[char]) -> (k: usize)
    ensures
        k <= v@.len(),
        trim_start(v@) == v@.subrange(k as int, v@.len() as int),
{
    let mut k: usize = 0;
    assert(v@.subrange(0, v@.len() as int) == v@);
    while k < v.len() && is_whitespace(v[k])
        invariant
            k <= v@.len(),
            trim_start(v@) == trim_start(v@.subrange(k as int, v@.len() as int)),
        decreases v@.len() - k,
    {
        proof {
            lemma_trim_start_skip(v@, k as int);
        }
        k = k + 1;
    }
    k
}

/// Index just past the last non-whitespace char of `v`, or 0.
pub fn trim_end_index(v: &[char]) -> (k: usize)
    ensures
        k <= v@.len(),
        trim_end(v@) == v@.subrange(0, k as int),
{
    let mut k: usize = v.len();
    assert(v@.subrange(0, v@.len() as int) == v@);
    while k > 0 && is_whitespace(v[k - 1])
        invariant
            k <= v@.len(),
            trim_end(v@) == trim_end(v@.subrange(0, k as int)),
        decreases k,
    {
        proof {
            lemma_trim_end_skip(v@, k as int);
        }
        k = k - 1;
    }
    k
}

/// `str::trim_start`.
pub fn trim_start_chars(v: &[char]) -> (r: Vec<char>)
    ensures
        r@ == trim_start(v@),
{
    let k = trim_start_index(v);
    subvec(v, k, v.len())
}

/// `str::trim_end`.
pub fn trim_end_chars(v: &[char]) -> (r: Vec<char>)
    ensures
        r@ == trim_end(v@),
{
    let k = trim_end_index(v);
    subvec(v, 0, k)
}

/// `str::trim`.
pub fn trim_chars(v: &[char]) -> (r: Vec<char>)
    ensures
        r@ == trim(v@),
{
    let s = trim_start_chars(v);
    trim_end_chars(&s)
}

/// Whether `pat` occurs in `s` starting at index `i`.
pub open spec fn matches_at(s: Seq<char>, pat: Seq<char>, i: int) -> bool {
    0 <= i && i + pat.len() <= s.len() && s.subrange(i, i + pat.len()) == pat
}

/// The first index `>= from` at which `pat` occurs in `s`, or -1.
pub open spec fn find_from(s: Seq<char>, pat: Seq<char>, from: int) -> int
    decreases s.len() + 1 - from,
{
    if from < 0 || from + pat.len() > s.len() {
        -1
    } else if matches_at(s, pat, from) {
        from
    } else {
        find_from(s, pat, from + 1)
    }
}

/// The first index at which `pat` occurs in `s`, or -1 (`str::find`).
pub open spec fn find(s: Seq<char>, pat: Seq<char>) -> int {
    find_from(s, pat, 0)
}

proof fn lemma_find_from_facts(s: Seq<char>, pat: Seq<char>, from: int)
    requires
        0 <= from,
    ensures
        find_from(s, pat, from) == -1 || (from <= find_from(s, pat, from) && matches_at(
            s,
            pat,
            find_from(s, pat, from),
        )),
        find_from(s, pat, from) == -1 ==> forall|j: int| from <= j ==> !matches_at(s, pat, j),
        find_from(s, pat, from) != -1 ==> forall|j: int|
            from <= j < find_from(s, pat, from) ==> !matches_at(s, pat, j),
    decreases s.len() + 1 - from,
{
    if from + pat.len() > s.len() {
    } else if matches_at(s, pat, from) {
    } else {
        lemma_find_from_facts(s, pat, from + 1);
    }
}

/// Characterizes `find`: it is the least match index, or -1 when there is none.
pub proof fn lemma_find(s: Seq<char>, pat: Seq<char>)
    ensures
        find(s, pat) == -1 || (0 <= find(s, pat) && matches_at(s, pat, find(s, pat))),
        find(s, pat) == -1 ==> forall|j: int| !matches_at(s, pat, j),
        find(s, pat) != -1 ==> forall|j: int| 0 <= j < find(s, pat) ==> !matches_at(s, pat, j),
{
    lemma_find_from_facts(s, pat, 0);
}

/// Whether `pat` occurs in `s` at index `i` (exec).
pub fn match_at(s: &[char], pat: &[char], i: usize) -> (r: bool)
    ensures
        r == matches_at(s@, pat@, i as int),
{
    if i > s.len() || pat.len() > s.len() - i {
        return false;
    }
    let mut j: usize = 0;
    while j < pat.len()
        invariant
            i + pat@.len() <= s@.len(),
            s@.len() <= usize::MAX,
            j <= pat@.len(),
            forall|t: int| 0 <= t < j ==> s@[i + t] == pat@[t],
        decreases pat@.len() - j,
    {
        if s[i + j] != pat[j] {
            assert(s@.subrange(i as int, i + pat@.len())[j as int] != pat@[j as int]);
            return false;
        }
        j = j + 1;
    }
    assert(s@.subrange(i as int, i + pat@.len()) =~= pat@);
    true
}

/// `find_from` (exec): the first match index `>= from`, if any.
pub fn find_chars_from(s: &[char], pat: &[char], from: usize) -> (r: Option<usize>)
    ensures
        match r {
            Some(i) => find_from(s@, pat@, from as int) == i,
            None => find_from(s@, pat@, from as int) == -1,
        },
{
    let mut i = from;
    while i <= s.len() && pat.len() <= s.len() - i
        invariant
            from <= i,
            find_from(s@, pat@, from as int) == find_from(s@, pat@, i as int),
        decreases s@.len() + 1 - i,
    {
        if match_at(s, pat, i) {
            return Some(i);
        }
        if i >= s.len() {
            assert(find_from(s@, pat@, i as int + 1) == -1);
            return None;
        }
        i = i + 1;
    }
    None
}

/// `str::find` for a string pattern.
pub fn find_chars(s: &[char], pat: &[char]) -> (r: Option<usize>)
    ensures
        match r {
            Some(i) => find(s@, pat@) == i,
            None => find(s@, pat@) == -1,
        },
{
    find_chars_from(s, pat, 0)
}

/// `str::split` by a non-empty literal pattern: the pieces between the non-overlapping
/// leftmost matches, scanned left to right.
pub open spec fn split_by(s: Seq<char>, sep: Seq<char>) -> Seq<Seq<char>>
    recommends
        sep.len() > 0,
    decreases s.len(),
{
    let i = find(s, sep);
    if sep.len() == 0 || i == -1 {
        seq![s]
    } else {
        proof {
            lemma_find(s, sep);
        }
        seq![s.subrange(0, i)] + split_by(s.subrange(i + sep.len(), s.len() as int), sep)
    }
}


/// The chars of `s`, in order (`str::chars`, collected).
pub(crate) fn chars_of(s: &str) -> (r: Vec<char>)
    ensures
        r@ == s@,
{
    broadcast use vstd::string::axiom_spec_iter;

    let mut out: Vec<char> = Vec::new();
    for c in it: s.chars()
        invariant
            it.seq() == s@,
            out@ == it.seq().take(it.index() as int),
    {
        assert(it.seq().take(it.index() as int + 1) == out@.push(c));
        out.push(c);
    }
    assert(s@.take(s@.len() as int) == s@);
    out
}

/// The `String` holding exactly the chars of `v` (`String: FromIterator<char>`).
#[verifier::external_body]
pub(crate) fn string_of(v: &[char]) -> (r: String)
    ensures
        r@ == v@,
{
    v.iter().collect()
}

/// What `str::to_lowercase` returns for a string (Unicode full lowercase mapping,
/// including the context-dependent final-sigma rule).
pub uninterp spec fn lowercase_of(s: Seq<char>) -> Seq<char>;

/// Calls `str::to_lowercase`.
#[verifier::external_body]
pub(crate) fn str_to_lowercase(s: &str) -> (r: String)
    ensures
        r@ == lowercase_of(s@),
{
    s.to_lowercase()
}

/// What `char::to_lowercase` yields for one char (its Unicode lowercase mapping).
pub uninterp spec fn char_lowercase_of(c: char) -> Seq<char>;

/// Calls `char::to_lowercase` and collects the chars it yields.
#[verifier::external_body]
pub(crate) fn char_to_lowercase(c: char) -> (r: Vec<char>)
    ensures
        r@ == char_lowercase_of(c),
{
    c.to_lowercase().collect()
}

/// What `char::to_uppercase` yields for one char (its Unicode uppercase mapping).
pub uninterp spec fn char_uppercase_of(c: char) -> Seq<char>;

/// Calls `char::to_uppercase` and collects the chars it yields.
#[verifier::external_body]
pub(crate) fn char_to_uppercase(c: char) -> (r: Vec<char>)
    ensures
        r@ == char_uppercase_of(c),
{
    c.to_uppercase().collect()
}

/// The chars of `s` lowercased one at a time (`s.chars().flat_map(char::to_lowercase)`).
pub open spec fn lower_each(s: Seq<char>) -> Seq<char>
    decreases s.len(),
{
    if s.len() == 0 {
        Seq::empty()
    } else {
        lower_each(s.drop_last()) + char_lowercase_of(s.last())
    }
}

/// `s.chars().flat_map(char::to_lowercase)`, collected.
pub fn lower_each_chars(s: &[char]) -> (r: Vec<char>)
    ensures
        r@ == lower_each(s@),
{
    let mut r: Vec<char> = Vec::new();
    let mut i: usize = 0;
    while i < s.len()
        invariant
            i <= s@.len(),
            r@ == lower_each(s@.subrange(0, i as int)),
        decreases s@.len() - i,
    {
        let l = char_to_lowercase(s[i]);
        push_all(&mut r, &l);
        assert(s@.subrange(0, i + 1).drop_last() == s@.subrange(0, i as int));
        i = i + 1;
    }
    assert(s@.subrange(0, s@.len() as int) == s@);
    r
}

/// ASCII-only lowercasing of one char (`char::to_ascii_lowercase`).
pub open spec fn ascii_lower(c: char) -> char {
    if 'A' <= c && c <= 'Z' {
        ((c as u32) + 32) as char
    } else {
        c
    }
}

/// `char::to_ascii_lowercase`.
pub fn to_ascii_lower(c: char) -> (r: char)
    ensures
        r == ascii_lower(c),
{
    if 'A' <= c && c <= 'Z' {
        let b: u8 = c as u8;
        ((b + 32) as u8) as char
    } else {
        c
    }
}

/// `str::to_ascii_lowercase`: every char ASCII-lowercased, length preserved.
pub open spec fn ascii_lower_seq(s: Seq<char>) -> Seq<char> {
    s.map_values(|c: char| ascii_lower(c))
}

/// `str::to_ascii_lowercase`.
pub fn ascii_lower_chars(s: &[char]) -> (r: Vec<char>)
    ensures
        r@ == ascii_lower_seq(s@),
{
    let mut r: Vec<char> = Vec::new();
    let mut i: usize = 0;
    while i < s.len()
        invariant
            i <= s@.len(),
            r@ == ascii_lower_seq(s@.subrange(0, i as int)),
        decreases s@.len() - i,
    {
        let c = to_ascii_lower(s[i]);
        r.push(c);
        assert(ascii_lower_seq(s@.subrange(0, i + 1)) =~= ascii_lower_seq(
            s@.subrange(0, i as int),
        ).push(c));
        i = i + 1;
    }
    assert(s@.subrange(0, s@.len() as int) == s@);
    r
}

/// The decimal digit char for `d < 10`.
pub open spec fn digit_char(d: nat) -> char {
    ((48 + d) as u32) as char
}

/// Decimal representation of `n`, no sign, no leading zeros (`Display` for unsigned ints).
pub open spec fn decimal(n: nat) -> Seq<char>
    decreases n,
{
    if n < 10 {
        seq![digit_char(n)]
    } else {
        decimal(n / 10) + seq![digit_char(n % 10)]
    }
}

/// Decimal representation of a signed value (`Display` for signed ints).
pub open spec fn signed_decimal(n: int) -> Seq<char> {
    if n < 0 {
        seq!['-'] + decimal((-n) as nat)
    } else {
        decimal(n as nat)
    }
}

/// One decimal digit char.
pub fn digit(d: u64) -> (c: char)
    requires
        d < 10,
    ensures
        c == digit_char(d as nat),
{
    let b: u8 = (48 + d) as u8;
    b as char
}

/// `n.to_string()` for an unsigned value, as chars.
pub fn u64_decimal(n: u64) -> (r: Vec<char>)
    ensures
        r@ == decimal(n as nat),
    decreases n,
{
    if n < 10 {
        let mut r: Vec<char> = Vec::new();
        r.push(digit(n));
        r
    } else {
        let mut r = u64_decimal(n / 10);
        r.push(digit(n % 10));
        r
    }
}

/// `n.to_string()` for a signed value, as chars.
pub fn i64_decimal(n: i64) -> (r: Vec<char>)
    ensures
        r@ == signed_decimal(n as int),
{
    if n < 0 {
        let m: u64 = if n == i64::MIN {
            9223372036854775808u64
        } else {
            (-n) as u64
        };
        let mut r: Vec<char> = Vec::new();
        r.push('-');
        let d = u64_decimal(m);
        push_all(&mut r, &d);
        r
    } else {
        u64_decimal(n as u64)
    }
}

/// An ASCII decimal digit.
pub open spec fn is_digit(c: char) -> bool {
    '0' <= c && c <= '9'
}

/// The value of a run of decimal digits.
pub open spec fn digits_value(s: Seq<char>) -> nat
    decreases s.len(),
{
    if s.len() == 0 {
        0
    } else {
        digits_value(s.drop_last()) * 10 + ((s.last() as u32) - 48) as nat
    }
}

/// Every char of `s` is a decimal digit.
pub open spec fn all_digits(s: Seq<char>) -> bool {
    forall|i: int| 0 <= i < s.len() ==> is_digit(#[trigger] s[i])
}

/// The integer that `str::parse` reads from `s`: an optional `+`/`-` sign followed by
/// one or more ASCII digits; `None` for anything else.
pub open spec fn parse_int(s: Seq<char>) -> Option<int> {
    if s.len() > 0 && (s[0] == '+' || s[0] == '-') {
        let d = s.drop_first();
        if d.len() > 0 && all_digits(d) {
            Some(
                if s[0] == '-' {
                    -(digits_value(d) as int)
                } else {
                    digits_value(d) as int
                },
            )
        } else {
            None
        }
    } else if s.len() > 0 && all_digits(s) {
        Some(digits_value(s) as int)
    } else {
        None
    }
}

/// `str::parse::<i64>`: `parse_int` within the `i64` range.
pub open spec fn parse_i64_spec(s: Seq<char>) -> Option<i64> {
    match parse_int(s) {
        Some(v) => if i64::MIN <= v <= i64::MAX {
            Some(v as i64)
        } else {
            None
        },
        None => None,
    }
}

/// `str::parse::<i32>`: `parse_int` within the `i32` range.
pub open spec fn parse_i32_spec(s: Seq<char>) -> Option<i32> {
    match parse_int(s) {
        Some(v) => if i32::MIN <= v <= i32::MAX {
            Some(v as i32)
        } else {
            None
        },
        None => None,
    }
}

proof fn lemma_digits_value_grows(s: Seq<char>, k: int)
    requires
        0 <= k <= s.len(),
        all_digits(s),
    ensures
        digits_value(s.subrange(0, k)) <= digits_value(s),
    decreases s.len() - k,
{
    if k < s.len() {
        lemma_digits_value_grows(s, k + 1);
        assert(s.subrange(0, k + 1).drop_last() == s.subrange(0, k));
        assert(is_digit(s[k]));
    } else {
        assert(s.subrange(0, k) == s);
    }
}

/// Reads the digit run `s[from..]` into a value, or `None` when it exceeds `limit`.
fn digits_upto(s: &[char], from: usize, limit: u128) -> (r: Option<u128>)
    requires
        from < s@.len(),
        all_digits(s@.subrange(from as int, s@.len() as int)),
        limit < 0x1000_0000_0000_0000_0000_0000_0000u128,
    ensures
        match r {
            Some(v) => v == digits_value(s@.subrange(from as int, s@.len() as int)) && v <= limit,
            None => digits_value(s@.subrange(from as int, s@.len() as int)) > limit,
        },
{
    let ghost d = s@.subrange(from as int, s@.len() as int);
    let mut acc: u128 = 0;
    let mut i = from;
    while i < s.len()
        invariant
            from <= i <= s@.len(),
            d == s@.subrange(from as int, s@.len() as int),
            all_digits(d),
            acc == digits_value(d.subrange(0, i - from)),
            acc <= limit,
            limit < 0x1000_0000_0000_0000_0000_0000_0000u128,
        decreases s@.len() - i,
    {
        let c = s[i];
        assert(d[i - from] == c);
        assert(is_digit(c));
        let dv: u128 = ((c as u32) - 48) as u128;
        assert(d.subrange(0, i + 1 - from).drop_last() == d.subrange(0, i - from));
        acc = acc * 10 + dv;
        i = i + 1;
        if acc > limit {
            proof {
                lemma_digits_value_grows(d, i - from);
            }
            return None;
        }
    }
    assert(d.subrange(0, d.len() as int) == d);
    Some(acc)
}

/// `str::parse::<i64>`.
pub fn parse_i64(s: &[char]) -> (r: Option<i64>)
    ensures
        r == parse_i64_spec(s@),
{
    if s.len() == 0 {
        return None;
    }
    let neg = s[0] == '-';
    let start: usize = if s[0] == '+' || s[0] == '-' {
        1
    } else {
        0
    };
    if start >= s.len() {
        return None;
    }
    let mut i = start;
    while i < s.len()
        invariant
            start <= i <= s@.len(),
            s@.len() > 0,
            start <= 1,
            (start == 1) == (s@[0] == '+' || s@[0] == '-'),
            forall|j: int| start <= j < i ==> is_digit(s@[j]),
        decreases s@.len() - i,
    {
        if !('0' <= s[i] && s[i] <= '9') {
            assert(!is_digit(s@[i as int]));
            proof {
                if start == 1 {
                    assert(s@.drop_first()[i - 1] == s@[i as int]);
                    assert(!all_digits(s@.drop_first()));
                    assert(s@[0] == '+' || s@[0] == '-');
                    assert(parse_int(s@) is None);
                } else {
                    assert(!all_digits(s@));
                    assert(!(s@[0] == '+' || s@[0] == '-'));
                    assert(parse_int(s@) is None);
                }
            }
            return None;
        }
        i = i + 1;
    }
    let ghost d = s@.subrange(start as int, s@.len() as int);
    assert(all_digits(d));
    proof {
        if start == 1 {
            assert(d == s@.drop_first());
        } else {
            assert(d == s@);
        }
    }
    match digits_upto(s, start, 9223372036854775808u128) {
        None => None,
        Some(v) => {
            if neg {
                if v == 9223372036854775808u128 {
                    Some(i64::MIN)
                } else {
                    Some(-(v as i64))
                }
            } else if v <= 9223372036854775807u128 {
                Some(v as i64)
            } else {
                None
            }
        },
    }
}

/// `str::parse::<i32>`.
pub fn parse_i32(s: &[char]) -> (r: Option<i32>)
    ensures
        r == parse_i32_spec(s@),
{
    match parse_i64(s) {
        Some(v) => if -2147483648i64 <= v && v <= 2147483647i64 {
            Some(v as i32)
        } else {
            proof {
                assert(parse_int(s@) == Some(v as int));
            }
            None
        },
        None => {
            proof {
                if parse_int(s@) is Some {
                    assert(!(i64::MIN <= parse_int(s@)->0 <= i64::MAX));
                }
            }
            None
        },
    }
}

/// `str::parse::<u64>`: an optional `+` and one or more digits, within range.
pub open spec fn parse_u64_spec(s: Seq<char>) -> Option<u64> {
    match parse_int(s) {
        Some(v) => if 0 <= v <= u64::MAX && !(s.len() > 0 && s[0] == '-') {
            Some(v as u64)
        } else {
            None
        },
        None => None,
    }
}

/// `str::parse::<u64>`.
pub fn parse_u64(s: &[char]) -> (r: Option<u64>)
    ensures
        r == parse_u64_spec(s@),
{
    if s.len() == 0 || s[0] == '-' {
        return None;
    }
    let start: usize = if s[0] == '+' {
        1
    } else {
        0
    };
    if start >= s.len() {
        return None;
    }
    let mut i = start;
    while i < s.len()
        invariant
            start <= i <= s@.len(),
            s@.len() > 0,
            start <= 1,
            s@[0] != '-',
            (start == 1) == (s@[0] == '+'),
            forall|j: int| start <= j < i ==> is_digit(s@[j]),
        decreases s@.len() - i,
    {
        if !('0' <= s[i] && s[i] <= '9') {
            assert(!is_digit(s@[i as int]));
            proof {
                if start == 1 {
                    assert(s@.drop_first()[i - 1] == s@[i as int]);
                    assert(!all_digits(s@.drop_first()));
                } else {
                    assert(!all_digits(s@));
                }
            }
            return None;
        }
        i = i + 1;
    }
    let ghost d = s@.subrange(start as int, s@.len() as int);
    assert(all_digits(d));
    proof {
        if start == 1 {
            assert(d == s@.drop_first());
        } else {
            assert(d == s@);
        }
    }
    match digits_upto(s, start, 18446744073709551615u128) {
        None => None,
        Some(v) => Some(v as u64),
    }
}

/// `l` with one trailing `'\r'` removed, if present.
pub open spec fn strip_cr(l: Seq<char>) -> Seq<char> {
    if l.len() > 0 && l.last() == '\r' {
        l.drop_last()
    } else {
        l
    }
}

/// `str::lines`: split at `'\n'` (a `"\r\n"` ending loses its `'\r'` too); a final line
/// ending yields no extra empty line.
pub open spec fn lines(s: Seq<char>) -> Seq<Seq<char>>
    decreases s.len(),
{
    if s.len() == 0 {
        Seq::empty()
    } else {
        let i = find(s, seq!['\n']);
        if i == -1 {
            seq![s]
        } else {
            proof {
                lemma_find(s, seq!['\n']);
            }
            seq![strip_cr(s.subrange(0, i))] + lines(s.subrange(i + 1, s.len() as int))
        }
    }
}

/// The views of a sequence of char vectors.
pub open spec fn views(v: Seq<Vec<char>>) -> Seq<Seq<char>> {
    v.map_values(|x: Vec<char>| x@)
}

/// `str::lines`, collected.
pub fn lines_of(s: &[char]) -> (r: Vec<Vec<char>>)
    ensures
        views(r@) == lines(s@),
{
    let mut out: Vec<Vec<char>> = Vec::new();
    let mut pos: usize = 0;
    let nl: Vec<char> = vec!['\n'];
    assert(nl@ == seq!['\n']);
    assert(s@.subrange(0, s@.len() as int) == s@);
    assert(views(out@) =~= Seq::<Seq<char>>::empty());
    while pos < s.len()
        invariant
            pos <= s@.len(),
            nl@ == seq!['\n'],
            views(out@) + lines(s@.subrange(pos as int, s@.len() as int)) == lines(s@),
        decreases s@.len() - pos,
    {
        let rest = subvec(s, pos, s.len());
        let ghost old_out = out@;
        match find_chars(&rest, &nl) {
            None => {
                assert(lines(rest@) == seq![rest@]);
                out.push(rest);
                assert(views(out@) =~= views(old_out).push(rest@));
                pos = s.len();
                assert(lines(s@.subrange(pos as int, s@.len() as int)) =~= Seq::<Seq<char>>::empty());
                assert(views(out@) + Seq::<Seq<char>>::empty() =~= views(out@));
                assert(views(old_out) + seq![rest@] =~= views(out@));
            },
            Some(i) => {
                proof {
                    lemma_find(rest@, nl@);
                }
                let mut line = subvec(&rest, 0, i);
                if line.len() > 0 && line[line.len() - 1] == '\r' {
                    line.pop();
                }
                assert(line@ == strip_cr(rest@.subrange(0, i as int)));
                assert(rest@.subrange(i + 1, rest@.len() as int) =~= s@.subrange(
                    pos + i + 1,
                    s@.len() as int,
                ));
                pos = pos + i + 1;
                out.push(line);
                assert(views(out@) =~= views(old_out).push(line@));
                assert(views(old_out) + (seq![line@] + lines(s@.subrange(pos as int, s@.len() as int)))
                    =~= views(out@) + lines(s@.subrange(pos as int, s@.len() as int)));
            },
        }
    }
    assert(lines(s@.subrange(pos as int, s@.len() as int)) =~= Seq::<Seq<char>>::empty());
    assert(views(out@) + Seq::<Seq<char>>::empty() =~= views(out@));
    out
}

/// `str::split` by a non-empty literal separator, collected.
pub fn split_chars(s: &[char], sep: &[char]) -> (r: Vec<Vec<char>>)
    requires
        sep@.len() > 0,
    ensures
        views(r@) == split_by(s@, sep@),
{
    let mut out: Vec<Vec<char>> = Vec::new();
    let mut rest = subvec(s, 0, s.len());
    assert(s@.subrange(0, s@.len() as int) == s@);
    assert(views(out@) =~= Seq::<Seq<char>>::empty());
    assert(views(out@) + split_by(rest@, sep@) =~= split_by(s@, sep@));
    loop
        invariant
            sep@.len() > 0,
            views(out@) + split_by(rest@, sep@) == split_by(s@, sep@),
        decreases rest@.len(),
    {
        let ghost old_out = out@;
        match find_chars(&rest, sep) {
            None => {
                assert(split_by(rest@, sep@) == seq![rest@]);
                let ghost rv = rest@;
                out.push(rest);
                assert(views(out@) =~= views(old_out).push(rv));
                assert(views(old_out) + seq![rv] =~= views(out@));
                return out;
            },
            Some(i) => {
                proof {
                    lemma_find(rest@, sep@);
                }
                assert(matches_at(rest@, sep@, i as int));
                let rl = rest.len();
                let sl = sep.len();
                assert(i + sl <= rl);
                let piece = subvec(&rest, 0, i);
                let next = subvec(&rest, i + sl, rl);
                let ghost rv = rest@;
                assert(split_by(rv, sep@) == seq![piece@] + split_by(next@, sep@));
                out.push(piece);
                assert(views(out@) =~= views(old_out).push(piece@));
                assert(views(old_out) + (seq![piece@] + split_by(next@, sep@)) =~= views(out@)
                    + split_by(next@, sep@));
                rest = next;
            },
        }
    }
}

/// Whether `s` starts with `p`.
pub open spec fn starts_with(s: Seq<char>, p: Seq<char>) -> bool {
    p.len() <= s.len() && s.subrange(0, p.len() as int) == p
}

/// Whether `s` ends with `p`.
pub open spec fn ends_with(s: Seq<char>, p: Seq<char>) -> bool {
    p.len() <= s.len() && s.subrange(s.len() - p.len(), s.len() as int) == p
}

/// `str::starts_with` for a string pattern.
pub fn starts_with_chars(s: &[char], p: &[char]) -> (r: bool)
    ensures
        r == starts_with(s@, p@),
{
    match_at(s, p, 0)
}

/// `str::ends_with` for a string pattern.
pub fn ends_with_chars(s: &[char], p: &[char]) -> (r: bool)
    ensures
        r == ends_with(s@, p@),
{
    if p.len() > s.len() {
        false
    } else {
        match_at(s, p, s.len() - p.len())
    }
}

/// `str::split_once` by one char: the parts before and after its first occurrence.
pub open spec fn split_once(s: Seq<char>, c: char) -> Option<(Seq<char>, Seq<char>)> {
    let i = find(s, seq![c]);
    if i == -1 {
        None
    } else {
        Some((s.subrange(0, i), s.subrange(i + 1, s.len() as int)))
    }
}

/// `str::split_once` by one char (equivalently, `splitn(2, c)` with two pieces).
pub fn split_once_char(s: &[char], c: char) -> (r: Option<(Vec<char>, Vec<char>)>)
    ensures
        match r {
            Some((a, b)) => split_once(s@, c) == Some((a@, b@)),
            None => split_once(s@, c) is None,
        },
{
    let pat: Vec<char> = vec![c];
    assert(pat@ == seq![c]);
    match find_chars(s, &pat) {
        None => None,
        Some(i) => {
            proof {
                lemma_find(s@, pat@);
            }
            assert(matches_at(s@, pat@, i as int));
            let sl = s.len();
            assert(i + 1 <= sl);
            let a = subvec(s, 0, i);
            let b = subvec(s, i + 1, sl);
            Some((a, b))
        },
    }
}

/// Whether `s` is empty or all whitespace (`str::trim().is_empty()`).
pub open spec fn is_blank(s: Seq<char>) -> bool {
    trim(s).len() == 0
}

/// Equality of two char slices.
pub fn chars_eq(a: &[char], b: &[char]) -> (r: bool)
    ensures
        r == (a@ == b@),
{
    if a.len() != b.len() {
        return false;
    }
    let r = match_at(a, b, 0);
    proof {
        if r {
            assert(a@.subrange(0, b@.len() as int) == a@);
        } else {
            if a@ == b@ {
                assert(a@.subrange(0, b@.len() as int) == a@);
            }
        }
    }
    r
}

/// A copy of a whole char slice.
pub fn copy_chars(v: &[char]) -> (r: Vec<char>)
    ensures
        r@ == v@,
{
    let r = subvec(v, 0, v.len());
    assert(v@.subrange(0, v@.len() as int) == v@);
    r
}

/// `str` equality (`<str as PartialEq>::eq`): equal exactly when the char sequences are.
#[verifier::external_body]
pub(crate) fn str_eq(a: &str, b: &str) -> (r: bool)
    ensures
        r == (a@ == b@),
{
    a == b
}


/// Lexicographic order of char sequences by code point (the order of `String`'s `Ord`,
/// which compares UTF-8 bytes): a proper prefix comes first.
pub open spec fn lex_lt(a: Seq<char>, b: Seq<char>) -> bool
    decreases a.len(),
{
    if a.len() == 0 {
        b.len() > 0
    } else if b.len() == 0 {
        false
    } else if a[0] < b[0] {
        true
    } else if a[0] > b[0] {
        false
    } else {
        lex_lt(a.drop_first(), b.drop_first())
    }
}

/// `lex_lt` is a strict total order: irreflexive, transitive, and any two distinct
/// sequences are ordered one way.
pub proof fn lemma_lex_order(a: Seq<char>, b: Seq<char>, c: Seq<char>)
    ensures
        !lex_lt(a, a),
        lex_lt(a, b) ==> !lex_lt(b, a),
        lex_lt(a, b) && lex_lt(b, c) ==> lex_lt(a, c),
        a == b || lex_lt(a, b) || lex_lt(b, a),
    decreases a.len(),
{
    if a.len() > 0 && b.len() > 0 && c.len() > 0 {
        lemma_lex_order(a.drop_first(), b.drop_first(), c.drop_first());
    } else if a.len() > 0 && b.len() > 0 {
        lemma_lex_order(a.drop_first(), b.drop_first(), b.drop_first());
    } else if a.len() > 0 {
        lemma_lex_order(a.drop_first(), a.drop_first(), a.drop_first());
    }
    if a.len() > 0 && b.len() > 0 && a[0] == b[0] && a.drop_first() == b.drop_first() {
        assert(a =~= seq![a[0]] + a.drop_first());
        assert(b =~= seq![b[0]] + b.drop_first());
    }
    if a.len() == 0 && b.len() == 0 {
        assert(a =~= b);
    }
}

/// Whether `a` orders before `b` (`String`'s `<`), computed.
pub fn chars_lt(a: &[char], b: &[char]) -> (r: bool)
    ensures
        r == lex_lt(a@, b@),
{
    let mut i: usize = 0;
    assert(a@.subrange(0, a@.len() as int) == a@);
    assert(b@.subrange(0, b@.len() as int) == b@);
    while i < a.len() && i < b.len()
        invariant
            i <= a@.len(),
            i <= b@.len(),
            forall|j: int| 0 <= j < i ==> a@[j] == b@[j],
            lex_lt(a@, b@) == lex_lt(a@.subrange(i as int, a@.len() as int), b@.subrange(i as int, b@.len() as int)),
        decreases a@.len() - i,
    {
        let x = a[i];
        let y = b[i];
        let ghost sa = a@.subrange(i as int, a@.len() as int);
        let ghost sb = b@.subrange(i as int, b@.len() as int);
        assert(sa[0] == x && sb[0] == y);
        if x < y {
            return true;
        }
        if x > y {
            return false;
        }
        assert(sa.drop_first() == a@.subrange(i + 1, a@.len() as int));
        assert(sb.drop_first() == b@.subrange(i + 1, b@.len() as int));
        i = i + 1;
    }
    i < b.len()
}

} // verus!
