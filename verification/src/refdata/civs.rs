//! The base-game civs' raw help strings (EN + TR), keyed by civ key:
//! `{"civs": {key: {"internal_name"?, "help_string_id", "help_en", "help_tr"}}}`.
use vstd::prelude::*;

use crate::json::{get_member, json_parse, member, parse_json, JsonValue};
use crate::refdata::error::{RefdataError, Result};
use crate::str_map::{assoc_insert, StrMap};
use crate::text::{chars_of, parse_i64, parse_i64_spec, string_of};

verus! {

/// One civ's raw help strings.
#[derive(Debug, Clone, PartialEq)]
pub struct RawCiv {
    /// The game's internal name, where the slice carries one.
    pub internal_name: Option<String>,
    pub help_string_id: i64,
    pub help_en: String,
    pub help_tr: String,
}

impl View for RawCiv {
    type V = (Option<Seq<char>>, i64, Seq<char>, Seq<char>);

    open spec fn view(&self) -> Self::V {
        (
            match self.internal_name {
                Some(s) => Some(s@),
                None => None,
            },
            self.help_string_id,
            self.help_en@,
            self.help_tr@,
        )
    }
}

/// An optional string member: absent or `null` is `None`, a string is itself, anything
/// else is malformed (the outer `None`).
pub open spec fn opt_str_member(fields: Seq<(String, JsonValue)>, key: Seq<char>) -> Option<Option<Seq<char>>> {
    match member(fields, key) {
        None => Some(None),
        Some(JsonValue::Null) => Some(None),
        Some(JsonValue::Str(s)) => Some(Some(s@)),
        _ => None,
    }
}

/// A string member.
pub open spec fn str_member(fields: Seq<(String, JsonValue)>, key: Seq<char>) -> Option<Seq<char>> {
    match member(fields, key) {
        Some(JsonValue::Str(s)) => Some(s@),
        _ => None,
    }
}

/// An `i64` member.
pub open spec fn i64_member(fields: Seq<(String, JsonValue)>, key: Seq<char>) -> Option<i64> {
    match member(fields, key) {
        Some(JsonValue::Number(n)) => parse_i64_spec(n@),
        _ => None,
    }
}

/// The civ a JSON value describes, if it is well formed (other members ignored).
pub open spec fn raw_civ_of(v: JsonValue) -> Option<(Option<Seq<char>>, i64, Seq<char>, Seq<char>)> {
    match v {
        JsonValue::Object(f) => match (
            opt_str_member(f@, "internal_name"@),
            i64_member(f@, "help_string_id"@),
            str_member(f@, "help_en"@),
            str_member(f@, "help_tr"@),
        ) {
            (Some(n), Some(id), Some(en), Some(tr)) => Some((n, id, en, tr)),
            _ => None,
        },
        _ => None,
    }
}

/// The civ table the members of the `civs` object build, in order, a later key
/// replacing an earlier one; `None` if any member is malformed.
pub open spec fn civ_entries(members: Seq<(String, JsonValue)>) -> Option<
    Seq<(Seq<char>, (Option<Seq<char>>, i64, Seq<char>, Seq<char>))>,
>
    decreases members.len(),
{
    if members.len() == 0 {
        Some(Seq::empty())
    } else {
        match (civ_entries(members.drop_last()), raw_civ_of(members.last().1)) {
            (Some(p), Some(c)) => Some(assoc_insert(p, members.last().0@, c)),
            _ => None,
        }
    }
}

/// The civ table a civs document holds.
pub open spec fn civs_doc(v: JsonValue) -> Option<Seq<(Seq<char>, (Option<Seq<char>>, i64, Seq<char>, Seq<char>))>> {
    match v {
        JsonValue::Object(fields) => match member(fields@, "civs"@) {
            Some(JsonValue::Object(members)) => civ_entries(members@),
            _ => None,
        },
        _ => None,
    }
}

/// An optional string member, read.
pub fn read_opt_str(fields: &Vec<(String, JsonValue)>, key: &str) -> (r: Option<Option<String>>)
    ensures
        match r {
            Some(Some(s)) => opt_str_member(fields@, key@) == Some(Some(s@)),
            Some(None) => opt_str_member(fields@, key@) == Some(None::<Seq<char>>),
            None => opt_str_member(fields@, key@) is None,
        },
{
    match get_member(fields, key) {
        None => Some(None),
        Some(JsonValue::Null) => Some(None),
        Some(JsonValue::Str(s)) => Some(Some(s.clone())),
        _ => None,
    }
}

/// A string member, read.
pub fn read_str(fields: &Vec<(String, JsonValue)>, key: &str) -> (r: Option<String>)
    ensures
        match r {
            Some(s) => str_member(fields@, key@) == Some(s@),
            None => str_member(fields@, key@) is None,
        },
{
    match get_member(fields, key) {
        Some(JsonValue::Str(s)) => Some(s.clone()),
        _ => None,
    }
}

/// An `i64` member, read.
pub fn read_i64(fields: &Vec<(String, JsonValue)>, key: &str) -> (r: Option<i64>)
    ensures
        r == i64_member(fields@, key@),
{
    match get_member(fields, key) {
        Some(JsonValue::Number(n)) => {
            let c = chars_of(n.as_str());
            parse_i64(&c)
        },
        _ => None,
    }
}

fn read_civ(v: &JsonValue) -> (r: Option<RawCiv>)
    ensures
        match r {
            Some(c) => raw_civ_of(*v) == Some(c@),
            None => raw_civ_of(*v) is None,
        },
{
    let f = match v {
        JsonValue::Object(f) => f,
        _ => return None,
    };
    let internal_name = read_opt_str(f, "internal_name");
    let id = read_i64(f, "help_string_id");
    let en = read_str(f, "help_en");
    let tr = read_str(f, "help_tr");
    match (internal_name, id, en, tr) {
        (Some(n), Some(id), Some(en), Some(tr)) => Some(
            RawCiv { internal_name: n, help_string_id: id, help_en: en, help_tr: tr },
        ),
        _ => None,
    }
}

proof fn lemma_civ_entries_prefix(m: Seq<(String, JsonValue)>, k: int)
    requires
        0 <= k <= m.len(),
        civ_entries(m) is Some,
    ensures
        civ_entries(m.subrange(0, k)) is Some,
    decreases m.len() - k,
{
    if k < m.len() {
        let w = m.drop_last();
        assert(w.subrange(0, k) == m.subrange(0, k));
        lemma_civ_entries_prefix(w, k);
    } else {
        assert(m.subrange(0, k) == m);
    }
}

/// The civs-to-table step of [`parse`], from the parsed document: a document without a
/// `civs` object of well-formed civs fails with [`RefdataError::ParseSource`].
pub fn from_json(v: &JsonValue) -> (r: Result<StrMap<RawCiv>>)
    ensures
        match civs_doc(*v) {
            None => r matches Err(RefdataError::ParseSource { file, .. }) && file@
                == "aoe2techtree-civs.json"@,
            Some(t) => r matches Ok(m) && m@ == t,
        },
{
    let fail = RefdataError::ParseSource {
        file: "aoe2techtree-civs.json",
        message: string_of(&chars_of("invalid civs document")),
    };
    let fields = match v {
        JsonValue::Object(fields) => fields,
        _ => return Err(fail),
    };
    let members = match get_member(fields, "civs") {
        Some(JsonValue::Object(members)) => members,
        _ => return Err(fail),
    };
    assert(civs_doc(*v) == civ_entries(members@));
    let mut out: StrMap<RawCiv> = StrMap::new();
    let mut i: usize = 0;
    while i < members.len()
        invariant
            i <= members@.len(),
            civs_doc(*v) == civ_entries(members@),
            civ_entries(members@.subrange(0, i as int)) == Some(out@),
        decreases members@.len() - i,
    {
        let ghost pre = members@.subrange(0, i as int);
        assert(members@.subrange(0, i + 1).drop_last() == pre);
        assert(members@.subrange(0, i + 1).last() == members@[i as int]);
        match read_civ(&members[i].1) {
            None => {
                proof {
                    if civ_entries(members@) is Some {
                        lemma_civ_entries_prefix(members@, i + 1);
                    }
                }
                return Err(
                    RefdataError::ParseSource {
                        file: "aoe2techtree-civs.json",
                        message: string_of(&chars_of("invalid civ entry")),
                    },
                );
            },
            Some(c) => {
                out.insert(members[i].0.clone(), c);
            },
        }
        i = i + 1;
    }
    assert(members@.subrange(0, members@.len() as int) == members@);
    Ok(out)
}

/// Parses civs-document text: malformed JSON, or a document of the wrong shape, fails
/// with [`RefdataError::ParseSource`]; otherwise the civs keyed by civ key.
pub fn parse(json: &str) -> (r: Result<StrMap<RawCiv>>)
    ensures
        match json_parse(json@) {
            Err(_) => r matches Err(RefdataError::ParseSource { file, .. }) && file@
                == "aoe2techtree-civs.json"@,
            Ok(v) => match civs_doc(v) {
                None => r matches Err(RefdataError::ParseSource { file, .. }) && file@
                    == "aoe2techtree-civs.json"@,
                Some(t) => r matches Ok(m) && m@ == t,
            },
        },
{
    match parse_json(json) {
        Ok(v) => from_json(&v),
        Err(message) => Err(RefdataError::ParseSource { file: "aoe2techtree-civs.json", message }),
    }
}

} // verus!
