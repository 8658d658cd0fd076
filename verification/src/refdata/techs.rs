//! The tech id space: `{"techs": {key: {"ID": i32, "internal_name"?}}}`, keyed by `ID`.
use std::collections::HashMap;
use vstd::prelude::*;

use crate::json::{get_member, json_parse, member, parse_json, JsonValue};
use crate::refdata::civs::{opt_str_member, read_opt_str};
use crate::refdata::error::{RefdataError, Result};
use crate::text::{chars_of, parse_i32, parse_i32_spec, string_of};

verus! {

broadcast use vstd::std_specs::hash::group_hash_axioms;

/// One tech of the slice.
#[derive(Debug, Clone, PartialEq)]
pub struct RawTech {
    pub id: i32,
    pub internal_name: Option<String>,
}

impl View for RawTech {
    type V = (i32, Option<Seq<char>>);

    open spec fn view(&self) -> (i32, Option<Seq<char>>) {
        (
            self.id,
            match self.internal_name {
                Some(s) => Some(s@),
                None => None,
            },
        )
    }
}

/// The tech a JSON value describes, if well formed: an object with an `i32` `ID` and an
/// optional string `internal_name` (other members ignored).
pub open spec fn raw_tech_of(v: JsonValue) -> Option<(i32, Option<Seq<char>>)> {
    match v {
        JsonValue::Object(f) => match (
            member(f@, "ID"@),
            opt_str_member(f@, "internal_name"@),
        ) {
            (Some(JsonValue::Number(n)), Some(name)) => match parse_i32_spec(n@) {
                Some(id) => Some((id, name)),
                None => None,
            },
            _ => None,
        },
        _ => None,
    }
}

/// The table the members of the `techs` object build, keyed by each tech's `ID`, in
/// member order (a later tech replacing an earlier one with the same `ID`); `None` if any
/// member is malformed.
pub open spec fn tech_table(members: Seq<(String, JsonValue)>) -> Option<Map<i32, (i32, Option<Seq<char>>)>>
    decreases members.len(),
{
    if members.len() == 0 {
        Some(Map::empty())
    } else {
        match (tech_table(members.drop_last()), raw_tech_of(members.last().1)) {
            (Some(m), Some(t)) => Some(m.insert(t.0, t)),
            _ => None,
        }
    }
}

/// The table a techs document holds.
pub open spec fn techs_doc(v: JsonValue) -> Option<Map<i32, (i32, Option<Seq<char>>)>> {
    match v {
        JsonValue::Object(fields) => match member(fields@, "techs"@) {
            Some(JsonValue::Object(members)) => tech_table(members@),
            _ => None,
        },
        _ => None,
    }
}

/// The techs of a map, by their views.
pub open spec fn techs_view(m: Map<i32, RawTech>) -> Map<i32, (i32, Option<Seq<char>>)> {
    m.map_values(|t: RawTech| t@)
}

fn read_tech(v: &JsonValue) -> (r: Option<RawTech>)
    ensures
        match r {
            Some(t) => raw_tech_of(*v) == Some(t@),
            None => raw_tech_of(*v) is None,
        },
{
    let f = match v {
        JsonValue::Object(f) => f,
        _ => return None,
    };
    let id = match get_member(f, "ID") {
        Some(JsonValue::Number(n)) => {
            let c = chars_of(n.as_str());
            parse_i32(&c)
        },
        _ => None,
    };
    let name = read_opt_str(f, "internal_name");
    match (id, name) {
        (Some(id), Some(n)) => Some(RawTech { id, internal_name: n }),
        _ => None,
    }
}

proof fn lemma_tech_table_prefix(m: Seq<(String, JsonValue)>, k: int)
    requires
        0 <= k <= m.len(),
        tech_table(m) is Some,
    ensures
        tech_table(m.subrange(0, k)) is Some,
    decreases m.len() - k,
{
    if k < m.len() {
        let w = m.drop_last();
        assert(w.subrange(0, k) == m.subrange(0, k));
        lemma_tech_table_prefix(w, k);
    } else {
        assert(m.subrange(0, k) == m);
    }
}

/// The techs-to-table step of [`parse`], from the parsed document: a document without a
/// `techs` object of well-formed techs fails with [`RefdataError::ParseSource`].
pub fn from_json(v: &JsonValue) -> (r: Result<HashMap<i32, RawTech>>)
    ensures
        match techs_doc(*v) {
            None => r matches Err(RefdataError::ParseSource { file, .. }) && file@
                == "aoe2techtree-techs.json"@,
            Some(t) => r matches Ok(m) && techs_view(m@) == t,
        },
{
    let fail = RefdataError::ParseSource {
        file: "aoe2techtree-techs.json",
        message: string_of(&chars_of("invalid techs document")),
    };
    let fields = match v {
        JsonValue::Object(fields) => fields,
        _ => return Err(fail),
    };
    let members = match get_member(fields, "techs") {
        Some(JsonValue::Object(members)) => members,
        _ => return Err(fail),
    };
    assert(techs_doc(*v) == tech_table(members@));
    let mut out: HashMap<i32, RawTech> = HashMap::new();
    assert(techs_view(out@) =~= Map::<i32, (i32, Option<Seq<char>>)>::empty());
    let mut i: usize = 0;
    while i < members.len()
        invariant
            i <= members@.len(),
            techs_doc(*v) == tech_table(members@),
            tech_table(members@.subrange(0, i as int)) == Some(techs_view(out@)),
        decreases members@.len() - i,
    {
        let ghost pre = members@.subrange(0, i as int);
        assert(members@.subrange(0, i + 1).drop_last() == pre);
        assert(members@.subrange(0, i + 1).last() == members@[i as int]);
        match read_tech(&members[i].1) {
            None => {
                proof {
                    if tech_table(members@) is Some {
                        lemma_tech_table_prefix(members@, i + 1);
                    }
                }
                return Err(
                    RefdataError::ParseSource {
                        file: "aoe2techtree-techs.json",
                        message: string_of(&chars_of("invalid tech entry")),
                    },
                );
            },
            Some(t) => {
                let ghost before = techs_view(out@);
                let ghost tv = t@;
                out.insert(t.id, t);
                assert(techs_view(out@) =~= before.insert(tv.0, tv));
            },
        }
        i = i + 1;
    }
    assert(members@.subrange(0, members@.len() as int) == members@);
    Ok(out)
}

/// Parses techs-document text: malformed JSON, or a document of the wrong shape, fails
/// with [`RefdataError::ParseSource`]; otherwise the techs keyed by `ID`.
pub fn parse(json: &str) -> (r: Result<HashMap<i32, RawTech>>)
    ensures
        match json_parse(json@) {
            Err(_) => r matches Err(RefdataError::ParseSource { file, .. }) && file@
                == "aoe2techtree-techs.json"@,
            Ok(v) => match techs_doc(v) {
                None => r matches Err(RefdataError::ParseSource { file, .. }) && file@
                    == "aoe2techtree-techs.json"@,
                Some(t) => r matches Ok(m) && techs_view(m@) == t,
            },
        },
{
    match parse_json(json) {
        Ok(v) => from_json(&v),
        Err(message) => Err(RefdataError::ParseSource { file: "aoe2techtree-techs.json", message }),
    }
}

} // verus!
