//! The icon-bearing items of the tech tree, in source order:
//! `{"items": [[name, kind, picture_index], ...]}`.
use vstd::prelude::*;

use crate::json::{get_member, json_parse, member, parse_json, JsonValue};
use crate::refdata::error::{RefdataError, Result};
use crate::text::{chars_of, parse_i32, parse_i32_spec, string_of};

verus! {

/// `(name, kind, picture index)`: kind is `"Unit"`, `"Tech"` or `"Building"`.
#[derive(Debug, Clone, PartialEq)]
pub struct IconItem(pub String, pub String, pub i32);

impl View for IconItem {
    type V = (Seq<char>, Seq<char>, i32);

    open spec fn view(&self) -> (Seq<char>, Seq<char>, i32) {
        (self.0@, self.1@, self.2)
    }
}

/// The item a JSON value holds: an array of a string, a string and an `i32`.
pub open spec fn icon_item_of(v: JsonValue) -> Option<(Seq<char>, Seq<char>, i32)> {
    match v {
        JsonValue::Array(items) => if items@.len() == 3 {
            match (items@[0], items@[1], items@[2]) {
                (JsonValue::Str(a), JsonValue::Str(b), JsonValue::Number(n)) => match parse_i32_spec(n@) {
                    Some(k) => Some((a@, b@, k)),
                    None => None,
                },
                _ => None,
            }
        } else {
            None
        },
        _ => None,
    }
}

/// The items of a list of JSON values, if every one is an item.
pub open spec fn icon_item_rows(vs: Seq<JsonValue>) -> Option<Seq<(Seq<char>, Seq<char>, i32)>>
    decreases vs.len(),
{
    if vs.len() == 0 {
        Some(Seq::empty())
    } else {
        match (icon_item_rows(vs.drop_last()), icon_item_of(vs.last())) {
            (Some(p), Some(x)) => Some(p.push(x)),
            _ => None,
        }
    }
}

/// The items an icon-items document holds.
pub open spec fn icon_items_doc(v: JsonValue) -> Option<Seq<(Seq<char>, Seq<char>, i32)>> {
    match v {
        JsonValue::Object(fields) => match member(fields@, "items"@) {
            Some(JsonValue::Array(items)) => icon_item_rows(items@),
            _ => None,
        },
        _ => None,
    }
}

/// The items an icon-items text holds, if it parses to a well-formed document.
pub open spec fn icon_items_result(text: Seq<char>) -> Option<Seq<(Seq<char>, Seq<char>, i32)>> {
    match json_parse(text) {
        Ok(v) => icon_items_doc(v),
        Err(_) => None,
    }
}

/// The items of a vector, by their views.
pub open spec fn items_view(v: Seq<IconItem>) -> Seq<(Seq<char>, Seq<char>, i32)> {
    v.map_values(|i: IconItem| i@)
}

fn read_item(v: &JsonValue) -> (r: Option<IconItem>)
    ensures
        match r {
            Some(x) => icon_item_of(*v) == Some(x@),
            None => icon_item_of(*v) is None,
        },
{
    match v {
        JsonValue::Array(cells) => {
            if cells.len() != 3 {
                return None;
            }
            match (&cells[0], &cells[1], &cells[2]) {
                (JsonValue::Str(a), JsonValue::Str(b), JsonValue::Number(n)) => {
                    let c = chars_of(n.as_str());
                    match parse_i32(&c) {
                        Some(k) => Some(IconItem(a.clone(), b.clone(), k)),
                        None => None,
                    }
                },
                _ => None,
            }
        },
        _ => None,
    }
}

proof fn lemma_rows_prefix(vs: Seq<JsonValue>, k: int)
    requires
        0 <= k <= vs.len(),
        icon_item_rows(vs) is Some,
    ensures
        icon_item_rows(vs.subrange(0, k)) is Some,
    decreases vs.len() - k,
{
    if k < vs.len() {
        let w = vs.drop_last();
        assert(w.subrange(0, k) == vs.subrange(0, k));
        lemma_rows_prefix(w, k);
    } else {
        assert(vs.subrange(0, k) == vs);
    }
}

/// The items of the parsed document, in order: a document without an `items` array of
/// `[string, string, i32]` rows fails with [`RefdataError::ParseSource`].
pub fn from_json(v: &JsonValue) -> (r: Result<Vec<IconItem>>)
    ensures
        match icon_items_doc(*v) {
            None => r matches Err(RefdataError::ParseSource { file, .. }) && file@
                == "aoe2techtree-icon-items.json"@,
            Some(t) => r matches Ok(items) && items_view(items@) == t,
        },
{
    let fail = RefdataError::ParseSource {
        file: "aoe2techtree-icon-items.json",
        message: string_of(&chars_of("invalid icon-items document")),
    };
    let fields = match v {
        JsonValue::Object(fields) => fields,
        _ => return Err(fail),
    };
    let items = match get_member(fields, "items") {
        Some(JsonValue::Array(items)) => items,
        _ => return Err(fail),
    };
    assert(icon_items_doc(*v) == icon_item_rows(items@));
    let mut out: Vec<IconItem> = Vec::new();
    assert(items_view(out@) =~= Seq::<(Seq<char>, Seq<char>, i32)>::empty());
    let mut i: usize = 0;
    while i < items.len()
        invariant
            i <= items@.len(),
            icon_items_doc(*v) == icon_item_rows(items@),
            icon_item_rows(items@.subrange(0, i as int)) == Some(items_view(out@)),
        decreases items@.len() - i,
    {
        let ghost pre = items@.subrange(0, i as int);
        assert(items@.subrange(0, i + 1).drop_last() == pre);
        assert(items@.subrange(0, i + 1).last() == items@[i as int]);
        match read_item(&items[i]) {
            None => {
                proof {
                    if icon_item_rows(items@) is Some {
                        lemma_rows_prefix(items@, i + 1);
                    }
                }
                return Err(
                    RefdataError::ParseSource {
                        file: "aoe2techtree-icon-items.json",
                        message: string_of(&chars_of("invalid icon item")),
                    },
                );
            },
            Some(x) => {
                let ghost xv = x@;
                out.push(x);
                assert(items_view(out@) =~= items_view(out@.drop_last()).push(xv));
            },
        }
        i = i + 1;
    }
    assert(items@.subrange(0, items@.len() as int) == items@);
    Ok(out)
}

/// Parses icon-items-document text: malformed JSON, or a document of the wrong shape,
/// fails with [`RefdataError::ParseSource`]; otherwise the items in source order.
pub fn parse(json: &str) -> (r: Result<Vec<IconItem>>)
    ensures
        match json_parse(json@) {
            Err(_) => r matches Err(RefdataError::ParseSource { file, .. }) && file@
                == "aoe2techtree-icon-items.json"@,
            Ok(v) => match icon_items_doc(v) {
                None => r matches Err(RefdataError::ParseSource { file, .. }) && file@
                    == "aoe2techtree-icon-items.json"@,
                Some(t) => r matches Ok(items) && items_view(items@) == t,
            },
        },
{
    match parse_json(json) {
        Ok(v) => from_json(&v),
        Err(message) => Err(RefdataError::ParseSource { file: "aoe2techtree-icon-items.json", message }),
    }
}

} // verus!
