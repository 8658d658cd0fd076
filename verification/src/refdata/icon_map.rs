//! The icon map: the tech tree's icon items crossed against the inventory of icon files
//! on disk. Items are walked in source order and the first item for a `(kind, slug)` wins;
//! the picture index (not the game id) names the file; civs come straight from the
//! inventory.
use vstd::prelude::*;

use crate::refdata::error::Result;
use crate::refdata::icon_items::{self, items_view, IconItem};
use crate::refdata::model::IconMapDoc;
use crate::str_map::{assoc_get, sorted_as, StrMap};
use crate::text::{
    chars_of, i64_decimal, is_whitespace, is_ws, lowercase_of, push_all, signed_decimal,
    str_eq, str_to_lowercase, string_of, trim, trim_chars,
};

verus! {

/// The inventory of icon files on disk: the picture indexes (file stems) present under
/// the unit, tech and building folders, and the civ slug -> icon path map.
#[derive(Debug)]
pub struct AssetInventory {
    pub unit_ids: Vec<String>,
    pub tech_ids: Vec<String>,
    pub building_ids: Vec<String>,
    pub civs: StrMap<String>,
}

/// Whether a list of file stems holds `s`.
pub open spec fn has_id(ids: Seq<String>, s: Seq<char>) -> bool {
    exists|i: int| 0 <= i < ids.len() && ids[i]@ == s
}

fn contains_id(ids: &Vec<String>, s: &str) -> (r: bool)
    ensures
        r == has_id(ids@, s@),
{
    let mut i: usize = 0;
    while i < ids.len()
        invariant
            i <= ids@.len(),
            forall|j: int| 0 <= j < i ==> ids@[j]@ != s@,
        decreases ids@.len() - i,
    {
        if str_eq(ids[i].as_str(), s) {
            return true;
        }
        i = i + 1;
    }
    false
}

/// A char a slug keeps: an ASCII letter or digit, `_`, whitespace or `-`.
pub open spec fn slug_keeps(c: char) -> bool {
    ('a' <= c && c <= 'z') || ('A' <= c && c <= 'Z') || ('0' <= c && c <= '9') || c == '_'
        || is_ws(c) || c == '-'
}

/// `s` with only the chars a slug keeps.
pub open spec fn slug_filter(s: Seq<char>) -> Seq<char>
    decreases s.len(),
{
    if s.len() == 0 {
        Seq::empty()
    } else if slug_keeps(s.last()) {
        slug_filter(s.drop_last()).push(s.last())
    } else {
        slug_filter(s.drop_last())
    }
}

/// `s` with each run of whitespace replaced by one `-` (`in_run`: whether a run is
/// already open before `s`).
pub open spec fn collapse_ws(s: Seq<char>, in_run: bool) -> Seq<char>
    decreases s.len(),
{
    if s.len() == 0 {
        Seq::empty()
    } else if is_ws(s[0]) {
        if in_run {
            collapse_ws(s.drop_first(), true)
        } else {
            seq!['-'] + collapse_ws(s.drop_first(), true)
        }
    } else {
        seq![s[0]] + collapse_ws(s.drop_first(), false)
    }
}

/// The slug of a display name: lowercased, stripped of everything but word chars,
/// whitespace and `-`, trimmed, whitespace runs turned into one `-`.
pub open spec fn slug_of(name: Seq<char>) -> Seq<char> {
    collapse_ws(trim(slug_filter(lowercase_of(name))), false)
}

/// Slugifies a display name.
pub fn slugify(name: &str) -> (r: String)
    ensures
        r@ == slug_of(name@),
{
    string_of(&slugify_chars(name))
}

fn slugify_chars(name: &str) -> (r: Vec<char>)
    ensures
        r@ == slug_of(name@),
{
    let lower = str_to_lowercase(name);
    let cs = chars_of(lower.as_str());
    let mut kept: Vec<char> = Vec::new();
    let mut i: usize = 0;
    while i < cs.len()
        invariant
            i <= cs@.len(),
            kept@ == slug_filter(cs@.subrange(0, i as int)),
        decreases cs@.len() - i,
    {
        assert(cs@.subrange(0, i + 1).drop_last() == cs@.subrange(0, i as int));
        let c = cs[i];
        if ('a' <= c && c <= 'z') || ('A' <= c && c <= 'Z') || ('0' <= c && c <= '9') || c == '_'
            || is_whitespace(c) || c == '-' {
            kept.push(c);
        }
        i = i + 1;
    }
    assert(cs@.subrange(0, cs@.len() as int) == cs@);
    let t = trim_chars(&kept);
    let mut out: Vec<char> = Vec::new();
    let mut in_run = false;
    let mut k: usize = 0;
    assert(t@.subrange(0, t@.len() as int) == t@);
    while k < t.len()
        invariant
            k <= t@.len(),
            out@ + collapse_ws(t@.subrange(k as int, t@.len() as int), in_run) == collapse_ws(t@, false),
        decreases t@.len() - k,
    {
        let ghost rest = t@.subrange(k as int, t@.len() as int);
        assert(rest[0] == t@[k as int]);
        assert(rest.drop_first() == t@.subrange(k + 1, t@.len() as int));
        let c = t[k];
        let ghost old_out = out@;
        if is_whitespace(c) {
            if !in_run {
                out.push('-');
                in_run = true;
                assert(old_out + (seq!['-'] + collapse_ws(rest.drop_first(), true)) == out@
                    + collapse_ws(rest.drop_first(), true));
            }
        } else {
            out.push(c);
            in_run = false;
            assert(old_out + (seq![c] + collapse_ws(rest.drop_first(), false)) == out@
                + collapse_ws(rest.drop_first(), false));
        }
        k = k + 1;
    }
    assert(out@ + Seq::<char>::empty() == out@);
    out
}

/// A map of slugs to paths after adding `(k, v)` unless `k` already has a path.
pub open spec fn put_absent(t: Seq<(Seq<char>, Seq<char>)>, k: Seq<char>, v: Seq<char>) -> Seq<
    (Seq<char>, Seq<char>),
> {
    if assoc_get(t, k) is Some {
        t
    } else {
        t.push((k, v))
    }
}

/// The icon path of a picture index in one kind's folder.
pub open spec fn icon_path(folder: Seq<char>, picture_index: i32) -> Seq<char> {
    "/images/aoe2/"@ + folder + "/"@ + signed_decimal(picture_index as int) + ".png"@
}

/// The `(units, techs, buildings)` maps after the items `items`, walked in order.
pub open spec fn icon_fold(
    items: Seq<(Seq<char>, Seq<char>, i32)>,
    unit_ids: Seq<String>,
    tech_ids: Seq<String>,
    building_ids: Seq<String>,
) -> (Seq<(Seq<char>, Seq<char>)>, Seq<(Seq<char>, Seq<char>)>, Seq<(Seq<char>, Seq<char>)>)
    decreases items.len(),
{
    if items.len() == 0 {
        (Seq::empty(), Seq::empty(), Seq::empty())
    } else {
        let (u, t, b) = icon_fold(items.drop_last(), unit_ids, tech_ids, building_ids);
        let (name, kind, idx) = items.last();
        let slug = slug_of(name);
        let key = signed_decimal(idx as int);
        if slug.len() == 0 {
            (u, t, b)
        } else if kind == "Unit"@ && has_id(unit_ids, key) {
            (put_absent(u, slug, icon_path("Unit"@, idx)), t, b)
        } else if kind == "Tech"@ && has_id(tech_ids, key) {
            (u, put_absent(t, slug, icon_path("Tech"@, idx)), b)
        } else if kind == "Building"@ && has_id(building_ids, key) {
            (u, t, put_absent(b, slug, icon_path("Building"@, idx)))
        } else {
            (u, t, b)
        }
    }
}

/// The units map with the `trebuchet-packed` -> `trebuchet` fallback applied.
pub open spec fn with_trebuchet(u: Seq<(Seq<char>, Seq<char>)>) -> Seq<(Seq<char>, Seq<char>)> {
    match assoc_get(u, "trebuchet-packed"@) {
        Some(p) => put_absent(u, "trebuchet"@, p),
        None => u,
    }
}

fn icon_path_string(folder: &str, picture_index: i32) -> (r: String)
    ensures
        r@ == icon_path(folder@, picture_index),
{
    let mut out = chars_of("/images/aoe2/");
    push_all(&mut out, &chars_of(folder));
    out.push('/');
    push_all(&mut out, &i64_decimal(picture_index as i64));
    push_all(&mut out, &chars_of(".png"));
    proof {
        reveal_strlit("/");
        assert("/"@ == seq!['/']);
    }
    assert(out@ == "/images/aoe2/"@ + folder@ + "/"@ + signed_decimal(picture_index as int) + ".png"@);
    string_of(&out)
}

/// Crosses the icon items, in order, against the inventory: an item whose slug is empty
/// is skipped; a unit, tech or building item whose picture index has a file in its
/// kind's folder gives its slug that file's path unless the slug already has one; a
/// missing `trebuchet` borrows `trebuchet-packed`'s path; the civs are the inventory's.
pub fn build_from_items(items: &[IconItem], inventory: &AssetInventory) -> (r: IconMapDoc)
    ensures
        ({
            let (u, t, b) = icon_fold(
                items_view(items@),
                inventory.unit_ids@,
                inventory.tech_ids@,
                inventory.building_ids@,
            );
            &&& sorted_as(r.units@, with_trebuchet(u))
            &&& sorted_as(r.techs@, t)
            &&& sorted_as(r.buildings@, b)
            &&& sorted_as(r.civs@, inventory.civs@)
        }),
{
    let ghost iv = items_view(items@);
    let mut units: StrMap<String> = StrMap::new();
    let mut techs: StrMap<String> = StrMap::new();
    let mut buildings: StrMap<String> = StrMap::new();
    let mut i: usize = 0;
    while i < items.len()
        invariant
            i <= items@.len(),
            iv == items_view(items@),
            (units@, techs@, buildings@) == icon_fold(
                iv.subrange(0, i as int),
                inventory.unit_ids@,
                inventory.tech_ids@,
                inventory.building_ids@,
            ),
        decreases items@.len() - i,
    {
        let ghost pre = iv.subrange(0, i as int);
        assert(iv.subrange(0, i + 1).drop_last() == pre);
        assert(iv.subrange(0, i + 1).last() == items@[i as int]@);
        let item = &items[i];
        let sc = slugify_chars(item.0.as_str());
        if sc.len() > 0 {
            let slug = string_of(&sc);
            let key = string_of(&i64_decimal(item.2 as i64));
            if str_eq(item.1.as_str(), "Unit") && contains_id(&inventory.unit_ids, key.as_str()) {
                units.insert_if_absent(slug, icon_path_string("Unit", item.2));
            } else if str_eq(item.1.as_str(), "Tech") && contains_id(&inventory.tech_ids, key.as_str()) {
                techs.insert_if_absent(slug, icon_path_string("Tech", item.2));
            } else if str_eq(item.1.as_str(), "Building") && contains_id(
                &inventory.building_ids,
                key.as_str(),
            ) {
                buildings.insert_if_absent(slug, icon_path_string("Building", item.2));
            }
        }
        i = i + 1;
    }
    assert(iv.subrange(0, items@.len() as int) == iv);
    let packed = match units.get("trebuchet-packed") {
        Some(p) => Some(p.clone()),
        None => None,
    };
    match packed {
        Some(p) => {
            units.insert_if_absent(string_of(&chars_of("trebuchet")), p);
        },
        None => {},
    }
    IconMapDoc {
        units: units.into_sorted(),
        techs: techs.into_sorted(),
        buildings: buildings.into_sorted(),
        civs: inventory.civs.duplicate().into_sorted(),
    }
}

/// Builds the icon map from icon-items-document text crossed against `inventory`; a
/// malformed document fails as [`icon_items::parse`] does.
pub fn build(items_json: &str, inventory: &AssetInventory) -> (r: Result<IconMapDoc>)
    ensures
        match icon_items::icon_items_result(items_json@) {
            None => r is Err,
            Some(items) => r matches Ok(doc) && {
                let (u, t, b) = icon_fold(
                    items,
                    inventory.unit_ids@,
                    inventory.tech_ids@,
                    inventory.building_ids@,
                );
                &&& sorted_as(doc.units@, with_trebuchet(u))
                &&& sorted_as(doc.techs@, t)
                &&& sorted_as(doc.buildings@, b)
                &&& sorted_as(doc.civs@, inventory.civs@)
            },
        },
{
    match icon_items::parse(items_json) {
        Ok(items) => Ok(build_from_items(items.as_slice(), inventory)),
        Err(e) => Err(e),
    }
}

} // verus!
