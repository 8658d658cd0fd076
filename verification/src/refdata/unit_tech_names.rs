//! Game id -> English display name documents for units and techs: each id whose
//! base-game tree shows a name maps to it (and to its internal name, where it has one);
//! ids the trees never name are left out, never guessed.
use vstd::prelude::*;

use crate::refdata::civilizations::AOE2TECHTREE_SHA;
use crate::refdata::model::{NameMapDoc, NameMapProvenance};
use crate::refdata::techs::RawTech;
use crate::refdata::tree_nodes::TreeNodeNames;
use crate::str_map::{assoc_insert, sorted_as, StrMap};
use crate::text::{chars_of, i64_decimal, signed_decimal, string_of};

verus! {

/// The name documents' provenance note.
pub const PROVENANCE_NOTE: &'static str = "id -> English display name. Ids + internal_name from aoe2techtree data/data.json's data.Unit/data.Tech; names resolved from base-game civ tree files (data/trees/*.json units_techs[].name, matched by node_id) at the same pinned SHA — NOT chronicles/data/trees (Return of Rome reskins some shared ids with different flavor names). Ids with no resolvable base-game tree name are omitted, never guessed — see scripts/build-unit-tech-names.mjs.";

fn provenance() -> (r: NameMapProvenance)
    ensures
        r.source@ == "SiegeEngineers/aoe2techtree"@,
        r.sha@ == AOE2TECHTREE_SHA@,
        r.note@ == PROVENANCE_NOTE@,
{
    broadcast use vstd::string::to_string_from_display_ensures_for_str;

    NameMapProvenance {
        source: "SiegeEngineers/aoe2techtree".to_string(),
        sha: AOE2TECHTREE_SHA.to_string(),
        note: PROVENANCE_NOTE.to_string(),
    }
}

/// The `(map, internal names)` tables the ids `ids` (each with its optional internal
/// name) build against the names `names`, in order.
pub open spec fn name_tables(ids: Seq<(i32, Option<Seq<char>>)>, names: Map<i32, Seq<char>>) -> (
    Seq<(Seq<char>, Seq<char>)>,
    Seq<(Seq<char>, Seq<char>)>,
)
    decreases ids.len(),
{
    if ids.len() == 0 {
        (Seq::empty(), Seq::empty())
    } else {
        let (m, inames) = name_tables(ids.drop_last(), names);
        let (id, internal) = ids.last();
        if !names.contains_key(id) {
            (m, inames)
        } else {
            let key = signed_decimal(id as int);
            (
                assoc_insert(m, key, names[id]),
                match internal {
                    Some(n) => assoc_insert(inames, key, n),
                    None => inames,
                },
            )
        }
    }
}

/// The `(id, internal name)` pairs of a tech list.
pub open spec fn tech_ids_view(techs: Seq<RawTech>) -> Seq<(i32, Option<Seq<char>>)> {
    techs.map_values(|t: RawTech| t@)
}

/// The `(id, internal name)` pairs of a unit-id list.
pub open spec fn unit_ids_view(units: Seq<(i32, Option<String>)>) -> Seq<(i32, Option<Seq<char>>)> {
    units.map_values(
        |u: (i32, Option<String>)|
            (
                u.0,
                match u.1 {
                    Some(s) => Some(s@),
                    None => None,
                },
            ),
    )
}

fn build_names(ids: &Vec<(i32, Option<String>)>, names: &TreeNodeNames, units: bool) -> (r: NameMapDoc)
    ensures
        sorted_as(r.map@, name_tables(unit_ids_view(ids@), if units {
            names@.0
        } else {
            names@.1
        }).0),
        sorted_as(r.internal_names@, name_tables(unit_ids_view(ids@), if units {
            names@.0
        } else {
            names@.1
        }).1),
        r.provenance.source@ == "SiegeEngineers/aoe2techtree"@,
        r.provenance.sha@ == AOE2TECHTREE_SHA@,
        r.provenance.note@ == PROVENANCE_NOTE@,
{
    let ghost table = if units {
        names@.0
    } else {
        names@.1
    };
    let ghost iv = unit_ids_view(ids@);
    let mut map: StrMap<String> = StrMap::new();
    let mut internal_names: StrMap<String> = StrMap::new();
    let mut i: usize = 0;
    while i < ids.len()
        invariant
            i <= ids@.len(),
            iv == unit_ids_view(ids@),
            table == (if units {
                names@.0
            } else {
                names@.1
            }),
            (map@, internal_names@) == name_tables(iv.subrange(0, i as int), table),
        decreases ids@.len() - i,
    {
        assert(iv.subrange(0, i + 1).drop_last() == iv.subrange(0, i as int));
        assert(iv.subrange(0, i + 1).last() == iv[i as int]);
        let id = ids[i].0;
        let name = if units {
            names.unit_name(id)
        } else {
            names.tech_name(id)
        };
        match name {
            None => {},
            Some(n) => {
                let key = string_of(&i64_decimal(id as i64));
                map.insert(key.clone(), string_of(&chars_of(n)));
                match &ids[i].1 {
                    Some(internal) => {
                        internal_names.insert(key, internal.clone());
                    },
                    None => {},
                }
            },
        }
        i = i + 1;
    }
    assert(iv.subrange(0, ids@.len() as int) == iv);
    NameMapDoc { provenance: provenance(), map: map.into_sorted(), internal_names: internal_names.into_sorted() }
}

/// The unit-names document: each unit id (with its internal name, if any) that a base-game
/// tree names maps, by its decimal id, to that name.
pub fn build_unit_names(unit_ids: &Vec<(i32, Option<String>)>, tree_names: &TreeNodeNames) -> (r: NameMapDoc)
    ensures
        sorted_as(r.map@, name_tables(unit_ids_view(unit_ids@), tree_names@.0).0),
        sorted_as(r.internal_names@, name_tables(unit_ids_view(unit_ids@), tree_names@.0).1),
        r.provenance.source@ == "SiegeEngineers/aoe2techtree"@,
        r.provenance.sha@ == AOE2TECHTREE_SHA@,
        r.provenance.note@ == PROVENANCE_NOTE@,
{
    build_names(unit_ids, tree_names, true)
}

/// The tech-names document: each tech that a base-game tree names maps, by its decimal id,
/// to that name.
pub fn build_tech_names(techs: &[RawTech], tree_names: &TreeNodeNames) -> (r: NameMapDoc)
    ensures
        sorted_as(r.map@, name_tables(tech_ids_view(techs@), tree_names@.1).0),
        sorted_as(r.internal_names@, name_tables(tech_ids_view(techs@), tree_names@.1).1),
        r.provenance.source@ == "SiegeEngineers/aoe2techtree"@,
        r.provenance.sha@ == AOE2TECHTREE_SHA@,
        r.provenance.note@ == PROVENANCE_NOTE@,
{
    let mut ids: Vec<(i32, Option<String>)> = Vec::new();
    let mut i: usize = 0;
    while i < techs.len()
        invariant
            i <= techs@.len(),
            ids@.len() == i,
            unit_ids_view(ids@) == tech_ids_view(techs@).subrange(0, i as int),
        decreases techs@.len() - i,
    {
        let t = &techs[i];
        let internal = match &t.internal_name {
            Some(s) => Some(s.clone()),
            None => None,
        };
        ids.push((t.id, internal));
        assert(unit_ids_view(ids@)[i as int] == tech_ids_view(techs@)[i as int]);
        assert(unit_ids_view(ids@) =~= tech_ids_view(techs@).subrange(0, i + 1));
        i = i + 1;
    }
    assert(tech_ids_view(techs@).subrange(0, techs@.len() as int) =~= tech_ids_view(techs@));
    build_names(&ids, tree_names, false)
}

} // verus!
