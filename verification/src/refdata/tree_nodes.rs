//! Per-`(use type, node id)` English display names, from the raw per-civ tech-tree node
//! observations: `{"observations": [[node_id, name, use_type], ...]}` with `use_type`
//! `"Unit"` or `"Tech"`. A node seen under two different names (within one use type) is an
//! error, never silently resolved.
use std::collections::HashMap;
use vstd::prelude::*;

use crate::json::{get_member, json_parse, member, parse_json, JsonValue};
use crate::refdata::error::{RefdataError, Result};
use crate::text::{chars_of, parse_i32, parse_i32_spec, string_of, str_eq};

verus! {

broadcast use vstd::std_specs::hash::group_hash_axioms;

/// `(use type, node id) -> name`, as the two tables the name builders query.
#[derive(Debug)]
pub struct TreeNodeNames {
    units: HashMap<i32, String>,
    techs: HashMap<i32, String>,
}

/// The names of a table, by their views.
pub open spec fn names_view(m: Map<i32, String>) -> Map<i32, Seq<char>> {
    m.map_values(|s: String| s@)
}

impl View for TreeNodeNames {
    type V = (Map<i32, Seq<char>>, Map<i32, Seq<char>>);

    closed spec fn view(&self) -> (Map<i32, Seq<char>>, Map<i32, Seq<char>>) {
        (names_view(self.units@), names_view(self.techs@))
    }
}

impl TreeNodeNames {
    /// A unit id's base-game tree display name, or `None` if no tree ever shows it.
    pub fn unit_name(&self, node_id: i32) -> (r: Option<&str>)
        ensures
            match r {
                Some(s) => self@.0.contains_key(node_id) && s@ == self@.0[node_id],
                None => !self@.0.contains_key(node_id),
            },
    {
        match self.units.get(&node_id) {
            Some(s) => Some(s.as_str()),
            None => None,
        }
    }

    /// A tech id's base-game tree display name, or `None` if no tree ever shows it.
    pub fn tech_name(&self, node_id: i32) -> (r: Option<&str>)
        ensures
            match r {
                Some(s) => self@.1.contains_key(node_id) && s@ == self@.1[node_id],
                None => !self@.1.contains_key(node_id),
            },
    {
        match self.techs.get(&node_id) {
            Some(s) => Some(s.as_str()),
            None => None,
        }
    }
}

/// Where folding observations ends: the two tables, or the first bad observation (an
/// unknown use type, or a name conflicting with the one already recorded).
pub enum NodesOutcome {
    Tables(Map<i32, Seq<char>>, Map<i32, Seq<char>>),
    UnknownUseType(i32, Seq<char>),
    Conflict(i32, Seq<char>, Seq<char>, Seq<char>),
}

/// Folds the observations `obs[i..]` into the tables `(units, techs)`.
pub open spec fn fold_nodes(
    obs: Seq<(i32, Seq<char>, Seq<char>)>,
    i: int,
    units: Map<i32, Seq<char>>,
    techs: Map<i32, Seq<char>>,
) -> NodesOutcome
    decreases obs.len() - i,
{
    if i < 0 || i >= obs.len() {
        NodesOutcome::Tables(units, techs)
    } else {
        let (id, name, use_type) = obs[i];
        if use_type == "Unit"@ {
            if units.contains_key(id) && units[id] != name {
                NodesOutcome::Conflict(id, use_type, units[id], name)
            } else {
                fold_nodes(obs, i + 1, units.insert(id, name), techs)
            }
        } else if use_type == "Tech"@ {
            if techs.contains_key(id) && techs[id] != name {
                NodesOutcome::Conflict(id, use_type, techs[id], name)
            } else {
                fold_nodes(obs, i + 1, units, techs.insert(id, name))
            }
        } else {
            NodesOutcome::UnknownUseType(id, use_type)
        }
    }
}

/// The observation rows by their views.
pub open spec fn obs_view(obs: Seq<(i32, String, String)>) -> Seq<(i32, Seq<char>, Seq<char>)> {
    obs.map_values(|o: (i32, String, String)| (o.0, o.1@, o.2@))
}

/// Whether a result is what folding the observations gives.
pub open spec fn nodes_result(r: Result<TreeNodeNames>, out: NodesOutcome) -> bool {
    match out {
        NodesOutcome::Tables(u, t) => r matches Ok(names) && names@ == (u, t),
        NodesOutcome::UnknownUseType(id, ut) => r matches Err(
            RefdataError::UnknownTreeNodeUseType { node_id, use_type },
        ) && node_id == id && use_type@ == ut,
        NodesOutcome::Conflict(id, ut, a, b) => r matches Err(
            RefdataError::ConflictingTreeNodeName { node_id, use_type, first, second },
        ) && node_id == id && use_type@ == ut && first@ == a && second@ == b,
    }
}

/// Builds the two name tables from `(node_id, name, use_type)` observations, in order:
/// an identical repeat is fine, a differing name for a node already seen (within one use
/// type) fails with [`RefdataError::ConflictingTreeNodeName`], and a use type other than
/// `"Unit"`/`"Tech"` with [`RefdataError::UnknownTreeNodeUseType`].
pub fn from_observations(obs: &[(i32, String, String)]) -> (r: Result<TreeNodeNames>)
    ensures
        nodes_result(r, fold_nodes(obs_view(obs@), 0, Map::empty(), Map::empty())),
{
    let mut units: HashMap<i32, String> = HashMap::new();
    let mut techs: HashMap<i32, String> = HashMap::new();
    let ghost o = obs_view(obs@);
    assert(names_view(units@) =~= Map::<i32, Seq<char>>::empty());
    assert(names_view(techs@) =~= Map::<i32, Seq<char>>::empty());
    let mut i: usize = 0;
    while i < obs.len()
        invariant
            i <= obs@.len(),
            o == obs_view(obs@),
            fold_nodes(o, 0, Map::empty(), Map::empty()) == fold_nodes(
                o,
                i as int,
                names_view(units@),
                names_view(techs@),
            ),
        decreases obs@.len() - i,
    {
        let (node_id, name, use_type) = (obs[i].0, &obs[i].1, &obs[i].2);
        assert(o[i as int] == (node_id, name@, use_type@));
        let is_unit = str_eq(use_type.as_str(), "Unit");
        let is_tech = str_eq(use_type.as_str(), "Tech");
        if !is_unit && !is_tech {
            return Err(RefdataError::UnknownTreeNodeUseType { node_id, use_type: use_type.clone() });
        }
        let table: &mut HashMap<i32, String> = if is_unit {
            &mut units
        } else {
            &mut techs
        };
        let ghost before = table@;
        match table.get(&node_id) {
            Some(existing) => {
                if !str_eq(existing.as_str(), name.as_str()) {
                    return Err(
                        RefdataError::ConflictingTreeNodeName {
                            node_id,
                            use_type: use_type.clone(),
                            first: existing.clone(),
                            second: name.clone(),
                        },
                    );
                }
                assert(names_view(before).insert(node_id, name@) =~= names_view(before));
            },
            None => {
                table.insert(node_id, name.clone());
                assert(names_view(table@) =~= names_view(before).insert(node_id, name@));
            },
        }
        i = i + 1;
    }
    Ok(TreeNodeNames { units, techs })
}

/// The `[node_id, name, use_type]` row a JSON value holds: an array of exactly an
/// `i32`, a string and a string.
pub open spec fn obs_row(v: JsonValue) -> Option<(i32, Seq<char>, Seq<char>)> {
    match v {
        JsonValue::Array(items) => if items@.len() == 3 {
            match (items@[0], items@[1], items@[2]) {
                (JsonValue::Number(n), JsonValue::Str(a), JsonValue::Str(b)) => match parse_i32_spec(
                    n@,
                ) {
                    Some(k) => Some((k, a@, b@)),
                    None => None,
                },
                _ => None,
            }
        } else {
            None
        },
        _ => None,
    }
}

/// The observation rows of a list of JSON values, if every one is a row.
pub open spec fn obs_rows(vs: Seq<JsonValue>) -> Option<Seq<(i32, Seq<char>, Seq<char>)>>
    decreases vs.len(),
{
    if vs.len() == 0 {
        Some(Seq::empty())
    } else {
        match (obs_rows(vs.drop_last()), obs_row(vs.last())) {
            (Some(p), Some(x)) => Some(p.push(x)),
            _ => None,
        }
    }
}

/// The observations a tree-nodes document holds: an object whose `observations` member is
/// an array of rows (other members ignored).
pub open spec fn doc_observations(v: JsonValue) -> Option<Seq<(i32, Seq<char>, Seq<char>)>> {
    match v {
        JsonValue::Object(fields) => match member(fields@, "observations"@) {
            Some(JsonValue::Array(items)) => obs_rows(items@),
            _ => None,
        },
        _ => None,
    }
}

proof fn lemma_obs_rows_prefix(vs: Seq<JsonValue>, k: int)
    requires
        0 <= k <= vs.len(),
        obs_rows(vs) is Some,
    ensures
        obs_rows(vs.subrange(0, k)) is Some,
    decreases vs.len() - k,
{
    if k < vs.len() {
        let w = vs.drop_last();
        assert(w.subrange(0, k) == vs.subrange(0, k));
        lemma_obs_rows_prefix(w, k);
    } else {
        assert(vs.subrange(0, k) == vs);
    }
}

fn read_row(v: &JsonValue) -> (r: Option<(i32, String, String)>)
    ensures
        match r {
            Some(x) => obs_row(*v) == Some((x.0, x.1@, x.2@)),
            None => obs_row(*v) is None,
        },
{
    match v {
        JsonValue::Array(cells) => {
            if cells.len() != 3 {
                return None;
            }
            match (&cells[0], &cells[1], &cells[2]) {
                (JsonValue::Number(n), JsonValue::Str(a), JsonValue::Str(b)) => {
                    let nc = chars_of(n.as_str());
                    match parse_i32(&nc) {
                        Some(k) => Some((k, a.clone(), b.clone())),
                        None => None,
                    }
                },
                _ => None,
            }
        },
        _ => None,
    }
}

/// The observations of a tree-nodes document, read.
fn read_observations(v: &JsonValue) -> (r: Option<Vec<(i32, String, String)>>)
    ensures
        match r {
            Some(o) => doc_observations(*v) == Some(obs_view(o@)),
            None => doc_observations(*v) is None,
        },
{
    let fields = match v {
        JsonValue::Object(fields) => fields,
        _ => return None,
    };
    let items = match get_member(fields, "observations") {
        Some(JsonValue::Array(items)) => items,
        _ => return None,
    };
    let mut out: Vec<(i32, String, String)> = Vec::new();
    let mut i: usize = 0;
    assert(obs_view(out@) =~= Seq::<(i32, Seq<char>, Seq<char>)>::empty());
    assert(doc_observations(*v) == obs_rows(items@));
    while i < items.len()
        invariant
            i <= items@.len(),
            doc_observations(*v) == obs_rows(items@),
            obs_rows(items@.subrange(0, i as int)) == Some(obs_view(out@)),
        decreases items@.len() - i,
    {
        let ghost pre = items@.subrange(0, i as int);
        assert(items@.subrange(0, i + 1).drop_last() == pre);
        assert(items@.subrange(0, i + 1).last() == items@[i as int]);
        match read_row(&items[i]) {
            None => {
                proof {
                    if obs_rows(items@) is Some {
                        lemma_obs_rows_prefix(items@, i + 1);
                    }
                }
                return None;
            },
            Some(row) => {
                let ghost rv = (row.0, row.1@, row.2@);
                out.push(row);
                assert(obs_view(out@) =~= obs_view(out@.drop_last()).push(rv));
            },
        }
        i = i + 1;
    }
    assert(items@.subrange(0, items@.len() as int) == items@);
    Some(out)
}

/// The observations-to-tables step of [`parse`], from the parsed document: a document
/// without an `observations` array of `[i32, string, string]` rows fails with
/// [`RefdataError::ParseSource`].
pub fn from_json(v: &JsonValue) -> (r: Result<TreeNodeNames>)
    ensures
        match doc_observations(*v) {
            None => r matches Err(RefdataError::ParseSource { file, .. }) && file@
                == "aoe2techtree-tree-nodes.json"@,
            Some(o) => nodes_result(r, fold_nodes(o, 0, Map::empty(), Map::empty())),
        },
{
    match read_observations(v) {
        Some(obs) => from_observations(obs.as_slice()),
        None => Err(
            RefdataError::ParseSource {
                file: "aoe2techtree-tree-nodes.json",
                message: string_of(&chars_of("invalid tree-nodes document")),
            },
        ),
    }
}

/// Parses tree-nodes-document text: malformed JSON, or a document of the wrong shape,
/// fails with [`RefdataError::ParseSource`]; otherwise the observations are folded as in
/// [`from_observations`].
pub fn parse(json: &str) -> (r: Result<TreeNodeNames>)
    ensures
        match json_parse(json@) {
            Err(_) => r matches Err(RefdataError::ParseSource { file, .. }) && file@
                == "aoe2techtree-tree-nodes.json"@,
            Ok(v) => match doc_observations(v) {
                None => r matches Err(RefdataError::ParseSource { file, .. }) && file@
                    == "aoe2techtree-tree-nodes.json"@,
                Some(o) => nodes_result(r, fold_nodes(o, 0, Map::empty(), Map::empty())),
            },
        },
{
    match parse_json(json) {
        Ok(v) => from_json(&v),
        Err(message) => Err(RefdataError::ParseSource { file: "aoe2techtree-tree-nodes.json", message }),
    }
}

} // verus!
