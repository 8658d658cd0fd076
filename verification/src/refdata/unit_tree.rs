//! Per-unit canonical age and training building, from the raw tech-tree observations
//! across the base-game civ trees: `[unit_id, building, grid_row, civ_count]`. A unit's age
//! is its grid row's two-row band (dark, feudal, castle, imperial); its canonical
//! `(building, age)` is the civ-count-weighted mode across civs, ties going to the smaller
//! `(building, band)`.
use std::collections::HashMap;
use vstd::prelude::*;

use crate::json::{get_member, json_parse, member, parse_json, JsonValue};
use crate::refdata::error::{RefdataError, Result};
use crate::str_map::{
    assoc_get, assoc_index, distinct_keys, lemma_assoc_index, lemma_assoc_push,
    lemma_assoc_update,
};
use crate::text::{
    chars_eq, chars_lt, chars_of, lemma_lex_order, lex_lt, parse_i32, parse_i32_spec, parse_u64,
    parse_u64_spec, string_of,
};

verus! {

broadcast use vstd::std_specs::hash::group_hash_axioms;

/// The four age bands a `grid_row / 2` indexes into.
pub const AGE_BANDS: [&'static str; 4] = ["dark", "feudal", "castle", "imperial"];

/// One unit's resolved canonical facts.
#[derive(Debug, Clone, PartialEq, Eq)]
pub struct AgeBuilding {
    /// `"dark" | "feudal" | "castle" | "imperial"`.
    pub age: String,
    /// The training building's display name.
    pub building: String,
}

impl View for AgeBuilding {
    type V = (Seq<char>, Seq<char>);

    open spec fn view(&self) -> (Seq<char>, Seq<char>) {
        (self.age@, self.building@)
    }
}

/// Unit id -> canonical [`AgeBuilding`].
#[derive(Debug)]
pub struct UnitTreeTable(pub HashMap<i32, AgeBuilding>);

/// The entries of a table, by their views.
pub open spec fn table_view(m: Map<i32, AgeBuilding>) -> Map<i32, (Seq<char>, Seq<char>)> {
    m.map_values(|a: AgeBuilding| a@)
}

impl View for UnitTreeTable {
    type V = Map<i32, (Seq<char>, Seq<char>)>;

    open spec fn view(&self) -> Map<i32, (Seq<char>, Seq<char>)> {
        table_view(self.0@)
    }
}

impl UnitTreeTable {
    /// Resolves a unit id, or fails with [`RefdataError::MissingAgeBuilding`]: a canonical
    /// unit with no tree observation is an error, never a fabricated age.
    pub fn require(&self, unit_id: i32, slug: &'static str) -> (r: Result<&AgeBuilding>)
        ensures
            match r {
                Ok(a) => self@.contains_key(unit_id) && self@[unit_id] == a@,
                Err(e) => !self@.contains_key(unit_id) && e == (RefdataError::MissingAgeBuilding {
                    slug,
                    unit_id,
                }),
            },
    {
        match self.0.get(&unit_id) {
            Some(a) => Ok(a),
            None => Err(RefdataError::MissingAgeBuilding { slug, unit_id }),
        }
    }
}

/// The age band of a grid row: `row / 2`, at most the last band.
pub open spec fn band(row: usize) -> int {
    if row / 2 < 3 {
        (row / 2) as int
    } else {
        3
    }
}

/// The name of an age band.
pub open spec fn band_label(b: int) -> Seq<char> {
    if b == 0 {
        "dark"@
    } else if b == 1 {
        "feudal"@
    } else if b == 2 {
        "castle"@
    } else {
        "imperial"@
    }
}

/// A tally: `((building, band), summed civ count)` entries, keys distinct.
pub type Tally = Seq<((Seq<char>, int), int)>;

/// The tally after adding `c` under key `k`.
pub open spec fn tally_add(t: Tally, k: (Seq<char>, int), c: int) -> Tally {
    let i = assoc_index(t, k);
    if i == -1 {
        t.push((k, c))
    } else {
        t.update(i, (k, t[i].1 + c))
    }
}

/// The observation rows by their views.
pub open spec fn tree_obs_view(obs: Seq<(i32, String, usize, u32)>) -> Seq<(i32, Seq<char>, usize, u32)> {
    obs.map_values(|o: (i32, String, usize, u32)| (o.0, o.1@, o.2, o.3))
}

/// Unit `u`'s tally over the observations: civ counts summed per `(building, band)`, keys
/// in order of first observation.
pub open spec fn tally(obs: Seq<(i32, Seq<char>, usize, u32)>, u: i32) -> Tally
    decreases obs.len(),
{
    if obs.len() == 0 {
        Seq::empty()
    } else {
        let prev = tally(obs.drop_last(), u);
        let o = obs.last();
        if o.0 == u {
            tally_add(prev, (o.1, band(o.2)), o.3 as int)
        } else {
            prev
        }
    }
}

/// The count a tally holds under a key (0 when absent).
pub open spec fn tget(t: Tally, k: (Seq<char>, int)) -> int {
    match assoc_get(t, k) {
        Some(v) => v,
        None => 0,
    }
}

/// `(building, band)` order: by building, then band.
pub open spec fn key_le(a: (Seq<char>, int), b: (Seq<char>, int)) -> bool {
    lex_lt(a.0, b.0) || (a.0 == b.0 && a.1 <= b.1)
}

/// Entry `x` ranks at least as high as `y`: a larger count, or an equal count and a
/// key no larger.
pub open spec fn ranks_over(x: ((Seq<char>, int), int), y: ((Seq<char>, int), int)) -> bool {
    x.1 > y.1 || (x.1 == y.1 && key_le(x.0, y.0))
}

/// `k` is the mode of the tally: its entry ranks over every entry.
pub open spec fn is_mode(t: Tally, k: (Seq<char>, int)) -> bool {
    exists|i: int|
        0 <= i < t.len() && t[i].0 == k && forall|j: int|
            0 <= j < t.len() ==> ranks_over(t[i], #[trigger] t[j])
}

/// Whether some observation is of unit `u`.
pub open spec fn observed(obs: Seq<(i32, Seq<char>, usize, u32)>, u: i32) -> bool {
    exists|i: int| 0 <= i < obs.len() && obs[i].0 == u
}

proof fn lemma_tally_add(t: Tally, k: (Seq<char>, int), c: int)
    requires
        distinct_keys(t),
    ensures
        distinct_keys(tally_add(t, k, c)),
        tget(tally_add(t, k, c), k) == tget(t, k) + c,
        forall|k2: (Seq<char>, int)| k2 != k ==> #[trigger] tget(tally_add(t, k, c), k2) == tget(t, k2),
        tally_add(t, k, c).len() > 0,
{
    lemma_assoc_index(t, k);
    let i = assoc_index(t, k);
    if i == -1 {
        lemma_assoc_push(t, k, c);
    } else {
        assert(t[i].0 == k);
        lemma_assoc_update(t, i, t[i].1 + c);
    }
}

proof fn lemma_tally_facts(obs: Seq<(i32, Seq<char>, usize, u32)>, u: i32)
    ensures
        distinct_keys(tally(obs, u)),
        forall|k: (Seq<char>, int)| tget(tally(obs, u), k) >= 0,
        tally(obs, u).len() > 0 <==> observed(obs, u),
        forall|j: int| 0 <= j < tally(obs, u).len() ==> tget(tally(obs, u), (#[trigger] tally(obs, u)[j]).0) == tally(obs, u)[j].1,
    decreases obs.len(),
{
    if obs.len() > 0 {
        let w = obs.drop_last();
        lemma_tally_facts(w, u);
        let o = obs.last();
        if o.0 == u {
            lemma_tally_add(tally(w, u), (o.1, band(o.2)), o.3 as int);
            assert(obs[obs.len() - 1].0 == u);
        } else {
            if observed(obs, u) {
                let i = choose|i: int| 0 <= i < obs.len() && obs[i].0 == u;
                assert(i < obs.len() - 1);
                assert(w[i].0 == u);
            }
        }
        if observed(w, u) {
            let i = choose|i: int| 0 <= i < w.len() && w[i].0 == u;
            assert(obs[i].0 == u);
        }
        let t = tally(obs, u);
        assert forall|j: int| 0 <= j < t.len() implies tget(t, (#[trigger] t[j]).0) == t[j].1 by {
            lemma_assoc_index(t, t[j].0);
            let i = assoc_index(t, t[j].0);
            if i != j {
                assert(t[i].0 == t[j].0);
            }
        }
    }
}

proof fn lemma_tally_prefix(obs: Seq<(i32, Seq<char>, usize, u32)>, n: int, u: i32, k: (Seq<char>, int))
    requires
        0 <= n <= obs.len(),
    ensures
        tget(tally(obs.subrange(0, n), u), k) <= tget(tally(obs, u), k),
    decreases obs.len() - n,
{
    if n < obs.len() {
        let w = obs.drop_last();
        assert(w.subrange(0, n) == obs.subrange(0, n));
        lemma_tally_prefix(w, n, u, k);
        lemma_tally_facts(w, u);
        let o = obs.last();
        if o.0 == u {
            lemma_tally_add(tally(w, u), (o.1, band(o.2)), o.3 as int);
        }
    } else {
        assert(obs.subrange(0, n) == obs);
    }
}

/// The mode is unique: keys are distinct and the ranking is total.
pub proof fn lemma_mode_unique(t: Tally, k1: (Seq<char>, int), k2: (Seq<char>, int))
    requires
        distinct_keys(t),
        is_mode(t, k1),
        is_mode(t, k2),
    ensures
        k1 == k2,
{
    let i1 = choose|i: int|
        0 <= i < t.len() && t[i].0 == k1 && forall|j: int| 0 <= j < t.len() ==> ranks_over(t[i], #[trigger] t[j]);
    let i2 = choose|i: int|
        0 <= i < t.len() && t[i].0 == k2 && forall|j: int| 0 <= j < t.len() ==> ranks_over(t[i], #[trigger] t[j]);
    assert(ranks_over(t[i1], t[i2]));
    assert(ranks_over(t[i2], t[i1]));
    lemma_lex_order(k1.0, k2.0, k2.0);
    if i1 != i2 {
        if i1 < i2 {
            assert(t[i1].0 != t[i2].0);
        } else {
            assert(t[i2].0 != t[i1].0);
        }
    }
}

/// One unit's tally entry: building chars, band, summed count.
type Entry = (Vec<char>, usize, u32);

spec fn entries_view(v: Seq<Entry>) -> Tally {
    v.map_values(|e: Entry| ((e.0@, e.1 as int), e.2 as int))
}

/// The index of the entry keyed `(name, b)`, if any.
fn find_entry(t: &Vec<Entry>, name: &Vec<char>, b: usize) -> (r: Option<usize>)
    ensures
        match r {
            Some(k) => k < t@.len() && entries_view(t@)[k as int].0 == (name@, b as int)
                && forall|j: int| 0 <= j < k ==> (#[trigger] entries_view(t@)[j]).0 != (name@, b as int),
            None => forall|j: int| 0 <= j < t@.len() ==> (#[trigger] entries_view(t@)[j]).0 != (name@, b as int),
        },
{
    let ghost tv = entries_view(t@);
    let mut k: usize = 0;
    while k < t.len()
        invariant
            k <= t@.len(),
            tv == entries_view(t@),
            forall|j: int| 0 <= j < k ==> (#[trigger] tv[j]).0 != (name@, b as int),
        decreases t@.len() - k,
    {
        assert(tv[k as int] == ((t@[k as int].0@, t@[k as int].1 as int), t@[k as int].2 as int));
        if t[k].1 == b && chars_eq(&t[k].0, name) {
            return Some(k);
        }
        k = k + 1;
    }
    None
}

/// Unit `u`'s tally, computed.
fn tally_of(obs: &[(i32, String, usize, u32)], u: i32) -> (r: Vec<Entry>)
    requires
        forall|k: (Seq<char>, int)| tget(tally(tree_obs_view(obs@), u), k) <= u32::MAX,
    ensures
        entries_view(r@) == tally(tree_obs_view(obs@), u),
        forall|j: int| 0 <= j < r@.len() ==> (#[trigger] r@[j]).1 <= 3,
{
    let ghost ov = tree_obs_view(obs@);
    let mut t: Vec<Entry> = Vec::new();
    let mut i: usize = 0;
    assert(entries_view(t@) =~= Seq::<((Seq<char>, int), int)>::empty());
    while i < obs.len()
        invariant
            i <= obs@.len(),
            ov == tree_obs_view(obs@),
            forall|k: (Seq<char>, int)| tget(tally(ov, u), k) <= u32::MAX,
            entries_view(t@) == tally(ov.subrange(0, i as int), u),
            forall|j: int| 0 <= j < t@.len() ==> (#[trigger] t@[j]).1 <= 3,
        decreases obs@.len() - i,
    {
        let ghost pre = ov.subrange(0, i as int);
        assert(ov.subrange(0, i + 1).drop_last() == pre);
        assert(ov.subrange(0, i + 1).last() == ov[i as int]);
        let o = &obs[i];
        if o.0 == u {
            let half = o.2 / 2;
            let b: usize = if half < 3 {
                half
            } else {
                3
            };
            let name = chars_of(o.1.as_str());
            let ghost key = (name@, b as int);
            let ghost tv = entries_view(t@);
            proof {
                lemma_tally_facts(pre, u);
                lemma_assoc_index(tv, key);
                lemma_tally_add(tv, key, o.3 as int);
                lemma_tally_prefix(ov, i + 1, u, key);
            }
            let found = find_entry(&t, &name, b);
            match found {
                Some(k) => {
                    proof {
                        lemma_assoc_index(tv, key);
                        let x = assoc_index(tv, key);
                        if x != k {
                            if x < k {
                                assert(tv[x].0 != key);
                            }
                        }
                        assert(tget(tv, key) == tv[k as int].1);
                    }
                    let sum: u32 = t[k].2 + o.3;
                    let e: Entry = (name, b, sum);
                    t.set(k, e);
                    assert(entries_view(t@) =~= tv.update(k as int, (key, tv[k as int].1 + o.3 as int)));
                },
                None => {
                    proof {
                        lemma_assoc_index(tv, key);
                        assert(assoc_index(tv, key) == -1);
                    }
                    let e: Entry = (name, b, o.3);
                    t.push(e);
                    assert(entries_view(t@) =~= tv.push((key, o.3 as int)));
                },
            }
        }
        i = i + 1;
    }
    assert(ov.subrange(0, obs@.len() as int) == ov);
    t
}


/// The index of a tally's mode.
fn mode_index(t: &Vec<Entry>) -> (r: usize)
    requires
        t@.len() > 0,
    ensures
        r < t@.len(),
        forall|j: int|
            0 <= j < t@.len() ==> ranks_over(entries_view(t@)[r as int], #[trigger] entries_view(t@)[j]),
{
    let ghost tv = entries_view(t@);
    let mut best: usize = 0;
    let mut i: usize = 1;
    proof {
        lemma_lex_order(tv[0].0.0, tv[0].0.0, tv[0].0.0);
    }
    while i < t.len()
        invariant
            1 <= i <= t@.len(),
            best < i,
            tv == entries_view(t@),
            forall|j: int| 0 <= j < i ==> ranks_over(tv[best as int], #[trigger] tv[j]),
        decreases t@.len() - i,
    {
        let ghost x = tv[i as int];
        let ghost y = tv[best as int];
        assert(x == ((t@[i as int].0@, t@[i as int].1 as int), t@[i as int].2 as int));
        assert(y == ((t@[best as int].0@, t@[best as int].1 as int), t@[best as int].2 as int));
        let better = t[i].2 > t[best].2 || (t[i].2 == t[best].2 && (chars_lt(&t[i].0, &t[best].0) || (
        chars_eq(&t[i].0, &t[best].0) && t[i].1 < t[best].1)));
        proof {
            lemma_lex_order(x.0.0, y.0.0, x.0.0);
        }
        if better {
            proof {
                assert forall|j: int| 0 <= j < i + 1 implies ranks_over(x, #[trigger] tv[j]) by {
                    if j < i {
                        let z = tv[j];
                        lemma_lex_order(x.0.0, y.0.0, z.0.0);
                    }
                }
            }
            best = i;
        } else {
            assert(ranks_over(y, x));
        }
        i = i + 1;
    }
    best
}

/// The distinct unit ids of the observations, in order of first appearance.
fn unit_ids(obs: &[(i32, String, usize, u32)]) -> (r: Vec<i32>)
    ensures
        forall|a: int, b: int| 0 <= a < b < r@.len() ==> r@[a] != r@[b],
        forall|u: i32| r@.contains(u) <==> observed(tree_obs_view(obs@), u),
{
    let ghost ov = tree_obs_view(obs@);
    let mut out: Vec<i32> = Vec::new();
    let mut i: usize = 0;
    while i < obs.len()
        invariant
            i <= obs@.len(),
            ov == tree_obs_view(obs@),
            forall|a: int, b: int| 0 <= a < b < out@.len() ==> out@[a] != out@[b],
            forall|u: i32| out@.contains(u) <==> exists|j: int| 0 <= j < i && ov[j].0 == u,
        decreases obs@.len() - i,
    {
        let u = obs[i].0;
        assert(ov[i as int].0 == u);
        let mut seen = false;
        let mut k: usize = 0;
        while k < out.len()
            invariant
                k <= out@.len(),
                seen == exists|a: int| 0 <= a < k && out@[a] == u,
            decreases out@.len() - k,
        {
            if out[k] == u {
                seen = true;
            }
            k = k + 1;
        }
        let ghost prev = out@;
        if !seen {
            out.push(u);
        }
        proof {
            assert forall|v: i32| out@.contains(v) <==> exists|j: int| 0 <= j < i + 1 && ov[j].0 == v by {
                if out@.contains(v) {
                    let a = choose|a: int| 0 <= a < out@.len() && out@[a] == v;
                    if a < prev.len() {
                        assert(prev.contains(v));
                    } else {
                        assert(ov[i as int].0 == v);
                    }
                }
                if exists|j: int| 0 <= j < i + 1 && ov[j].0 == v {
                    let j = choose|j: int| 0 <= j < i + 1 && ov[j].0 == v;
                    if j < i {
                        assert(prev.contains(v));
                        let a = choose|a: int| 0 <= a < prev.len() && prev[a] == v;
                        assert(out@[a] == v);
                    } else if seen {
                        let a = choose|a: int| 0 <= a < prev.len() && prev[a] == u;
                        assert(out@[a] == v);
                    } else {
                        assert(out@[prev.len() as int] == v);
                    }
                }
            }
        }
        i = i + 1;
    }
    out
}

/// Whether a table holds exactly each observed unit's mode: the unit's age is its mode's
/// band and its building the mode's building.
pub open spec fn is_unit_tree(m: Map<i32, (Seq<char>, Seq<char>)>, obs: Seq<(i32, Seq<char>, usize, u32)>) -> bool {
    &&& forall|u: i32| m.contains_key(u) <==> observed(obs, u)
    &&& forall|u: i32|
        #[trigger] m.contains_key(u) ==> exists|b: int|
            is_mode(tally(obs, u), (m[u].1, b)) && m[u].0 == band_label(b)
}

/// Builds the table from `[unit_id, building, grid_row, civ_count]` observations: each
/// observed unit's canonical `(building, age)` is the mode of its civ counts summed per
/// `(building, age band)`, ties going to the smaller `(building, band)`.
pub fn from_observations(obs: &[(i32, String, usize, u32)]) -> (r: UnitTreeTable)
    requires
        forall|u: i32, k: (Seq<char>, int)| tget(tally(tree_obs_view(obs@), u), k) <= u32::MAX,
    ensures
        is_unit_tree(r@, tree_obs_view(obs@)),
{
    let ghost ov = tree_obs_view(obs@);
    let units = unit_ids(obs);
    let mut by_id: HashMap<i32, AgeBuilding> = HashMap::new();
    let mut ui: usize = 0;
    assert(table_view(by_id@) =~= Map::<i32, (Seq<char>, Seq<char>)>::empty());
    while ui < units.len()
        invariant
            ui <= units@.len(),
            ov == tree_obs_view(obs@),
            forall|u: i32, k: (Seq<char>, int)| tget(tally(ov, u), k) <= u32::MAX,
            forall|a: int, b: int| 0 <= a < b < units@.len() ==> units@[a] != units@[b],
            forall|u: i32| units@.contains(u) <==> observed(ov, u),
            forall|u: i32| table_view(by_id@).contains_key(u) <==> units@.subrange(0, ui as int).contains(u),
            forall|u: i32|
                #[trigger] table_view(by_id@).contains_key(u) ==> exists|b: int|
                    is_mode(tally(ov, u), (table_view(by_id@)[u].1, b))
                        && table_view(by_id@)[u].0 == band_label(b),
        decreases units@.len() - ui,
    {
        let u = units[ui];
        assert(units@.contains(u));
        let t = tally_of(obs, u);
        proof {
            lemma_tally_facts(ov, u);
        }
        let m = mode_index(&t);
        let ghost tv = entries_view(t@);
        assert(tv[m as int] == ((t@[m as int].0@, t@[m as int].1 as int), t@[m as int].2 as int));
        let bnd = t[m].1;
        let age: &'static str = if bnd == 0 {
            "dark"
        } else if bnd == 1 {
            "feudal"
        } else if bnd == 2 {
            "castle"
        } else {
            "imperial"
        };
        let entry = AgeBuilding { age: age.to_string(), building: string_of(&t[m].0) };
        let ghost before = table_view(by_id@);
        by_id.insert(u, entry);
        proof {
            assert(table_view(by_id@) =~= before.insert(u, entry@));
            assert(is_mode(tally(ov, u), (entry@.1, bnd as int)));
            assert(units@.subrange(0, ui + 1) == units@.subrange(0, ui as int).push(u));
            let s0 = units@.subrange(0, ui as int);
            let s1 = units@.subrange(0, ui + 1);
            assert forall|v: i32| table_view(by_id@).contains_key(v) <==> s1.contains(v) by {
                if v != u {
                    if s1.contains(v) {
                        let a = choose|a: int| 0 <= a < s1.len() && #[trigger] s1[a] == v;
                        assert(a < ui);
                        assert(s0[a] == v);
                    }
                    if s0.contains(v) {
                        let a = choose|a: int| 0 <= a < s0.len() && #[trigger] s0[a] == v;
                        assert(s1[a] == v);
                    }
                } else {
                    assert(s1[ui as int] == u);
                }
            }
            assert forall|v: i32|
                #[trigger] table_view(by_id@).contains_key(v) implies exists|b: int|
                    is_mode(tally(ov, v), (table_view(by_id@)[v].1, b))
                        && table_view(by_id@)[v].0 == band_label(b) by {
                if v == u {
                    assert(entry@.0 == band_label(bnd as int));
                    assert(is_mode(tally(ov, v), (table_view(by_id@)[v].1, bnd as int)));
                } else {
                    assert(before.contains_key(v));
                    assert(table_view(by_id@)[v] == before[v]);
                }
            }
        }
        ui = ui + 1;
    }
    assert(units@.subrange(0, units@.len() as int) == units@);
    UnitTreeTable(by_id)
}

/// The `[unit_id, building, grid_row, civ_count]` row a JSON value holds.
pub open spec fn tree_row(v: JsonValue) -> Option<(i32, Seq<char>, usize, u32)> {
    match v {
        JsonValue::Array(items) => if items@.len() == 4 {
            match (items@[0], items@[1], items@[2], items@[3]) {
                (
                    JsonValue::Number(a),
                    JsonValue::Str(b),
                    JsonValue::Number(c),
                    JsonValue::Number(d),
                ) => match (parse_i32_spec(a@), parse_u64_spec(c@), parse_u64_spec(d@)) {
                    (Some(x), Some(y), Some(z)) => if y <= usize::MAX && z <= u32::MAX {
                        Some((x, b@, y as usize, z as u32))
                    } else {
                        None
                    },
                    _ => None,
                },
                _ => None,
            }
        } else {
            None
        },
        _ => None,
    }
}

/// The rows of a list of JSON values, if every one is a row.
pub open spec fn tree_rows(vs: Seq<JsonValue>) -> Option<Seq<(i32, Seq<char>, usize, u32)>>
    decreases vs.len(),
{
    if vs.len() == 0 {
        Some(Seq::empty())
    } else {
        match (tree_rows(vs.drop_last()), tree_row(vs.last())) {
            (Some(p), Some(x)) => Some(p.push(x)),
            _ => None,
        }
    }
}

/// The observations a unit-tree document holds: an object whose `observations` member is
/// an array of rows (other members ignored).
pub open spec fn tree_doc_observations(v: JsonValue) -> Option<Seq<(i32, Seq<char>, usize, u32)>> {
    match v {
        JsonValue::Object(fields) => match member(fields@, "observations"@) {
            Some(JsonValue::Array(items)) => tree_rows(items@),
            _ => None,
        },
        _ => None,
    }
}

proof fn lemma_tree_rows_prefix(vs: Seq<JsonValue>, k: int)
    requires
        0 <= k <= vs.len(),
        tree_rows(vs) is Some,
    ensures
        tree_rows(vs.subrange(0, k)) is Some,
    decreases vs.len() - k,
{
    if k < vs.len() {
        let w = vs.drop_last();
        assert(w.subrange(0, k) == vs.subrange(0, k));
        lemma_tree_rows_prefix(w, k);
    } else {
        assert(vs.subrange(0, k) == vs);
    }
}

fn read_tree_row(v: &JsonValue) -> (r: Option<(i32, String, usize, u32)>)
    ensures
        match r {
            Some(x) => tree_row(*v) == Some((x.0, x.1@, x.2, x.3)),
            None => tree_row(*v) is None,
        },
{
    match v {
        JsonValue::Array(cells) => {
            if cells.len() != 4 {
                return None;
            }
            match (&cells[0], &cells[1], &cells[2], &cells[3]) {
                (JsonValue::Number(a), JsonValue::Str(b), JsonValue::Number(c), JsonValue::Number(d)) => {
                    let ac = chars_of(a.as_str());
                    let cc = chars_of(c.as_str());
                    let dc = chars_of(d.as_str());
                    match (parse_i32(&ac), parse_u64(&cc), parse_u64(&dc)) {
                        (Some(x), Some(y), Some(z)) => {
                            if y <= usize::MAX as u64 && z <= 4294967295u64 {
                                Some((x, b.clone(), y as usize, z as u32))
                            } else {
                                None
                            }
                        },
                        _ => None,
                    }
                },
                _ => None,
            }
        },
        _ => None,
    }
}

/// The observations of a unit-tree document, read.
fn read_tree_observations(v: &JsonValue) -> (r: Option<Vec<(i32, String, usize, u32)>>)
    ensures
        match r {
            Some(o) => tree_doc_observations(*v) == Some(tree_obs_view(o@)),
            None => tree_doc_observations(*v) is None,
        },
{
    let fields = match v {
        JsonValue::Object(fields) => fields,
        _ => return None,
    };
    let items = match get_member(fields, "observations") {
        Some(JsonValue::Array(items)) => items,
        _ => return None,
    };
    let mut out: Vec<(i32, String, usize, u32)> = Vec::new();
    let mut i: usize = 0;
    assert(tree_obs_view(out@) =~= Seq::<(i32, Seq<char>, usize, u32)>::empty());
    assert(tree_doc_observations(*v) == tree_rows(items@));
    while i < items.len()
        invariant
            i <= items@.len(),
            tree_doc_observations(*v) == tree_rows(items@),
            tree_rows(items@.subrange(0, i as int)) == Some(tree_obs_view(out@)),
        decreases items@.len() - i,
    {
        let ghost pre = items@.subrange(0, i as int);
        assert(items@.subrange(0, i + 1).drop_last() == pre);
        assert(items@.subrange(0, i + 1).last() == items@[i as int]);
        match read_tree_row(&items[i]) {
            None => {
                proof {
                    if tree_rows(items@) is Some {
                        lemma_tree_rows_prefix(items@, i + 1);
                    }
                }
                return None;
            },
            Some(row) => {
                let ghost rv = (row.0, row.1@, row.2, row.3);
                out.push(row);
                assert(tree_obs_view(out@) =~= tree_obs_view(out@.drop_last()).push(rv));
            },
        }
        i = i + 1;
    }
    assert(items@.subrange(0, items@.len() as int) == items@);
    Some(out)
}

/// Whether the civ counts of the observations sum, per unit and `(building, band)`,
/// within `u32`.
pub open spec fn tallies_fit(obs: Seq<(i32, Seq<char>, usize, u32)>) -> bool {
    forall|u: i32, k: (Seq<char>, int)| tget(tally(obs, u), k) <= u32::MAX
}

/// The observations-to-table step of [`parse`], from the parsed document: a document
/// without an `observations` array of `[i32, string, usize, u32]` rows fails with
/// [`RefdataError::ParseSource`].
pub fn from_json(v: &JsonValue) -> (r: Result<UnitTreeTable>)
    requires
        match tree_doc_observations(*v) {
            Some(o) => tallies_fit(o),
            None => true,
        },
    ensures
        match tree_doc_observations(*v) {
            None => r matches Err(RefdataError::ParseSource { file, .. }) && file@
                == "aoe2techtree-unit-tree.json"@,
            Some(o) => r matches Ok(t) && is_unit_tree(t@, o),
        },
{
    match read_tree_observations(v) {
        Some(obs) => Ok(from_observations(obs.as_slice())),
        None => Err(
            RefdataError::ParseSource {
                file: "aoe2techtree-unit-tree.json",
                message: string_of(&chars_of("invalid unit-tree document")),
            },
        ),
    }
}

/// Parses unit-tree-document text: malformed JSON or a document of the wrong shape fails
/// with [`RefdataError::ParseSource`]; otherwise each observed unit resolves to its mode.
pub fn parse(json: &str) -> (r: Result<UnitTreeTable>)
    requires
        match json_parse(json@) {
            Ok(v) => match tree_doc_observations(v) {
                Some(o) => tallies_fit(o),
                None => true,
            },
            Err(_) => true,
        },
    ensures
        match json_parse(json@) {
            Err(_) => r matches Err(RefdataError::ParseSource { file, .. }) && file@
                == "aoe2techtree-unit-tree.json"@,
            Ok(v) => match tree_doc_observations(v) {
                None => r matches Err(RefdataError::ParseSource { file, .. }) && file@
                    == "aoe2techtree-unit-tree.json"@,
                Some(o) => r matches Ok(t) && is_unit_tree(t@, o),
            },
        },
{
    match parse_json(json) {
        Ok(v) => from_json(&v),
        Err(message) => Err(RefdataError::ParseSource { file: "aoe2techtree-unit-tree.json", message }),
    }
}


/// The civ counts summed over the observations of unit `u` under key `k` (building, band).
pub open spec fn key_sum(obs: Seq<(i32, Seq<char>, usize, u32)>, u: i32, k: (Seq<char>, int)) -> int
    decreases obs.len(),
{
    if obs.len() == 0 {
        0
    } else {
        let o = obs.last();
        key_sum(obs.drop_last(), u, k) + if o.0 == u && (o.1, band(o.2)) == k {
            o.3 as int
        } else {
            0
        }
    }
}

proof fn lemma_tally_is_key_sum(obs: Seq<(i32, Seq<char>, usize, u32)>, u: i32, k: (Seq<char>, int))
    ensures
        tget(tally(obs, u), k) == key_sum(obs, u, k),
        key_sum(obs, u, k) > 0 ==> exists|i: int|
            0 <= i < obs.len() && obs[i].0 == u && (obs[i].1, band(obs[i].2)) == k,
    decreases obs.len(),
{
    if obs.len() > 0 {
        let w = obs.drop_last();
        lemma_tally_is_key_sum(w, u, k);
        lemma_tally_facts(w, u);
        let o = obs.last();
        if o.0 == u {
            lemma_tally_add(tally(w, u), (o.1, band(o.2)), o.3 as int);
        }
        if key_sum(obs, u, k) > 0 {
            if key_sum(w, u, k) > 0 {
                let i = choose|i: int| 0 <= i < w.len() && w[i].0 == u && (w[i].1, band(w[i].2)) == k;
                assert(obs[i] == w[i]);
            } else {
                assert(obs[obs.len() - 1] == o);
            }
        }
    }
}

proof fn lemma_key_sum_prefix(obs: Seq<(i32, Seq<char>, usize, u32)>, n: int, u: i32, k: (Seq<char>, int))
    requires
        0 <= n <= obs.len(),
    ensures
        key_sum(obs.subrange(0, n), u, k) <= key_sum(obs, u, k),
    decreases obs.len() - n,
{
    if n < obs.len() {
        let w = obs.drop_last();
        assert(w.subrange(0, n) == obs.subrange(0, n));
        lemma_key_sum_prefix(w, n, u, k);
    } else {
        assert(obs.subrange(0, n) == obs);
    }
}

/// Whether the civ counts of unit `u` under `(name, b)` sum to at most `u32::MAX`.
fn key_sum_fits(obs: &Vec<(i32, String, usize, u32)>, u: i32, name: &Vec<char>, b: usize) -> (r: bool)
    ensures
        r == (key_sum(tree_obs_view(obs@), u, (name@, b as int)) <= u32::MAX),
{
    let ghost ov = tree_obs_view(obs@);
    let ghost k = (name@, b as int);
    let mut total: u64 = 0;
    let mut i: usize = 0;
    while i < obs.len()
        invariant
            i <= obs@.len(),
            ov == tree_obs_view(obs@),
            k == (name@, b as int),
            total == key_sum(ov.subrange(0, i as int), u, k),
            total <= u32::MAX,
        decreases obs@.len() - i,
    {
        assert(ov.subrange(0, i + 1).drop_last() == ov.subrange(0, i as int));
        assert(ov.subrange(0, i + 1).last() == ov[i as int]);
        let o = &obs[i];
        if o.0 == u {
            let half = o.2 / 2;
            let ob: usize = if half < 3 {
                half
            } else {
                3
            };
            let oname = chars_of(o.1.as_str());
            if ob == b && chars_eq(&oname, name) {
                total = total + o.3 as u64;
                if total > 4294967295u64 {
                    proof {
                        lemma_key_sum_prefix(ov, i + 1, u, k);
                    }
                    return false;
                }
            }
        }
        i = i + 1;
    }
    assert(ov.subrange(0, ov.len() as int) == ov);
    true
}

/// Whether every tally of the observations fits `u32` (what [`parse`] requires).
fn tallies_fit_check(obs: &Vec<(i32, String, usize, u32)>) -> (r: bool)
    ensures
        r == tallies_fit(tree_obs_view(obs@)),
{
    let ghost ov = tree_obs_view(obs@);
    let mut i: usize = 0;
    while i < obs.len()
        invariant
            i <= obs@.len(),
            ov == tree_obs_view(obs@),
            forall|j: int| 0 <= j < i ==> key_sum(ov, #[trigger] ov[j].0, (ov[j].1, band(ov[j].2))) <= u32::MAX,
        decreases obs@.len() - i,
    {
        let o = &obs[i];
        let half = o.2 / 2;
        let b: usize = if half < 3 {
            half
        } else {
            3
        };
        let name = chars_of(o.1.as_str());
        assert(ov[i as int] == (o.0, o.1@, o.2, o.3));
        if !key_sum_fits(obs, o.0, &name, b) {
            proof {
                lemma_tally_is_key_sum(ov, o.0, (name@, b as int));
            }
            return false;
        }
        i = i + 1;
    }
    proof {
        assert forall|u: i32, k: (Seq<char>, int)| tget(tally(ov, u), k) <= u32::MAX by {
            lemma_tally_is_key_sum(ov, u, k);
            if key_sum(ov, u, k) > u32::MAX {
                let j = choose|j: int| 0 <= j < ov.len() && ov[j].0 == u && (ov[j].1, band(ov[j].2)) == k;
                assert(key_sum(ov, ov[j].0, (ov[j].1, band(ov[j].2))) <= u32::MAX);
            }
        }
    }
    true
}

/// [`parse`] for any text: `None` when some unit's civ counts under one (building, band)
/// sum past `u32` (a tally [`parse`] cannot hold), else what [`parse`] gives.
pub fn parse_checked(json: &str) -> (r: Option<Result<UnitTreeTable>>)
    ensures
        match json_parse(json@) {
            Err(_) => r matches Some(Err(RefdataError::ParseSource { file, .. })) && file@
                == "aoe2techtree-unit-tree.json"@,
            Ok(v) => match tree_doc_observations(v) {
                None => r matches Some(Err(RefdataError::ParseSource { file, .. })) && file@
                    == "aoe2techtree-unit-tree.json"@,
                Some(o) => if tallies_fit(o) {
                    r matches Some(Ok(t)) && is_unit_tree(t@, o)
                } else {
                    r is None
                },
            },
        },
{
    match parse_json(json) {
        Err(message) => Some(Err(RefdataError::ParseSource { file: "aoe2techtree-unit-tree.json", message })),
        Ok(v) => match read_tree_observations(&v) {
            None => Some(from_json(&v)),
            Some(obs) => {
                if tallies_fit_check(&obs) {
                    Some(from_json(&v))
                } else {
                    None
                }
            },
        },
    }
}

} // verus!
