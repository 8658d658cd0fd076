//! Resolving a unit's English display name to the unit it names: a unit's name is the
//! `<b>...</b>` span of its help string, keyed by `LanguageNameId + 21000`; several ids may
//! carry one name only as stat-identical duplicates (graphics or formation variants).
use vstd::prelude::*;

use crate::refdata::error::{RefdataError, Result};
use crate::refdata::game_facts::RawCost;
use crate::refdata::unit_help::{bold_span, span_of, HELP_STRING_OFFSET};
use crate::str_map::{assoc_get, StrMap};
use crate::text::{i64_decimal, signed_decimal, str_eq, string_of};

verus! {

/// The stats that must agree for two ids sharing a display name to be one unit. The two
/// ranges are held as the bit patterns of their `f64` values, with `-0.0` taken as `0.0`,
/// so that equal bits are equal numbers.
#[derive(Debug, Clone, Copy, PartialEq, Eq, Structural)]
pub struct StatsKey {
    pub hp: i32,
    pub attack: i32,
    pub range_bits: u64,
    pub min_range_bits: u64,
    pub cost: RawCost,
    pub train_time: i32,
    pub melee_armor: i32,
    pub pierce_armor: i32,
}

/// One unit of the game data: its id, its `LanguageNameId`, and its stats key.
#[derive(Debug, Clone, Copy, PartialEq, Eq, Structural)]
pub struct NamedUnit {
    pub id: i32,
    pub language_name_id: i64,
    pub stats: StatsKey,
}

/// The display name of a unit: the `<b>...</b>` span of the help string keyed by the
/// decimal `LanguageNameId + 21000`, if there is one.
pub open spec fn unit_name(names: Seq<(Seq<char>, Seq<char>)>, lid: i64) -> Option<Seq<char>> {
    match assoc_get(names, signed_decimal(lid + HELP_STRING_OFFSET)) {
        Some(help) => match span_of(help, "<b>"@, "</b>"@) {
            Some((_, c)) => Some(c),
            None => None,
        },
        None => None,
    }
}

/// Whether unit `i` carries the display name `dn`.
pub open spec fn named(units: Seq<NamedUnit>, names: Seq<(Seq<char>, Seq<char>)>, dn: Seq<char>, i: int) -> bool {
    0 <= i < units.len() && unit_name(names, units[i].language_name_id) == Some(dn)
}

/// Unit `i` comes before unit `j`: a smaller id, or the same id earlier in the list.
pub open spec fn before(units: Seq<NamedUnit>, i: int, j: int) -> bool {
    units[i].id < units[j].id || (units[i].id == units[j].id && i <= j)
}

/// Unit `m` is the first, by id, of those carrying `dn`.
pub open spec fn is_lowest(units: Seq<NamedUnit>, names: Seq<(Seq<char>, Seq<char>)>, dn: Seq<char>, m: int) -> bool {
    named(units, names, dn, m) && forall|j: int| #[trigger] named(units, names, dn, j) ==> before(units, m, j)
}

/// Unit `d` is the first, by id, of those carrying `dn` whose stats differ from unit `m`'s.
pub open spec fn is_lowest_divergent(
    units: Seq<NamedUnit>,
    names: Seq<(Seq<char>, Seq<char>)>,
    dn: Seq<char>,
    m: int,
    d: int,
) -> bool {
    &&& named(units, names, dn, d)
    &&& units[d].stats != units[m].stats
    &&& forall|j: int| #[trigger] named(units, names, dn, j) && units[j].stats != units[m].stats ==> before(units, d, j)
}

/// Resolves a display name to the index of the unit it names: no unit carries it ->
/// `UnitNotFound`; else the first by id, unless another carrying it has different stats ->
/// `AmbiguousUnit` with the first's id and the first differing one's.
pub fn resolve(
    units: &[NamedUnit],
    names: &StrMap<String>,
    display_name: &'static str,
    slug: &'static str,
) -> (r: Result<usize>)
    requires
        forall|i: int| 0 <= i < units@.len() ==> (#[trigger] units@[i]).language_name_id <= i64::MAX - HELP_STRING_OFFSET,
    ensures
        ({
            let (us, ns, dn) = (units@, names@, display_name@);
            &&& (forall|i: int| !#[trigger] named(us, ns, dn, i)) ==> r == Err::<usize, RefdataError>(
                RefdataError::UnitNotFound { display_name, slug },
            )
            &&& (exists|i: int| #[trigger] named(us, ns, dn, i)) ==> exists|m: int|
                #[trigger] is_lowest(us, ns, dn, m) && ({
                    ||| (exists|d: int| #[trigger] is_lowest_divergent(us, ns, dn, m, d) && r == Err::<usize, RefdataError>(
                        RefdataError::AmbiguousUnit { display_name, slug, ids: (us[m].id, us[d].id) },
                    ))
                    ||| ((forall|j: int| #[trigger] named(us, ns, dn, j) ==> us[j].stats == us[m].stats) && r == Ok::<
                        usize,
                        RefdataError,
                    >(m as usize))
                })
        }),
{
    let ghost (us, ns, dn) = (units@, names@, display_name@);
    // which units carry the name
    let mut hit: Vec<bool> = Vec::new();
    let mut i: usize = 0;
    while i < units.len()
        invariant
            i <= units@.len(),
            us == units@,
            ns == names@,
            dn == display_name@,
            forall|k: int| 0 <= k < units@.len() ==> (#[trigger] units@[k]).language_name_id <= i64::MAX - HELP_STRING_OFFSET,
            hit@.len() == i,
            forall|k: int| 0 <= k < i ==> hit@[k] == named(us, ns, dn, k),
        decreases units@.len() - i,
    {
        let u = units[i];
        let key = string_of(&i64_decimal(u.language_name_id + HELP_STRING_OFFSET));
        let is_named = match names.get(key.as_str()) {
            Some(help) => match bold_span(help.as_str()) {
                Some(name) => str_eq(name.as_str(), display_name),
                None => false,
            },
            None => false,
        };
        hit.push(is_named);
        i = i + 1;
    }
    // the first by id
    let mut m: Option<usize> = None;
    let mut j: usize = 0;
    while j < units.len()
        invariant
            j <= units@.len(),
            us == units@,
            hit@.len() == units@.len(),
            forall|k: int| 0 <= k < units@.len() ==> hit@[k] == named(us, ns, dn, k),
            match m {
                Some(x) => x < j && named(us, ns, dn, x as int) && forall|k: int|
                    0 <= k < j && #[trigger] named(us, ns, dn, k) ==> before(us, x as int, k),
                None => forall|k: int| 0 <= k < j ==> !#[trigger] named(us, ns, dn, k),
            },
        decreases units@.len() - j,
    {
        if hit[j] {
            match m {
                Some(x) => {
                    if units[j].id < units[x].id {
                        m = Some(j);
                    }
                },
                None => {
                    m = Some(j);
                },
            }
        }
        j = j + 1;
    }
    let m = match m {
        None => {
            assert forall|k: int| !#[trigger] named(us, ns, dn, k) by {}
            return Err(RefdataError::UnitNotFound { display_name, slug });
        },
        Some(x) => x,
    };
    assert(is_lowest(us, ns, dn, m as int));
    // the first, by id, whose stats differ
    let ms = units[m].stats;
    let mut d: Option<usize> = None;
    let mut k: usize = 0;
    while k < units.len()
        invariant
            k <= units@.len(),
            us == units@,
            m < units@.len(),
            ms == us[m as int].stats,
            hit@.len() == units@.len(),
            forall|q: int| 0 <= q < units@.len() ==> hit@[q] == named(us, ns, dn, q),
            match d {
                Some(x) => x < k && named(us, ns, dn, x as int) && us[x as int].stats != ms && forall|q: int|
                    0 <= q < k && #[trigger] named(us, ns, dn, q) && us[q].stats != ms ==> before(us, x as int, q),
                None => forall|q: int| 0 <= q < k && #[trigger] named(us, ns, dn, q) ==> us[q].stats == ms,
            },
        decreases units@.len() - k,
    {
        if hit[k] && units[k].stats != ms {
            match d {
                Some(x) => {
                    if units[k].id < units[x].id {
                        d = Some(k);
                    }
                },
                None => {
                    d = Some(k);
                },
            }
        }
        k = k + 1;
    }
    match d {
        Some(x) => {
            assert(is_lowest_divergent(us, ns, dn, m as int, x as int));
            Err(RefdataError::AmbiguousUnit { display_name, slug, ids: (units[m].id, units[x].id) })
        },
        None => Ok(m),
    }
}

} // verus!
