//! The game-facts document: per unit its name, age, training building, non-zero cost and
//! rendered attack bonuses, from the resolved tech-tree units, the unit-tree table and the
//! armour-class labels.
use vstd::prelude::*;

use crate::refdata::armor_classes::ArmorClassTable;
use crate::refdata::civilizations::AOE2TECHTREE_SHA;
use crate::refdata::civ_region::join;
use crate::refdata::error::{RefdataError, Result};
use crate::refdata::model::{AgeRank, GameFactsDoc, GameFactsUnit, Source};
use crate::refdata::unit_tree::UnitTreeTable;
use crate::str_map::{assoc_insert, keys_ascending, sorted_as, StrMap};
use crate::text::{chars_of, i64_decimal, lex_lt, push_all, signed_decimal, string_of};

verus! {

/// One attack of a unit: `amount` damage against armour class `class`.
#[derive(Debug, Clone, Copy, PartialEq, Eq, Structural)]
pub struct RawAttack {
    pub class: i32,
    pub amount: i32,
}

/// A unit's cost, every resource present (0 when not spent).
#[derive(Debug, Clone, Copy, Default, PartialEq, Eq, Structural)]
pub struct RawCost {
    pub food: i32,
    pub wood: i32,
    pub gold: i32,
    pub stone: i32,
}

/// The base attack classes (melee 4, pierce 3): not bonuses.
pub const BASE_ATTACK_CLASSES: [i32; 2] = [3, 4];

/// The generated-document marker.
pub const GENERATED_MARKER: &'static str = "pipeline/crates/refdata — DO NOT EDIT BY HAND";

/// The non-zero resources of a cost, in ascending key order: food, gold, stone, wood.
pub open spec fn sparse_cost_spec(c: RawCost) -> Seq<(Seq<char>, i32)> {
    let a = if c.food != 0 { seq![("food"@, c.food)] } else { Seq::empty() };
    let b = if c.gold != 0 { seq![("gold"@, c.gold)] } else { Seq::empty() };
    let d = if c.stone != 0 { seq![("stone"@, c.stone)] } else { Seq::empty() };
    let e = if c.wood != 0 { seq![("wood"@, c.wood)] } else { Seq::empty() };
    a + b + d + e
}

/// Only the non-zero resources of a cost, keyed by resource name in ascending key order.
pub fn sparse_cost(cost: &RawCost) -> (r: StrMap<i32>)
    ensures
        r@ == sparse_cost_spec(*cost),
        keys_ascending(r@),
{
    proof {
        reveal_strlit("food");
        reveal_strlit("wood");
        reveal_strlit("gold");
        reveal_strlit("stone");
        assert("food"@[0] == 'f' && "wood"@[0] == 'w' && "gold"@[0] == 'g' && "stone"@[0] == 's');
    }
    let mut out: StrMap<i32> = StrMap::new();
    if cost.food != 0 {
        out.insert(string_of(&chars_of("food")), cost.food);
    }
    let ghost a = out@;
    assert(a == (if cost.food != 0 { seq![("food"@, cost.food)] } else { Seq::empty() }));
    if cost.gold != 0 {
        proof {
            crate::str_map::lemma_assoc_index(a, "gold"@);
            assert forall|j: int| 0 <= j < a.len() implies (#[trigger] a[j]).0 != "gold"@ by {
                assert(a[j].0 == "food"@);
            }
        }
        out.insert(string_of(&chars_of("gold")), cost.gold);
    }
    let ghost b = out@;
    assert(b == a + (if cost.gold != 0 { seq![("gold"@, cost.gold)] } else { Seq::empty() }));
    if cost.stone != 0 {
        proof {
            crate::str_map::lemma_assoc_index(b, "stone"@);
            assert forall|j: int| 0 <= j < b.len() implies (#[trigger] b[j]).0 != "stone"@ by {
                assert(b[j].0 == "food"@ || b[j].0 == "gold"@);
            }
        }
        out.insert(string_of(&chars_of("stone")), cost.stone);
    }
    let ghost d = out@;
    assert(d == b + (if cost.stone != 0 { seq![("stone"@, cost.stone)] } else { Seq::empty() }));
    if cost.wood != 0 {
        proof {
            crate::str_map::lemma_assoc_index(d, "wood"@);
            assert forall|j: int| 0 <= j < d.len() implies (#[trigger] d[j]).0 != "wood"@ by {
                assert(d[j].0 == "food"@ || d[j].0 == "gold"@ || d[j].0 == "stone"@);
            }
        }
        out.insert(string_of(&chars_of("wood")), cost.wood);
    }
    assert(out@ == d + (if cost.wood != 0 { seq![("wood"@, cost.wood)] } else { Seq::empty() }));
    proof {
        let r = out@;
        assert forall|i: int, j: int| 0 <= i < j < r.len() implies lex_lt((#[trigger] r[i]).0, (#[trigger] r[j]).0) by {
            let ki = r[i].0;
            let kj = r[j].0;
            assert(ki == "food"@ || ki == "gold"@ || ki == "stone"@ || ki == "wood"@);
            assert(kj == "food"@ || kj == "gold"@ || kj == "stone"@ || kj == "wood"@);
            assert(ki.len() > 0 && kj.len() > 0 && ki[0] < kj[0]);
        }
    }
    out
}

/// Whether an attack is a bonus: a positive amount against a non-base class.
pub open spec fn is_bonus(a: RawAttack) -> bool {
    a.amount > 0 && a.class != 3 && a.class != 4
}

/// Where rendering attack bonuses ends: the first bonus whose class has no label, or the
/// rendered `+{amount} {label}` parts in order.
pub enum BonusOutcome {
    Unknown(i32),
    Parts(Seq<Seq<char>>),
}

/// Renders the bonuses among `attacks[i..]` after the parts `parts`.
pub open spec fn bonus_parts(attacks: Seq<RawAttack>, labels: Map<i32, Seq<char>>, i: int, parts: Seq<Seq<char>>) -> BonusOutcome
    decreases attacks.len() - i,
{
    if i < 0 || i >= attacks.len() {
        BonusOutcome::Parts(parts)
    } else if !is_bonus(attacks[i]) {
        bonus_parts(attacks, labels, i + 1, parts)
    } else if !labels.contains_key(attacks[i].class) {
        BonusOutcome::Unknown(attacks[i].class)
    } else {
        bonus_parts(
            attacks,
            labels,
            i + 1,
            parts.push(seq!['+'] + signed_decimal(attacks[i].amount as int) + seq![' '] + labels[attacks[i].class]),
        )
    }
}

/// A unit's rendered attack bonuses: each positive attack against a non-base class as
/// `+{amount} {class label}`, joined by `;`; `None` when there are none, and
/// [`RefdataError::UnknownAttackClass`] for the first bonus whose class has no label.
pub fn attack_bonus(attacks: &[RawAttack], armor: &ArmorClassTable) -> (r: Result<Option<String>>)
    ensures
        match bonus_parts(attacks@, armor@, 0, Seq::empty()) {
            BonusOutcome::Unknown(class) => r == Err::<Option<String>, RefdataError>(
                RefdataError::UnknownAttackClass { class },
            ),
            BonusOutcome::Parts(parts) => if parts.len() == 0 {
                r matches Ok(None)
            } else {
                r matches Ok(Some(s)) && s@ == join(parts, seq![';'])
            },
        },
{
    let mut parts: Vec<Vec<char>> = Vec::new();
    let mut i: usize = 0;
    assert(crate::text::views(parts@) =~= Seq::<Seq<char>>::empty());
    while i < attacks.len()
        invariant
            i <= attacks@.len(),
            bonus_parts(attacks@, armor@, 0, Seq::empty()) == bonus_parts(
                attacks@,
                armor@,
                i as int,
                crate::text::views(parts@),
            ),
        decreases attacks@.len() - i,
    {
        let a = attacks[i];
        if a.amount > 0 && a.class != 3 && a.class != 4 {
            let label = match armor.label(a.class) {
                Ok(l) => l,
                Err(e) => {
                    return Err(e);
                },
            };
            let mut part: Vec<char> = Vec::new();
            part.push('+');
            push_all(&mut part, &i64_decimal(a.amount as i64));
            part.push(' ');
            push_all(&mut part, &chars_of(label));
            assert(part@ =~= seq!['+'] + signed_decimal(a.amount as int) + seq![' '] + armor@[a.class]);
            let ghost before = crate::text::views(parts@);
            parts.push(part);
            assert(crate::text::views(parts@) =~= before.push(part@));
        }
        i = i + 1;
    }
    if parts.len() == 0 {
        Ok(None)
    } else {
        let sep: Vec<char> = vec![';'];
        assert(sep@ == seq![';']);
        Ok(Some(string_of(&crate::refdata::civ_region::join_chars(&parts, &sep))))
    }
}

/// One resolved unit: its display name, slug, unit id, cost and attacks.
#[derive(Debug, Clone)]
pub struct ResolvedUnit {
    pub display_name: &'static str,
    pub slug: &'static str,
    pub id: i32,
    pub cost: RawCost,
    pub attacks: Vec<RawAttack>,
}

/// What one resolved unit comes to: a missing age/building, an unlabeled bonus class, or
/// its facts `(name, age, building, cost, attack bonus)`.
pub enum FactsOutcome {
    NoAgeBuilding,
    UnknownClass(i32),
    Facts((Seq<char>, Seq<char>, Seq<char>, Seq<(Seq<char>, i32)>, Option<Seq<char>>)),
}

/// The facts outcome of one resolved unit.
pub open spec fn facts_outcome(u: ResolvedUnit, tree: Map<i32, (Seq<char>, Seq<char>)>, labels: Map<i32, Seq<char>>) -> FactsOutcome {
    if !tree.contains_key(u.id) {
        FactsOutcome::NoAgeBuilding
    } else {
        match bonus_parts(u.attacks@, labels, 0, Seq::empty()) {
            BonusOutcome::Unknown(c) => FactsOutcome::UnknownClass(c),
            BonusOutcome::Parts(parts) => FactsOutcome::Facts(
                (
                    u.display_name@,
                    tree[u.id].0,
                    tree[u.id].1,
                    sparse_cost_spec(u.cost),
                    if parts.len() == 0 {
                        None
                    } else {
                        Some(join(parts, seq![';']))
                    },
                ),
            ),
        }
    }
}

/// Whether the `i`-th unit's facts come out.
pub open spec fn facts_done(units: Seq<ResolvedUnit>, tree: Map<i32, (Seq<char>, Seq<char>)>, labels: Map<i32, Seq<char>>, i: int) -> bool {
    facts_outcome(units[i], tree, labels) is Facts
}

/// The facts table of the first `n` units (all done), keyed by slug.
pub open spec fn facts_table(
    units: Seq<ResolvedUnit>,
    tree: Map<i32, (Seq<char>, Seq<char>)>,
    labels: Map<i32, Seq<char>>,
    n: int,
) -> Seq<(Seq<char>, (Seq<char>, Seq<char>, Seq<char>, Seq<(Seq<char>, i32)>, Option<Seq<char>>))>
    decreases n,
{
    if n <= 0 {
        Seq::empty()
    } else {
        match facts_outcome(units[n - 1], tree, labels) {
            FactsOutcome::Facts(f) => assoc_insert(facts_table(units, tree, labels, n - 1), units[n - 1].slug@, f),
            _ => facts_table(units, tree, labels, n - 1),
        }
    }
}

/// Whether `e` is the error a failing unit reports.
pub open spec fn facts_error(e: RefdataError, u: ResolvedUnit, o: FactsOutcome) -> bool {
    match o {
        FactsOutcome::NoAgeBuilding => e == (RefdataError::MissingAgeBuilding { slug: u.slug, unit_id: u.id }),
        FactsOutcome::UnknownClass(c) => e == (RefdataError::UnknownAttackClass { class: c }),
        FactsOutcome::Facts(_) => false,
    }
}

fn unit_facts(u: &ResolvedUnit, unit_tree: &UnitTreeTable, armor: &ArmorClassTable) -> (r: Result<GameFactsUnit>)
    ensures
        match facts_outcome(*u, unit_tree@, armor@) {
            FactsOutcome::Facts(f) => r matches Ok(g) && g@ == f,
            o => r matches Err(e) && facts_error(e, *u, o),
        },
{
    broadcast use vstd::string::to_string_from_display_ensures_for_str;

    let ab = match unit_tree.require(u.id, u.slug) {
        Ok(x) => x,
        Err(e) => {
            return Err(e);
        },
    };
    let bonus = match attack_bonus(u.attacks.as_slice(), armor) {
        Ok(b) => b,
        Err(e) => {
            return Err(e);
        },
    };
    Ok(
        GameFactsUnit {
            name: u.display_name.to_string(),
            age: ab.age.clone(),
            building: ab.building.clone(),
            cost: sparse_cost(&u.cost),
            attack_bonus: bonus,
        },
    )
}

/// The document's source block.
pub fn facts_source() -> (r: Source)
    ensures
        r.repo@ == "SiegeEngineers/aoe2techtree"@,
        r.sha@ == AOE2TECHTREE_SHA@,
        r.url@ == "https://github.com/SiegeEngineers/aoe2techtree/tree/"@ + AOE2TECHTREE_SHA@,
{
    broadcast use vstd::string::to_string_from_display_ensures_for_str;

    let mut url = chars_of("https://github.com/SiegeEngineers/aoe2techtree/tree/");
    push_all(&mut url, &chars_of(AOE2TECHTREE_SHA));
    Source {
        repo: "SiegeEngineers/aoe2techtree".to_string(),
        file: "data/data.json + data/trees/*.json + js/techtree.js".to_string(),
        sha: AOE2TECHTREE_SHA.to_string(),
        license: "MIT code / MS Game Content Usage Rules assets".to_string(),
        url: string_of(&url),
    }
}

/// Builds the game-facts document from the resolved units, in order: each unit's age and
/// building from the unit tree, its non-zero cost, and its rendered attack bonuses; the
/// first unit without an age/building or with an unlabeled bonus class fails the build.
pub fn build_from_resolved(units: &[ResolvedUnit], unit_tree: &UnitTreeTable, armor: &ArmorClassTable) -> (r: Result<GameFactsDoc>)
    ensures
        ({
            let n = units@.len() as int;
            &&& (forall|i: int| 0 <= i < n ==> #[trigger] facts_done(units@, unit_tree@, armor@, i)) ==> (
            r matches Ok(doc) && sorted_as(doc.units@, facts_table(units@, unit_tree@, armor@, n))
                && doc.generated@ == GENERATED_MARKER@ && doc.age_rank == (AgeRank {
                dark: 1,
                feudal: 2,
                castle: 3,
                imperial: 4,
            }))
            &&& (exists|i: int| 0 <= i < n && !#[trigger] facts_done(units@, unit_tree@, armor@, i)) ==> (
            r matches Err(e) && exists|i: int|
                0 <= i < n && !#[trigger] facts_done(units@, unit_tree@, armor@, i) && (forall|j: int|
                    0 <= j < i ==> facts_done(units@, unit_tree@, armor@, j)) && facts_error(
                    e,
                    units@[i],
                    facts_outcome(units@[i], unit_tree@, armor@),
                ))
        }),
{
    broadcast use vstd::string::to_string_from_display_ensures_for_str;

    let mut table: StrMap<GameFactsUnit> = StrMap::new();
    let mut i: usize = 0;
    while i < units.len()
        invariant
            i <= units@.len(),
            forall|j: int| 0 <= j < i ==> facts_done(units@, unit_tree@, armor@, j),
            table@ == facts_table(units@, unit_tree@, armor@, i as int),
        decreases units@.len() - i,
    {
        let u = &units[i];
        match unit_facts(u, unit_tree, armor) {
            Err(e) => {
                assert(!facts_done(units@, unit_tree@, armor@, i as int));
                return Err(e);
            },
            Ok(f) => {
                table.insert(u.slug.to_string(), f);
            },
        }
        i = i + 1;
    }
    Ok(
        GameFactsDoc {
            generated: GENERATED_MARKER.to_string(),
            source: facts_source(),
            age_rank: AgeRank { dark: 1, feudal: 2, castle: 3, imperial: 4 },
            units: table.into_sorted(),
        },
    )
}

} // verus!
