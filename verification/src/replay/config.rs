//! Semantic constants of the replay pipeline: age-marker tech ids, economy units, watched
//! eco techs, opening unit lines, the API's fixed parameters and the manifest's status
//! vocabulary.
use vstd::prelude::*;

use crate::text::{chars_of, decimal, digit, digit_char, push_all, string_of, u64_decimal};

verus! {

/// World's Edge Link community leaderboard API base.
pub const API_BASE: &'static str = "https://aoe-api.worldsedgelink.com/community/leaderboard";

/// The API's title parameter.
pub const TITLE: &'static str = "age2";

/// The user agent sent with every API request.
pub const UA: &'static str = "aoe2guide-replays/1.0 (self-collect)";

/// Replay-file lookups per minute (the API allows about 120).
pub const REPLAYFILES_PER_MIN: u32 = 100;

/// Match ids per replay-file lookup.
pub const REPLAYFILES_BATCH: usize = 10;

/// The age an age-up research tech id marks.
pub open spec fn age_of_tech(technology_type: u16) -> Option<Seq<char>> {
    if technology_type == 101 {
        Some("feudal"@)
    } else if technology_type == 102 {
        Some("castle"@)
    } else if technology_type == 103 {
        Some("imperial"@)
    } else {
        None
    }
}

/// The age-up tech id of an age name.
pub open spec fn tech_of_age(age: Seq<char>) -> Option<u16> {
    if age == "feudal"@ {
        Some(101u16)
    } else if age == "castle"@ {
        Some(102u16)
    } else if age == "imperial"@ {
        Some(103u16)
    } else {
        None
    }
}

/// Research tech ids that mark an age-up, mapped to the canonical age name.
pub fn age_name(technology_type: u16) -> (r: Option<&'static str>)
    ensures
        match r {
            Some(s) => age_of_tech(technology_type) == Some(s@),
            None => age_of_tech(technology_type) is None,
        },
{
    match technology_type {
        101 => Some("feudal"),
        102 => Some("castle"),
        103 => Some("imperial"),
        _ => None,
    }
}

/// The reverse of [`age_name`]: the age-up tech id of a canonical age name.
pub fn age_tech_id(age: &str) -> (r: Option<u16>)
    ensures
        r == tech_of_age(age@),
{
    let a = chars_of(age);
    let feudal = chars_of("feudal");
    let castle = chars_of("castle");
    let imperial = chars_of("imperial");
    if crate::text::chars_eq(&a, &feudal) {
        Some(101)
    } else if crate::text::chars_eq(&a, &castle) {
        Some(102)
    } else if crate::text::chars_eq(&a, &imperial) {
        Some(103)
    } else {
        None
    }
}

/// The two age tables are inverse to each other: a tech id names an age exactly when that
/// age names the tech id.
pub proof fn lemma_age_tables_inverse(t: u16, age: Seq<char>)
    ensures
        age_of_tech(t) == Some(age) <==> tech_of_age(age) == Some(t),
{
    reveal_strlit("feudal");
    reveal_strlit("castle");
    reveal_strlit("imperial");
    assert("feudal"@[0] != "castle"@[0]);
    assert("feudal"@.len() != "imperial"@.len());
    assert("castle"@.len() != "imperial"@.len());
}

/// The three ages a replay's per-age rows cover, in order.
pub const AGES: [&'static str; 3] = ["feudal", "castle", "imperial"];

/// The villager's unit id.
pub const VILLAGER_ID: u16 = 83;

/// Economy/utility (non-combat) unit ids: villager, fishing ship, trade cart, trade cog, 17.
pub const ECO_UNIT_IDS: [u16; 5] = [83, 13, 128, 354, 17];

/// Whether a unit id is an economy unit.
pub open spec fn eco_unit(unit_id: u16) -> bool {
    unit_id == 83 || unit_id == 13 || unit_id == 128 || unit_id == 354 || unit_id == 17
}

/// Whether a unit id is one of [`ECO_UNIT_IDS`].
pub fn is_eco_unit(unit_id: u16) -> (r: bool)
    ensures
        r == eco_unit(unit_id),
{
    let ids = ECO_UNIT_IDS;
    let mut i: usize = 0;
    while i < 5
        invariant
            i <= 5,
            ids@ == seq![83u16, 13u16, 128u16, 354u16, 17u16],
            forall|j: int| 0 <= j < i ==> ids@[j] != unit_id,
        decreases 5 - i,
    {
        if ids[i] == unit_id {
            return true;
        }
        i = i + 1;
    }
    false
}

/// Dark-Age militia-line unit ids (toward a "Drush" prefix).
pub const MILITIA_LINE: [u16; 2] = [74, 75];

/// Watched eco upgrades: `(tech id, display name)`.
pub const WATCHED_TECHS: [(u16, &'static str); 10] = [
    (22, "Loom"),
    (213, "Wheelbarrow"),
    (249, "Hand Cart"),
    (202, "Double-Bit Axe"),
    (203, "Bow Saw"),
    (14, "Horse Collar"),
    (13, "Heavy Plow"),
    (55, "Gold Mining"),
    (182, "Gold Shaft Mining"),
    (278, "Stone Mining"),
];

/// The watched tech ids, in order.
pub open spec fn watched_tech_ids() -> Seq<u16> {
    seq![22u16, 213u16, 249u16, 202u16, 203u16, 14u16, 13u16, 55u16, 182u16, 278u16]
}

/// Whether a tech id is one of the watched eco techs.
pub fn is_watched_tech(tech_id: u16) -> (r: bool)
    ensures
        r == watched_tech_ids().contains(tech_id),
{
    let techs = WATCHED_TECHS;
    let mut i: usize = 0;
    while i < 10
        invariant
            i <= 10,
            forall|j: int| 0 <= j < 10 ==> (#[trigger] techs@[j]).0 == watched_tech_ids()[j],
            forall|j: int| 0 <= j < i ==> watched_tech_ids()[j] != tech_id,
        decreases 10 - i,
    {
        if techs[i].0 == tech_id {
            assert(watched_tech_ids()[i as int] == tech_id);
            return true;
        }
        i = i + 1;
    }
    assert forall|j: int| 0 <= j < watched_tech_ids().len() implies watched_tech_ids()[j]
        != tech_id by {}
    false
}

/// The two-digit, zero-padded rendering of `n < 100`.
pub open spec fn two_digits(n: nat) -> Seq<char> {
    seq![digit_char(n / 10), digit_char(n % 10)]
}

/// `m:ss` of a number of seconds (`format!("{}:{:02}", s / 60, s % 60)`).
pub open spec fn mmss_of(total_secs: nat) -> Seq<char> {
    decimal(total_secs / 60) + seq![':'] + two_digits(total_secs % 60)
}

/// Canonical `m:ss` formatter.
pub fn mmss(total_secs: u32) -> (r: String)
    ensures
        r@ == mmss_of(total_secs as nat),
{
    let mut out = u64_decimal((total_secs / 60) as u64);
    out.push(':');
    let s = (total_secs % 60) as u64;
    out.push(digit(s / 10));
    out.push(digit(s % 10));
    string_of(&out)
}

/// Manifest status: not yet looked up.
pub const PENDING: &'static str = "pending";

/// Manifest status: a usable replay URL was found.
pub const DOWNLOADABLE: &'static str = "downloadable";

/// Manifest status: downloaded, parsed and stored.
pub const PARSED: &'static str = "parsed";

/// Manifest status: replay files exist but none has a size.
pub const NO_REPLAY: &'static str = "no_replay";

/// Manifest status: the replay has aged out.
pub const EXPIRED: &'static str = "expired";

/// Manifest status: downloaded but could not be parsed.
pub const PARSE_FAILED: &'static str = "parse_failed";

/// Manifest status: a transient failure; safe to retry.
pub const ERROR: &'static str = "error";

} // verus!
