//! The shapes of the generated reference-data documents. Keyed tables are [`StrMap`]s; the
//! builders hand them out in ascending key order (`String`'s order, as a `BTreeMap` keeps).
use vstd::prelude::*;

use crate::refdata::civ_help::strings_view;
use crate::str_map::StrMap;

verus! {

/// The whole game-facts document.
#[derive(Debug)]
pub struct GameFactsDoc {
    pub generated: String,
    pub source: Source,
    pub age_rank: AgeRank,
    pub units: StrMap<GameFactsUnit>,
}

/// Where a generated document's data came from.
#[derive(Debug, Clone, PartialEq, Eq)]
pub struct Source {
    pub repo: String,
    pub file: String,
    pub sha: String,
    pub license: String,
    pub url: String,
}

/// The rank of each age, for ordering.
#[derive(Debug, Clone, Copy, PartialEq, Eq, Structural)]
pub struct AgeRank {
    pub dark: i32,
    pub feudal: i32,
    pub castle: i32,
    pub imperial: i32,
}

/// One unit's game facts.
#[derive(Debug)]
pub struct GameFactsUnit {
    pub name: String,
    pub age: String,
    pub building: String,
    /// Only the non-zero resources, keyed by resource name.
    pub cost: StrMap<i32>,
    /// The rendered attack bonuses, or `None` when the unit has none.
    pub attack_bonus: Option<String>,
}

impl View for GameFactsUnit {
    type V = (Seq<char>, Seq<char>, Seq<char>, Seq<(Seq<char>, i32)>, Option<Seq<char>>);

    open spec fn view(&self) -> Self::V {
        (
            self.name@,
            self.age@,
            self.building@,
            self.cost@,
            match self.attack_bonus {
                Some(s) => Some(s@),
                None => None,
            },
        )
    }
}

/// A game-id -> name document (unit or tech names).
#[derive(Debug)]
pub struct NameMapDoc {
    pub provenance: NameMapProvenance,
    pub map: StrMap<String>,
    pub internal_names: StrMap<String>,
}

/// The provenance block of a name document.
#[derive(Debug, Clone, PartialEq, Eq)]
pub struct NameMapProvenance {
    pub source: String,
    pub sha: String,
    pub note: String,
}

/// Slug -> icon path, per kind.
#[derive(Debug)]
pub struct IconMapDoc {
    pub units: StrMap<String>,
    pub techs: StrMap<String>,
    pub buildings: StrMap<String>,
    pub civs: StrMap<String>,
}

/// The whole civilizations document.
#[derive(Debug, Clone)]
pub struct CivilizationsDoc {
    pub patch: String,
    pub civs: Vec<CivEntry>,
}

/// One civ's English data-layer entry.
#[derive(Debug, Clone, PartialEq)]
pub struct CivEntry {
    pub slug: String,
    pub region: String,
    pub specialty: String,
    pub unique_units: Vec<String>,
    pub civ_bonuses: Vec<String>,
    pub team_bonus: String,
    pub unique_techs: CivUniqueTechs,
    pub region_noun: String,
}

impl View for CivEntry {
    type V = (
        Seq<char>,
        Seq<char>,
        Seq<char>,
        Seq<Seq<char>>,
        Seq<Seq<char>>,
        Seq<char>,
        (Seq<char>, Seq<char>),
        (Seq<char>, Seq<char>),
        Seq<char>,
    );

    open spec fn view(&self) -> Self::V {
        (
            self.slug@,
            self.region@,
            self.specialty@,
            strings_view(self.unique_units@),
            strings_view(self.civ_bonuses@),
            self.team_bonus@,
            self.unique_techs.castle@,
            self.unique_techs.imperial@,
            self.region_noun@,
        )
    }
}

/// A civ's castle-age and imperial-age unique techs.
#[derive(Debug, Clone, PartialEq)]
pub struct CivUniqueTechs {
    pub castle: CivUniqueTech,
    pub imperial: CivUniqueTech,
}

/// One unique tech: its name and effect.
#[derive(Debug, Clone, PartialEq)]
pub struct CivUniqueTech {
    pub name: String,
    pub effect: String,
}

impl View for CivUniqueTech {
    type V = (Seq<char>, Seq<char>);

    open spec fn view(&self) -> (Seq<char>, Seq<char>) {
        (self.name@, self.effect@)
    }
}

/// The views of a list of unique techs.
pub open spec fn unique_techs_view(v: Seq<CivUniqueTech>) -> Seq<(Seq<char>, Seq<char>)> {
    v.map_values(|t: CivUniqueTech| t@)
}

/// The intermediate civ-help-strings document, keyed by slug.
#[derive(Debug)]
pub struct CivHelpStringsDoc {
    pub provenance: NameMapProvenance,
    pub civs: StrMap<CivHelpEntry>,
}

/// One civ's parsed help text in both languages.
#[derive(Debug, Clone, PartialEq)]
pub struct CivHelpEntry {
    pub en: CivHelpLang,
    pub tr: CivHelpLang,
}

impl View for CivHelpEntry {
    type V = (<CivHelpLang as View>::V, <CivHelpLang as View>::V);

    open spec fn view(&self) -> Self::V {
        (self.en@, self.tr@)
    }
}

/// One language's parsed civ help text.
#[derive(Debug, Clone, PartialEq)]
pub struct CivHelpLang {
    pub civ_type: String,
    pub civ_bonuses: Vec<String>,
    pub team_bonus: String,
    pub unique_techs: Vec<CivUniqueTech>,
    pub unique_unit_names: Vec<String>,
}

impl View for CivHelpLang {
    type V = (Seq<char>, Seq<Seq<char>>, Seq<char>, Seq<(Seq<char>, Seq<char>)>, Seq<Seq<char>>);

    open spec fn view(&self) -> Self::V {
        (
            self.civ_type@,
            strings_view(self.civ_bonuses@),
            self.team_bonus@,
            unique_techs_view(self.unique_techs@),
            strings_view(self.unique_unit_names@),
        )
    }
}

/// The unit-descriptions document, keyed by slug.
#[derive(Debug)]
pub struct UnitDescriptionsDoc {
    pub provenance: NameMapProvenance,
    pub units: StrMap<UnitDescriptionEntry>,
}

/// One unit's description and upgrades line.
#[derive(Debug, Clone, PartialEq)]
pub struct UnitDescriptionEntry {
    pub description: LocalizedString,
    pub upgrades: Option<LocalizedString>,
}

impl View for UnitDescriptionEntry {
    type V = ((Seq<char>, Seq<char>), Option<(Seq<char>, Seq<char>)>);

    open spec fn view(&self) -> Self::V {
        (
            self.description@,
            match self.upgrades {
                Some(u) => Some(u@),
                None => None,
            },
        )
    }
}

/// A string in English and Turkish.
#[derive(Debug, Clone, PartialEq, Eq)]
pub struct LocalizedString {
    pub en: String,
    pub tr: String,
}

impl View for LocalizedString {
    type V = (Seq<char>, Seq<char>);

    open spec fn view(&self) -> (Seq<char>, Seq<char>) {
        (self.en@, self.tr@)
    }
}

} // verus!
