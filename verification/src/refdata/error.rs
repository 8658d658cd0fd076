//! The closed failure surface of the reference-data generators: every variant is a
//! "fail loud, never fabricate" case.
use vstd::prelude::*;

verus! {

/// `Result` over [`RefdataError`].
pub type Result<T> = core::result::Result<T, RefdataError>;

/// Why a reference-data document could not be derived.
#[derive(Debug, PartialEq, Eq)]
pub enum RefdataError {
    /// A committed source slice failed to deserialize.
    ParseSource { file: &'static str, message: String },
    /// A canonical display name resolved to no unit in the source.
    UnitNotFound { display_name: &'static str, slug: &'static str },
    /// A display name resolved to two or more units whose stats differ.
    AmbiguousUnit { display_name: &'static str, slug: &'static str, ids: (i32, i32) },
    /// A canonical unit slug has no row in the unit-lines table.
    MissingUnitLine { slug: &'static str },
    /// A unit has no age/building observation in the tree slice.
    MissingAgeBuilding { slug: &'static str, unit_id: i32 },
    /// A unit's attack cites an armour class absent from the class table.
    UnknownAttackClass { class: i32 },
    /// A tree-node observation carries a use type other than `Unit`/`Tech`.
    UnknownTreeNodeUseType { node_id: i32, use_type: String },
    /// The same tree node resolves to two different names.
    ConflictingTreeNodeName { node_id: i32, use_type: String, first: String, second: String },
    /// A civ's help text parsed to zero civ bonuses.
    CivHelpUnparseable { civ_key: String, lang: &'static str, help_string_id: i64 },
    /// A civ's help text parsed to a unique-tech count other than 2.
    CivUniqueTechCount { civ_key: String, lang: &'static str, count: usize },
    /// A civ has no row in the curated region table.
    MissingCivRegion { slug: String },
    /// A civ resolved to zero unique units.
    NoCivUniqueUnit { slug: String },
    /// A unit has no EN or TR help string.
    UnitHelpStringMissing { slug: &'static str, language_name_id: i64, lang: &'static str },
    /// A unit's help string has no `<b>...</b>` title span.
    UnitHelpNoBoldName { slug: &'static str, lang: &'static str },
    /// A unit's help string has no `<br>` after its title line.
    UnitHelpNoBreakAfterTitle { slug: &'static str, lang: &'static str },
    /// A unit's upgrades line does not start with the expected label.
    UnitHelpUpgradesLabelMismatch { slug: &'static str, lang: &'static str, label: &'static str },
    /// A unit's help body is empty after stripping tags.
    UnitHelpEmptyBody { slug: &'static str, lang: &'static str },
    /// A unit's upgrades line is present in one language but not the other.
    UnitHelpUpgradesLangMismatch { slug: &'static str },
}

} // verus!
