//! Reference-data derivation and replay analysis for an Age of Empires II guide.
use vstd::prelude::*;

pub mod json;
pub mod refdata;
pub mod replay;
pub mod str_map;
pub mod text;

verus! {

} // verus!
