//! The decoder's closed failure surface.
use vstd::prelude::*;

verus! {

/// Why decoding a replay failed.
#[derive(Debug, Clone, PartialEq, Eq)]
pub enum Error {
    /// The replay decoder rejected the bytes; its own message.
    Parse(String),
    /// A value read from the replay does not fit the signed width it is stored in; the
    /// field it was read into.
    Overflow { field: &'static str },
    /// An age-marker name outside `dark`/`feudal`/`castle`/`imperial`.
    UnknownAge(String),
}

} // verus!
