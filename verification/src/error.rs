//! The engine's caller-facing failure taxonomy.
//!
//! Exactly three recoverable failure modes exist, and they stay
//! distinguishable so a consumer can tell "add your first snapshot" apart
//! from "widen the date range". Arithmetic degeneracies (non-positive
//! weighted capital, a non-positive annualization base) are never errors:
//! they resolve to an undefined rate plus a note.

use vstd::prelude::*;

verus! {

#[derive(Clone, Copy, Debug, PartialEq, Eq, Structural)]
pub enum EngineError {
    /// Malformed preset or date, missing required `from` for a custom
    /// window, `from` after `to` once clipped, or no asset class selected.
    Validation,
    /// No snapshots exist for the requested scope, or the clipped `to`
    /// precedes the earliest snapshot.
    NoData,
    /// Snapshots exist but do not bracket a usable begin/end pair, or the
    /// interval is zero without the zero-interval flag.
    InsufficientData,
}

pub open spec fn validation_message() -> Seq<char> {
    "validation error: malformed or missing input"@
}

pub open spec fn no_data_message() -> Seq<char> {
    "no data available in the requested range"@
}

pub open spec fn insufficient_data_message() -> Seq<char> {
    "snapshots in range are insufficient to compute a return"@
}

impl EngineError {
    /// A short, stable, human-readable text for this failure mode.
    pub fn message(&self) -> (r: String)
        ensures
            *self == EngineError::Validation ==> r@ == validation_message(),
            *self == EngineError::NoData ==> r@ == no_data_message(),
            *self == EngineError::InsufficientData ==> r@ == insufficient_data_message(),
    {
        match self {
            EngineError::Validation => String::from_str(
                "validation error: malformed or missing input",
            ),
            EngineError::NoData => String::from_str("no data available in the requested range"),
            EngineError::InsufficientData => String::from_str(
                "snapshots in range are insufficient to compute a return",
            ),
        }
    }
}

} // verus!
