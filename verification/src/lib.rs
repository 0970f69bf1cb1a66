//! Core valuation and return engine for a personal ledger.
//!
//! The engine turns sparse, irregularly dated account snapshots into
//! investment return figures (Modified Dietz), return curves, and a
//! multi-asset-class net-worth overview. All monetary values are integer
//! minor units (cents); rates are exact rationals, so every result is a
//! deterministic function of the snapshot rows handed in by the caller.

pub mod accounts;
pub mod asof;
pub mod budget;
pub mod date;
pub mod dietz;
pub mod error;
pub mod health;
pub mod idents;
pub mod invest;
pub mod money;
pub mod normalize;
pub mod params;
pub mod picker;
pub mod portfolio;
pub mod requests;
pub mod text;
pub mod wealth;
pub mod window;

use vstd::prelude::*;

verus! {

/// Clamp a value into an inclusive range; the limit parsers share this.
pub fn clamp_u32(value: u32, lo: u32, hi: u32) -> (r: u32)
    requires
        lo <= hi,
    ensures
        r == if value < lo {
            lo
        } else if value > hi {
            hi
        } else {
            value
        },
{
    if value < lo {
        lo
    } else if value > hi {
        hi
    } else {
        value
    }
}

} // verus!
