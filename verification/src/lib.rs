//! Command/response protocol engine for a KEL103 bench electronic load.
//!
//! The instrument speaks a line-based ASCII protocol over a serial link:
//! one command per line, one reply line per command.  This crate holds the
//! verified core of a driver for it: command framing, reply cleaning
//! (unit-suffix stripping and trimming), fixed-point decimal parsing and
//! formatting, write-verification within tolerance, and the identification
//! handshake.  The transport itself (opening the port, writing and reading
//! lines) is left to the caller, which hands each raw reply to the parsing
//! functions here.

pub mod ascii;
pub mod decimal;
pub mod error;
pub mod laws;
pub mod protocol;
pub mod text;

pub use error::KelError;
pub use protocol::Quantity;

use vstd::prelude::*;

verus! {

/// A physical quantity (volts, watts, amperes, hertz, percent) held as a
/// signed count of billionths of the unit, so that replies can be compared
/// against requested values at the protocol's absolute tolerance of 1e-9.
#[derive(Clone, Copy, Debug, PartialEq, Eq, Structural)]
pub struct Value {
    /// The quantity in billionths of its unit.
    pub nanos: i64,
}

impl Value {
    /// The quantity in billionths of its unit, for specifications.
    pub open spec fn view(self) -> int {
        self.nanos as int
    }

    /// Build a value from a count of thousandths of the unit, the resolution
    /// the wire protocol carries for settings.
    pub fn from_milli(m: i64) -> (r: Value)
        requires
            -9_223_372_036_854 <= m <= 9_223_372_036_854,
        ensures
            r@ == m * 1_000_000,
    {
        Value { nanos: m * 1_000_000 }
    }

    /// Build a value from a count of billionths of the unit.
    pub fn from_nanos(n: i64) -> (r: Value)
        ensures
            r@ == n as int,
    {
        Value { nanos: n }
    }
}

} // verus!
