//! The driver's error taxonomy: one variant per failure kind, each carrying
//! the smallest payload that identifies what went wrong.

use crate::Value;
use vstd::prelude::*;

verus! {

/// Why an operation against the instrument failed.
#[derive(Debug)]
pub enum KelError {
    /// The transport could not be opened, written, flushed or read
    /// (a timeout included); the text describes the underlying failure.
    Transport(String),
    /// A reply held bytes that are not valid text; the raw bytes are kept.
    Decoding(Vec<u8>),
    /// The residue of a measurement reply, after unit stripping and
    /// trimming, is not a decimal number (or is too large to hold);
    /// the offending residue is kept.
    ValueParsing(Vec<u8>),
    /// A setting read back after a write differs from the requested value
    /// by more than the tolerance of 1e-9.
    ValueMismatch {
        /// The value that was requested.
        expected: Value,
        /// The value the instrument reported afterwards.
        observed: Value,
    },
    /// The input switch read back after a write differs from the requested
    /// state.
    OutputMismatch {
        /// The state that was requested.
        expected_state: bool,
        /// The state the instrument reported afterwards.
        observed_state: bool,
    },
    /// A reply lacks every token the protocol allows for it; the raw reply
    /// is kept.
    DeviceProtocol(Vec<u8>),
    /// The identification reply does not name the expected model; the raw
    /// reply is kept.
    DeviceModelMismatch(Vec<u8>),
}

} // verus!
