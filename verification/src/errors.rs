//! Error taxonomy of the core: every failure is an explicit result value,
//! never control flow inside the state machine.
use vstd::prelude::*;

verus! {

/// Which field of an upstream record could not be decoded.
#[derive(Debug, Clone, Copy, PartialEq, Eq, Structural)]
pub enum ParseFault {
    /// The account address is not a well-formed identifier.
    MalformedAddress,
    /// The mint identifier is not well-formed.
    MalformedMint,
    /// The token amount is not a decimal number that fits in 64 bits.
    NonNumericAmount,
}

/// A failure of the core, returned as a value to the caller.
#[derive(Debug, PartialEq, Eq)]
pub enum SweepError {
    /// Malformed upstream account data; fatal to session start.
    SourceParse(ParseFault),
    /// The upstream source could not be reached during the initial load.
    SourceUnavailable { cause: Vec<u8> },
    /// Processing was requested with zero selected accounts.
    EmptySelection,
    /// Dispatch or confirmation failed for one submission unit.
    Submission { unit_index: usize, cause: Vec<u8> },
}

} // verus!
