//! Validation errors of the protocol's value types.

use vstd::prelude::*;

verus! {

/// Failures when constructing or restoring protocol values.
#[derive(Debug, Clone, Copy, PartialEq, Eq, Structural)]
pub enum Error {
    /// A mod-8 epoch could not be placed within the accepted window (clock skew).
    UnreadableEpoch,
    /// Bytes do not hold a well-formed compact station identifier.
    InvalidStationIdentifier,
    /// A callsign is empty or holds a character other than `A`-`Z` or `0`-`9`.
    InvalidCallsign,
    /// A network identifier is longer than 3 characters or not uppercase alphanumeric.
    InvalidNetwork,
    /// An SSID is greater than 9.
    InvalidSsid,
}

} // verus!
