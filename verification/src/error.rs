//! Errors reported by decode and encode configuration and limits.

use vstd::prelude::*;

verus! {

/// Errors reported while decoding.
#[derive(Clone, Debug, PartialEq, Eq, Structural)]
pub enum DecodeError {
    /// A list grew past the configured list limit while limits are enforced.
    ListLimitExceeded {
        /// The configured list limit.
        limit: usize,
    },
    /// The parameter limit must be at least one.
    InvalidParameterLimit,
    /// Decoding dots in keys needs dot notation to be enabled.
    DecodeDotInKeysRequiresAllowDots,
    /// A string delimiter must not be empty.
    EmptyDelimiter,
    /// A key nests deeper than the configured depth while strict depth is on.
    DepthLimitExceeded {
        /// The configured depth.
        depth: usize,
    },
}

/// Errors reported while encoding.
#[derive(Clone, Debug, PartialEq, Eq, Structural)]
pub enum EncodeError {
    /// The pair delimiter must not be empty.
    EmptyDelimiter,
    /// Encoding dots in keys needs dot notation to be enabled.
    EncodeDotInKeysRequiresAllowDots,
}

} // verus!
