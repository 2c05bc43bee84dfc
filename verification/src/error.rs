//! The error type for operations on core domain types.

use vstd::prelude::*;

verus! {

/// Every way an operation on a core type can fail.
#[derive(Debug, Clone, PartialEq, Eq)]
#[non_exhaustive]
pub enum CoreError {
    /// A price was constructed from a negative scaled value.
    NegativePrice(i64),
    /// A quantity was constructed from a negative scaled value.
    NegativeQty(i64),
    /// A `Price * Qty` product did not fit, a notional sum overflowed, or a
    /// notional was built from a negative value.
    PrecisionOverflow,
    /// A notional was divided by a zero quantity.
    DivideByZeroQty,
    /// A ticker was longer than the fixed ticker width, in bytes.
    TickerTooLong { ticker: String, len: usize },
    /// A ticker held a byte outside `[A-Za-z0-9]`.
    TickerNotAscii { ticker: String },
    /// A ticker was empty.
    TickerEmpty,
}

} // verus!
