//! Shared domain types for a multi-venue order-book aggregator: fixed-point
//! prices, quantities and notionals, and venue-agnostic instrument identity.

pub mod amount;
pub mod error;
pub mod sqrt_price;
pub mod symbol;
pub mod text;

pub use amount::{Notional, Price, Qty, NOTIONAL_SCALE, NOTIONAL_SCALE_FACTOR, SCALE, SCALE_FACTOR};
pub use error::CoreError;
pub use symbol::{Symbol, Ticker, MAX_TICKER_LEN};
pub use sqrt_price::{PRICE_SHIFT, Q96, SQRT_PRICE_SHIFT};
