# meridian_core

Core domain types for a multi-venue order-book aggregator, written in Verus
with their behaviour stated in contracts and proved.

- `src/amount.rs`: `Price`, `Qty` (scaled `i64`, 12 decimal places) and
  `Notional` (scaled `i128`, 24 decimal places), with checked arithmetic,
  VWAP, and the laws that tie them together (VWAP inverts a notional, VWAP
  of a set of levels stays within their price range, ...).
- `src/symbol.rs`: `Ticker` (fixed-width uppercase ASCII) and `Symbol`,
  with parsing that rejects rather than truncates, and the case-folding and
  round-trip laws.
- `src/text.rs`: decimal rendering of scaled integers.
- `src/sqrt_price.rs`: Uniswap V3 Q64.96 shift constants.
- `app/lib.rs`: serde, `Display`/`Debug` and `std::error::Error` wrappers of
  the core types, and the 256-bit `sqrtPriceX96` bounds built with `alloy`.
