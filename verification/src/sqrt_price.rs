//! Uniswap V3 `sqrtPriceX96` fixed-point primitives.
//!
//! A pool stores `sqrt(price)` as Q64.96 fixed point: the real value times
//! `2^96`, truncated. Squaring it doubles the fractional bits to 192.

use vstd::prelude::*;
use vstd::arithmetic::power2::{lemma2_to64, lemma2_to64_rest, lemma_pow2_adds, pow2};

use crate::text::{lemma_pow10_add, pow10};

verus! {

/// Number of binary fractional bits in a Q64.96 fixed-point value.
pub const SQRT_PRICE_SHIFT: u32 = 96;

/// The Q64.96 scaling factor, `2^96`: the encoded `sqrtPriceX96` of a real
/// price of 1.
pub const Q96: u128 = 1u128 << SQRT_PRICE_SHIFT;

/// Number of binary fractional bits after squaring a `sqrtPriceX96`.
pub const PRICE_SHIFT: u32 = 2 * SQRT_PRICE_SHIFT;

/// [`Q96`] is `2^SQRT_PRICE_SHIFT`, its square is `2^PRICE_SHIFT`, and it
/// lies strictly between `10^28` and `10^29`: 96 fractional bits carry a
/// little under 29 decimal digits of resolution.
pub proof fn lemma_q96_shape()
    ensures
        Q96 == pow2(SQRT_PRICE_SHIFT as nat),
        PRICE_SHIFT == 2 * SQRT_PRICE_SHIFT,
        Q96 * Q96 == pow2(PRICE_SHIFT as nat),
        pow10(28) < Q96 < pow10(29),
{
    assert(Q96 == 79_228_162_514_264_337_593_543_950_336u128) by (bit_vector);
    lemma2_to64();
    lemma2_to64_rest();
    lemma_pow2_adds(64, 32);
    lemma_pow2_adds(96, 96);
    reveal_with_fuel(pow10, 11);
    assert(pow10(10) == 10_000_000_000nat);
    assert(pow10(9) == 1_000_000_000nat);
    assert(pow10(8) == 100_000_000nat);
    lemma_pow10_add(10, 10);
    lemma_pow10_add(20, 8);
    lemma_pow10_add(20, 9);
}

} // verus!
