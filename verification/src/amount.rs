//! Fixed-point prices, quantities and notionals.
//!
//! Prices and quantities are integer counts of `10^-12` units held in an
//! `i64`; a `Price * Qty` product widens to an `i128` notional at twice the
//! scale, and a notional divided by a quantity lands back at price scale.

use vstd::prelude::*;
use vstd::arithmetic::div_mod::{
    lemma_div_by_multiple, lemma_div_is_ordered, lemma_div_multiples_vanish, lemma_fundamental_div_mod,
};

use crate::error::CoreError;
use crate::text::{fmt_scaled, lemma_pow10_add, pow10, scaled_text};

verus! {

/// Decimal places carried by every [`Price`] and [`Qty`].
pub const SCALE: u32 = 12;

/// `10^SCALE`: one whole unit of price or quantity, in scaled form.
pub const SCALE_FACTOR: i64 = 1_000_000_000_000;

/// Decimal places carried by a [`Notional`]: twice [`SCALE`].
pub const NOTIONAL_SCALE: u32 = 2 * SCALE;

/// `10^NOTIONAL_SCALE`: one whole unit of notional, in scaled form.
pub const NOTIONAL_SCALE_FACTOR: i128 = 1_000_000_000_000_000_000_000_000;

/// A price, as a non-negative integer count of `10^-12` quote units.
#[derive(Clone, Copy, PartialEq, Eq, Structural, PartialOrd, Ord, Hash, Debug)]
pub struct Price(i64);

impl View for Price {
    type V = int;

    closed spec fn view(&self) -> int {
        self.0 as int
    }
}

impl Price {
    #[verifier::type_invariant]
    spec fn non_negative(self) -> bool {
        self.0 >= 0
    }

    /// The zero price, useful as a fold identity rather than a real book level.
    pub fn zero() -> (r: Price)
        ensures
            r@ == 0,
    {
        Price(0)
    }

    /// Builds a price from an already-scaled integer; negative values are
    /// rejected.
    pub fn from_scaled(scaled: i64) -> (r: Result<Price, CoreError>)
        ensures
            scaled < 0 ==> r == Err::<Price, CoreError>(CoreError::NegativePrice(scaled)),
            scaled >= 0 ==> (r matches Ok(p) && p@ == scaled),
    {
        if scaled < 0 {
            return Err(CoreError::NegativePrice(scaled));
        }
        Ok(Price(scaled))
    }

    /// The underlying scaled integer, at [`SCALE`] decimal places.
    pub fn scaled(self) -> (r: i64)
        ensures
            r == self@,
            r >= 0,
    {
        proof {
            use_type_invariant(&self);
        }
        self.0
    }

    /// True if this is the zero price.
    pub fn is_zero(self) -> (r: bool)
        ensures
            r == (self@ == 0),
    {
        self.0 == 0
    }

    /// The gap between two prices, as a non-negative price-shaped value.
    pub fn abs_diff(self, other: Price) -> (r: Price)
        ensures
            r@ == abs_int(self@ - other@),
            self@ >= other@ ==> other@ + r@ == self@,
            self@ < other@ ==> self@ + r@ == other@,
    {
        proof {
            use_type_invariant(&self);
            use_type_invariant(&other);
        }
        if self.0 >= other.0 {
            Price(self.0 - other.0)
        } else {
            Price(other.0 - self.0)
        }
    }

    /// `self * qty`, widened to an `i128` notional at [`NOTIONAL_SCALE`].
    ///
    /// The product of two non-negative `i64` values always fits an `i128`,
    /// so this never fails; the overflow check stays so that a wraparound
    /// can never happen silently.
    pub fn notional(self, qty: Qty) -> (r: Result<Notional, CoreError>)
        ensures
            r matches Ok(n) && n@ == self@ * qty@,
    {
        proof {
            use_type_invariant(&self);
        }
        let q = qty.scaled();
        let a = self.0 as i128;
        let b = q as i128;
        proof {
            lemma_product_fits_i128(a as int, b as int);
        }
        match a.checked_mul(b) {
            Some(product) => Ok(Notional(product)),
            None => Err(CoreError::PrecisionOverflow),
        }
    }

    /// The value as decimal text, with trailing fractional zeros trimmed
    /// (`100000`, `0.5`, `0.000000000001`).
    pub fn to_string(&self) -> (s: String)
        ensures
            s@ == scaled_text(self@ as nat, SCALE as nat),
    {
        proof {
            use_type_invariant(self);
        }
        fmt_scaled(self.0 as i128, SCALE)
    }

    /// The value as `Price(<decimal text>)`, the form used in logs.
    pub fn debug_text(&self) -> (s: String)
        ensures
            s@ == "Price("@ + scaled_text(self@ as nat, SCALE as nat) + ")"@,
    {
        let mut s = String::from_str("Price(");
        let text = self.to_string();
        s.append(text.as_str());
        s.append(")");
        s
    }
}

/// A resting quantity, as a non-negative integer count of `10^-12` base
/// units. A zero quantity at a level means the level is deleted.
#[derive(Clone, Copy, PartialEq, Eq, Structural, PartialOrd, Ord, Hash, Debug)]
pub struct Qty(i64);

impl View for Qty {
    type V = int;

    closed spec fn view(&self) -> int {
        self.0 as int
    }
}

impl Qty {
    #[verifier::type_invariant]
    spec fn non_negative(self) -> bool {
        self.0 >= 0
    }

    /// The zero quantity, which by venue convention means a deleted level.
    pub fn zero() -> (r: Qty)
        ensures
            r@ == 0,
    {
        Qty(0)
    }

    /// Builds a quantity from an already-scaled integer; negative values are
    /// rejected.
    pub fn from_scaled(scaled: i64) -> (r: Result<Qty, CoreError>)
        ensures
            scaled < 0 ==> r == Err::<Qty, CoreError>(CoreError::NegativeQty(scaled)),
            scaled >= 0 ==> (r matches Ok(q) && q@ == scaled),
    {
        if scaled < 0 {
            return Err(CoreError::NegativeQty(scaled));
        }
        Ok(Qty(scaled))
    }

    /// The underlying scaled integer, at [`SCALE`] decimal places.
    pub fn scaled(self) -> (r: i64)
        ensures
            r == self@,
            r >= 0,
    {
        proof {
            use_type_invariant(&self);
        }
        self.0
    }

    /// True if this level is empty, which venues use to mean "delete".
    pub fn is_zero(self) -> (r: bool)
        ensures
            r == (self@ == 0),
    {
        self.0 == 0
    }

    /// `self + rhs`; fails when the sum leaves `i64`.
    pub fn checked_add(self, rhs: Qty) -> (r: Result<Qty, CoreError>)
        ensures
            qty_add_outcome(self, rhs, r),
            self@ + rhs@ > i64::MAX ==> r == Err::<Qty, CoreError>(CoreError::PrecisionOverflow),
            self@ + rhs@ <= i64::MAX ==> (r matches Ok(q) && q@ == self@ + rhs@),
    {
        proof {
            use_type_invariant(&self);
            use_type_invariant(&rhs);
        }
        match self.0.checked_add(rhs.0) {
            Some(sum) => Ok(Qty(sum)),
            None => Err(CoreError::PrecisionOverflow),
        }
    }

    /// `self - rhs`; fails with the negative difference when `rhs` exceeds
    /// `self`.
    pub fn checked_sub(self, rhs: Qty) -> (r: Result<Qty, CoreError>)
        ensures
            qty_sub_outcome(self, rhs, r),
            self@ < rhs@ ==> r == Err::<Qty, CoreError>(
                CoreError::NegativeQty((self@ - rhs@) as i64),
            ),
            self@ >= rhs@ ==> (r matches Ok(q) && q@ + rhs@ == self@),
    {
        proof {
            use_type_invariant(&self);
            use_type_invariant(&rhs);
        }
        let raw = match self.0.checked_sub(rhs.0) {
            Some(d) => d,
            None => return Err(CoreError::PrecisionOverflow),
        };
        Qty::from_scaled(raw)
    }

    /// The value as decimal text, with trailing fractional zeros trimmed
    /// (`100000`, `0.5`, `0.000000000001`).
    pub fn to_string(&self) -> (s: String)
        ensures
            s@ == scaled_text(self@ as nat, SCALE as nat),
    {
        proof {
            use_type_invariant(self);
        }
        fmt_scaled(self.0 as i128, SCALE)
    }

    /// The value as `Qty(<decimal text>)`, the form used in logs.
    pub fn debug_text(&self) -> (s: String)
        ensures
            s@ == "Qty("@ + scaled_text(self@ as nat, SCALE as nat) + ")"@,
    {
        let mut s = String::from_str("Qty(");
        let text = self.to_string();
        s.append(text.as_str());
        s.append(")");
        s
    }
}

/// The value of a level or a fill, `Price * Qty`, as a non-negative integer
/// at [`NOTIONAL_SCALE`] decimal places.
#[derive(Clone, Copy, PartialEq, Eq, Structural, PartialOrd, Ord, Hash, Debug)]
pub struct Notional(i128);

impl View for Notional {
    type V = int;

    closed spec fn view(&self) -> int {
        self.0 as int
    }
}

impl Notional {
    #[verifier::type_invariant]
    spec fn non_negative(self) -> bool {
        self.0 >= 0
    }

    /// The zero notional, the identity when folding levels.
    pub fn zero() -> (r: Notional)
        ensures
            r@ == 0,
    {
        Notional(0)
    }

    /// Builds a notional from an already-scaled `i128`; a negative value is
    /// rejected as [`CoreError::PrecisionOverflow`].
    pub fn from_scaled(scaled: i128) -> (r: Result<Notional, CoreError>)
        ensures
            scaled < 0 ==> r == Err::<Notional, CoreError>(CoreError::PrecisionOverflow),
            scaled >= 0 ==> (r matches Ok(n) && n@ == scaled),
    {
        if scaled < 0 {
            return Err(CoreError::PrecisionOverflow);
        }
        Ok(Notional(scaled))
    }

    /// The underlying scaled integer, at [`NOTIONAL_SCALE`] decimal places.
    pub fn scaled(self) -> (r: i128)
        ensures
            r == self@,
            r >= 0,
    {
        proof {
            use_type_invariant(&self);
        }
        self.0
    }

    /// `self + rhs`, for aggregating levels; fails when the sum leaves
    /// `i128`.
    pub fn checked_add(self, rhs: Notional) -> (r: Result<Notional, CoreError>)
        ensures
            self@ + rhs@ > i128::MAX ==> r == Err::<Notional, CoreError>(
                CoreError::PrecisionOverflow,
            ),
            self@ + rhs@ <= i128::MAX ==> (r matches Ok(n) && n@ == self@ + rhs@),
    {
        proof {
            use_type_invariant(&self);
            use_type_invariant(&rhs);
        }
        match self.0.checked_add(rhs.0) {
            Some(sum) => Ok(Notional(sum)),
            None => Err(CoreError::PrecisionOverflow),
        }
    }

    /// Volume-weighted average price: `self / qty`, truncated, back at
    /// [`SCALE`].
    pub fn vwap(self, qty: Qty) -> (r: Result<Price, CoreError>)
        ensures
            vwap_outcome(self, qty, r),
            qty@ == 0 ==> r == Err::<Price, CoreError>(CoreError::DivideByZeroQty),
            qty@ > 0 && self@ >= (i64::MAX + 1) * qty@ ==> r == Err::<Price, CoreError>(
                CoreError::PrecisionOverflow,
            ),
            qty@ > 0 && self@ < (i64::MAX + 1) * qty@ ==> (r matches Ok(p) && qty@ * p@ <= self@
                < qty@ * (p@ + 1)),
    {
        proof {
            use_type_invariant(&self);
        }
        if qty.is_zero() {
            return Err(CoreError::DivideByZeroQty);
        }
        let q = qty.scaled();
        proof {
            lemma_floor_quotient(self@, qty@);
        }
        let quotient = self.0 / (q as i128);
        if quotient > (i64::MAX as i128) {
            return Err(CoreError::PrecisionOverflow);
        }
        let narrowed = quotient as i64;
        Price::from_scaled(narrowed)
    }

    /// The value as decimal text, with trailing fractional zeros trimmed
    /// (`100000`, `0.5`, `0.000000000001`).
    pub fn to_string(&self) -> (s: String)
        ensures
            s@ == scaled_text(self@ as nat, NOTIONAL_SCALE as nat),
    {
        proof {
            use_type_invariant(self);
        }
        fmt_scaled(self.0, NOTIONAL_SCALE)
    }

    /// The value as `Notional(<decimal text>)`, the form used in logs.
    pub fn debug_text(&self) -> (s: String)
        ensures
            s@ == "Notional("@ + scaled_text(self@ as nat, NOTIONAL_SCALE as nat) + ")"@,
    {
        let mut s = String::from_str("Notional(");
        let text = self.to_string();
        s.append(text.as_str());
        s.append(")");
        s
    }
}

/// The absolute value of an integer.
pub open spec fn abs_int(x: int) -> int {
    if x >= 0 {
        x
    } else {
        -x
    }
}

/// The product of two values in `[0, i64::MAX]` fits an `i128`.
proof fn lemma_product_fits_i128(a: int, b: int)
    requires
        0 <= a <= i64::MAX,
        0 <= b <= i64::MAX,
    ensures
        0 <= a * b <= i128::MAX,
{
    assert(0 <= a * b <= i64::MAX * i64::MAX) by (nonlinear_arith)
        requires
            0 <= a <= i64::MAX,
            0 <= b <= i64::MAX,
    ;
}

/// The summed notional of a set of book levels, `sum(price * qty)`.
pub open spec fn total_notional(levels: Seq<(Price, Qty)>) -> int
    decreases levels.len(),
{
    if levels.len() == 0 {
        0
    } else {
        total_notional(levels.drop_last()) + levels.last().0@ * levels.last().1@
    }
}

/// The summed quantity of a set of book levels.
pub open spec fn total_qty(levels: Seq<(Price, Qty)>) -> int
    decreases levels.len(),
{
    if levels.len() == 0 {
        0
    } else {
        total_qty(levels.drop_last()) + levels.last().1@
    }
}

/// [`SCALE_FACTOR`] is `10^SCALE`, [`NOTIONAL_SCALE_FACTOR`] is
/// `10^NOTIONAL_SCALE`, and the notional factor is the square of the price
/// and quantity factor, so `Price * Qty` lands exactly at notional scale.
pub proof fn lemma_scale_factors()
    ensures
        SCALE_FACTOR == pow10(SCALE as nat),
        NOTIONAL_SCALE_FACTOR == pow10(NOTIONAL_SCALE as nat),
        NOTIONAL_SCALE_FACTOR == SCALE_FACTOR * SCALE_FACTOR,
{
    reveal_with_fuel(pow10, 13);
    assert(pow10(12) == 1_000_000_000_000nat);
    lemma_pow10_add(12, 12);
}

/// What [`Qty::checked_add`] returns for `a + b`.
pub open spec fn qty_add_outcome(a: Qty, b: Qty, r: Result<Qty, CoreError>) -> bool {
    if a@ + b@ > i64::MAX {
        r == Err::<Qty, CoreError>(CoreError::PrecisionOverflow)
    } else {
        r matches Ok(q) && q@ == a@ + b@
    }
}

/// What [`Qty::checked_sub`] returns for `a - b`.
pub open spec fn qty_sub_outcome(a: Qty, b: Qty, r: Result<Qty, CoreError>) -> bool {
    if a@ < b@ {
        r == Err::<Qty, CoreError>(CoreError::NegativeQty((a@ - b@) as i64))
    } else {
        r matches Ok(q) && q@ == a@ - b@
    }
}

/// What [`Notional::vwap`] returns for `n / q`.
pub open spec fn vwap_outcome(n: Notional, q: Qty, r: Result<Price, CoreError>) -> bool {
    if q@ == 0 {
        r == Err::<Price, CoreError>(CoreError::DivideByZeroQty)
    } else if n@ / q@ > i64::MAX {
        r == Err::<Price, CoreError>(CoreError::PrecisionOverflow)
    } else {
        r matches Ok(p) && p@ == n@ / q@
    }
}

/// Prices with equal values are equal.
pub proof fn lemma_price_view_injective(a: Price, b: Price)
    requires
        a@ == b@,
    ensures
        a == b,
{
}

/// Quantities with equal values are equal.
pub proof fn lemma_qty_view_injective(a: Qty, b: Qty)
    requires
        a@ == b@,
    ensures
        a == b,
{
}

/// Notionals with equal values are equal.
pub proof fn lemma_notional_view_injective(a: Notional, b: Notional)
    requires
        a@ == b@,
    ensures
        a == b,
{
}

/// The gap between two prices does not depend on their order:
/// `a.abs_diff(b)` and `b.abs_diff(a)` are the same price.
pub proof fn lemma_abs_diff_symmetric(a: Price, b: Price, ab: Price, ba: Price)
    requires
        ab@ == abs_int(a@ - b@),
        ba@ == abs_int(b@ - a@),
    ensures
        ab == ba,
{
}

/// `vwap` inverts `notional`: dividing the notional of a level by its
/// non-zero quantity gives back exactly the level's price.
pub proof fn lemma_vwap_inverts_notional(
    p: Price,
    q: Qty,
    n: Notional,
    r: Result<Price, CoreError>,
)
    requires
        p@ >= 0,
        q@ > 0,
        n@ == p@ * q@,
        vwap_outcome(n, q, r),
    ensures
        r == Ok::<Price, CoreError>(p),
{
    lemma_div_by_multiple(p@, q@);
    assert(p@ <= i64::MAX);
    lemma_price_view_injective(r->Ok_0, p);
}

/// Adding a quantity and then subtracting it again gives back the start:
/// when `a.checked_add(b)` is `Ok(s)`, `s.checked_sub(b)` is `Ok(a)`.
pub proof fn lemma_qty_add_then_sub(a: Qty, b: Qty, s: Qty, r: Result<Qty, CoreError>)
    requires
        a@ >= 0,
        qty_add_outcome(a, b, Ok(s)),
        qty_sub_outcome(s, b, r),
    ensures
        r == Ok::<Qty, CoreError>(a),
{
    lemma_qty_view_injective(r->Ok_0, a);
}

/// The spread between two prices is their plain distance: added to the
/// lower price it gives the higher one, whatever the gap.
pub proof fn lemma_abs_diff_is_distance(a: Price, b: Price, r: Price)
    requires
        r@ == abs_int(a@ - b@),
    ensures
        r@ >= 0,
        a@ >= b@ ==> b@ + r@ == a@,
        a@ < b@ ==> a@ + r@ == b@,
{
}

/// A sum of quantities fails exactly when it leaves `i64`; otherwise it is
/// the plain sum.
pub proof fn lemma_qty_add_exact(a: Qty, b: Qty, r: Result<Qty, CoreError>)
    requires
        qty_add_outcome(a, b, r),
    ensures
        a@ + b@ <= 9_223_372_036_854_775_807 ==> (r matches Ok(q) && q@ == a@ + b@),
        a@ + b@ > 9_223_372_036_854_775_807 ==> r == Err::<Qty, CoreError>(
            CoreError::PrecisionOverflow,
        ),
{
}

/// A difference of quantities fails exactly when it would go below zero,
/// and then reports the negative difference; otherwise adding `b` back to
/// it gives `a`.
pub proof fn lemma_qty_sub_exact(a: Qty, b: Qty, r: Result<Qty, CoreError>)
    requires
        qty_sub_outcome(a, b, r),
    ensures
        a@ >= b@ ==> (r matches Ok(q) && q@ + b@ == a@),
        a@ < b@ ==> r == Err::<Qty, CoreError>(CoreError::NegativeQty((a@ - b@) as i64)),
{
}

/// VWAP is the truncated quotient, whatever the remainder: for a positive
/// quantity `q` and a notional `n` below `(i64::MAX + 1) * q` the result is
/// the price `p` with `q * p <= n < q * (p + 1)`; the only failures are a
/// zero quantity and a quotient past `i64::MAX`.
pub proof fn lemma_vwap_is_floor_quotient(n: Notional, q: Qty, r: Result<Price, CoreError>)
    requires
        n@ >= 0,
        vwap_outcome(n, q, r),
    ensures
        q@ == 0 ==> r == Err::<Price, CoreError>(CoreError::DivideByZeroQty),
        q@ > 0 && n@ < (9_223_372_036_854_775_807 + 1) * q@ ==> (r matches Ok(p) && q@ * p@
            <= n@ < q@ * (p@ + 1)),
        q@ > 0 && n@ >= (9_223_372_036_854_775_807 + 1) * q@ ==> r == Err::<Price, CoreError>(
            CoreError::PrecisionOverflow,
        ),
{
    if q@ > 0 {
        lemma_floor_quotient(n@, q@);
    }
}

/// `n / q` is the floor quotient, and it fits `i64` exactly when `n` is
/// below `(i64::MAX + 1) * q`.
proof fn lemma_floor_quotient(n: int, q: int)
    requires
        n >= 0,
        q > 0,
    ensures
        q * (n / q) <= n < q * (n / q + 1),
        n / q <= i64::MAX <==> n < (i64::MAX + 1) * q,
{
    lemma_fundamental_div_mod(n, q);
    let d = n / q;
    assert(q * (d + 1) == q * d + q) by (nonlinear_arith);
    if d <= i64::MAX {
        assert(q * (d + 1) <= q * (i64::MAX + 1)) by (nonlinear_arith)
            requires
                d <= i64::MAX,
                q > 0,
        ;
        assert((i64::MAX + 1) * q == q * (i64::MAX + 1)) by (nonlinear_arith);
    } else {
        assert(q * d >= q * (i64::MAX + 1)) by (nonlinear_arith)
            requires
                d >= i64::MAX + 1,
                q > 0,
        ;
        assert((i64::MAX + 1) * q == q * (i64::MAX + 1)) by (nonlinear_arith);
    }
}

/// A sum of notionals fails exactly when it leaves `i128`; otherwise it is
/// the plain sum.
pub proof fn lemma_notional_add_exact(a: Notional, b: Notional, r: Result<Notional, CoreError>)
    requires
        a@ + b@ > i128::MAX ==> r == Err::<Notional, CoreError>(CoreError::PrecisionOverflow),
        a@ + b@ <= i128::MAX ==> (r matches Ok(n) && n@ == a@ + b@),
    ensures
        a@ + b@ <= 170_141_183_460_469_231_731_687_303_715_884_105_727 ==> (r matches Ok(n) && n@
            == a@ + b@),
{
}

/// The volume-weighted average price of a set of levels lies within the
/// range of their prices: when every level's price is in `[lo, hi]` and
/// the total quantity is positive, `total_notional / total_qty` is in
/// `[lo, hi]` too.
pub proof fn lemma_vwap_within_price_range(levels: Seq<(Price, Qty)>, lo: int, hi: int)
    requires
        forall|i: int| 0 <= i < levels.len() ==> lo <= (#[trigger] levels[i]).0@ <= hi,
        forall|i: int| 0 <= i < levels.len() ==> (#[trigger] levels[i]).1@ >= 0,
        total_qty(levels) > 0,
    ensures
        lo <= total_notional(levels) / total_qty(levels) <= hi,
{
    lemma_totals_bounded(levels, lo, hi);
    let n = total_notional(levels);
    let q = total_qty(levels);
    lemma_div_multiples_vanish(lo, q);
    lemma_div_multiples_vanish(hi, q);
    assert(q * lo == lo * q && q * hi == hi * q) by (nonlinear_arith);
    lemma_div_is_ordered(q * lo, n, q);
    lemma_div_is_ordered(n, q * hi, q);
}

/// `lo * total_qty <= total_notional <= hi * total_qty` for levels priced
/// within `[lo, hi]`.
proof fn lemma_totals_bounded(levels: Seq<(Price, Qty)>, lo: int, hi: int)
    requires
        forall|i: int| 0 <= i < levels.len() ==> lo <= (#[trigger] levels[i]).0@ <= hi,
        forall|i: int| 0 <= i < levels.len() ==> (#[trigger] levels[i]).1@ >= 0,
    ensures
        total_qty(levels) >= 0,
        lo * total_qty(levels) <= total_notional(levels) <= hi * total_qty(levels),
    decreases levels.len(),
{
    if levels.len() > 0 {
        let rest = levels.drop_last();
        assert forall|i: int| 0 <= i < rest.len() implies lo <= (#[trigger] rest[i]).0@ <= hi
            && rest[i].1@ >= 0 by {
            assert(rest[i] == levels[i]);
        }
        lemma_totals_bounded(rest, lo, hi);
        let p = levels.last().0@;
        let w = levels.last().1@;
        let qr = total_qty(rest);
        let nr = total_notional(rest);
        assert(lo <= p <= hi && w >= 0);
        assert(lo * w <= p * w <= hi * w) by (nonlinear_arith)
            requires
                lo <= p <= hi,
                w >= 0,
        ;
        assert(lo * (qr + w) == lo * qr + lo * w) by (nonlinear_arith);
        assert(hi * (qr + w) == hi * qr + hi * w) by (nonlinear_arith);
    }
}

} // verus!
