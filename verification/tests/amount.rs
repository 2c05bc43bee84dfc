use meridian_core::{CoreError, Notional, Price, Qty, NOTIONAL_SCALE_FACTOR, SCALE, SCALE_FACTOR};

/// Builds a price from whole quote units, for readable test setup.
fn price(whole: i64) -> Price {
    Price::from_scaled(whole * SCALE_FACTOR).expect("non-negative")
}

/// Builds a quantity from whole base units, for readable test setup.
fn qty(whole: i64) -> Qty {
    Qty::from_scaled(whole * SCALE_FACTOR).expect("non-negative")
}

#[test]
fn negative_price_is_rejected() {
    assert_eq!(Price::from_scaled(-1), Err(CoreError::NegativePrice(-1)));
}

#[test]
fn negative_qty_is_rejected() {
    assert_eq!(Qty::from_scaled(-1), Err(CoreError::NegativeQty(-1)));
}

#[test]
fn zero_qty_marks_a_deleted_level() {
    assert!(Qty::zero().is_zero());
    assert!(!qty(1).is_zero());
}

#[test]
fn notional_composes_the_two_scales() {
    let n = price(100_000).notional(qty(2)).expect("fits i128");
    assert_eq!(n.scaled(), 200_000 * NOTIONAL_SCALE_FACTOR);
    assert_eq!(n.to_string(), "200000");
}

#[test]
fn vwap_inverts_notional() {
    let n = price(100_000).notional(qty(2)).expect("fits i128");
    assert_eq!(n.vwap(qty(2)), Ok(price(100_000)));
}

#[test]
fn vwap_over_multiple_levels_is_weighted() {
    let levels = [(price(100), qty(2)), (price(200), qty(3))];

    let mut total_notional = Notional::zero();
    let mut total_qty = Qty::zero();
    for (p, q) in levels {
        total_notional = total_notional
            .checked_add(p.notional(q).expect("fits i128"))
            .expect("fits i128");
        total_qty = total_qty.checked_add(q).expect("fits i64");
    }

    assert_eq!(total_notional.vwap(total_qty), Ok(price(160)));
}

#[test]
fn vwap_of_a_fully_deleted_book_is_a_typed_error() {
    assert_eq!(
        Notional::zero().vwap(Qty::zero()),
        Err(CoreError::DivideByZeroQty)
    );
}

#[test]
fn notional_sum_overflow_is_typed_not_a_wraparound() {
    let max = Notional::from_scaled(i128::MAX).expect("non-negative");
    let one = Notional::from_scaled(1).expect("non-negative");
    assert_eq!(max.checked_add(one), Err(CoreError::PrecisionOverflow));
}

#[test]
fn qty_adds_and_subtracts() {
    assert_eq!(qty(3).checked_add(qty(4)), Ok(qty(7)));
    assert_eq!(qty(7).checked_sub(qty(4)), Ok(qty(3)));
}

#[test]
fn qty_cannot_be_subtracted_below_zero() {
    let err = qty(1).checked_sub(qty(2)).expect_err("goes negative");
    assert!(matches!(err, CoreError::NegativeQty(_)));
}

#[test]
fn display_trims_trailing_zeros() {
    assert_eq!(price(100_000).to_string(), "100000");
    assert_eq!(
        Price::from_scaled(SCALE_FACTOR / 2)
            .expect("non-negative")
            .to_string(),
        "0.5"
    );
    assert_eq!(
        Price::from_scaled(1).expect("non-negative").to_string(),
        "0.000000000001"
    );
}

#[test]
fn debug_renders_decimal_text_not_the_scaled_integer() {
    assert_eq!(price(100_000).debug_text(), "Price(100000)");
}

#[test]
fn prices_order_numerically() {
    let mut sorted = [price(3), price(1), price(2)];
    sorted.sort();
    assert_eq!(sorted, [price(1), price(2), price(3)]);
}

#[test]
fn abs_diff_is_symmetric() {
    assert_eq!(price(10).abs_diff(price(4)), price(6));
    assert_eq!(price(4).abs_diff(price(10)), price(6));
}

#[test]
fn qty_ceiling_at_scale_12_excludes_high_supply_tokens() {
    let max_whole_units = i64::MAX / SCALE_FACTOR;
    println!("max representable Qty at scale {SCALE} = {max_whole_units} whole units");
    assert_eq!(max_whole_units, 9_223_372);

    let pepe_level: i64 = 10_000_000_000_000;
    assert_eq!(pepe_level.checked_mul(SCALE_FACTOR), None);

    let shib_level: i64 = 1_000_000_000_000;
    assert_eq!(shib_level.checked_mul(SCALE_FACTOR), None);

    assert!(Qty::from_scaled(9_000_000 * SCALE_FACTOR).is_ok());
}

// Further cases of the contracts, on concrete values.

#[test]
fn scale_factors_are_consistent() {
    assert_eq!(SCALE_FACTOR, 10i64.pow(SCALE));
    assert_eq!(NOTIONAL_SCALE_FACTOR, 10i128.pow(meridian_core::NOTIONAL_SCALE));
    assert_eq!(NOTIONAL_SCALE_FACTOR, (SCALE_FACTOR as i128) * (SCALE_FACTOR as i128));
}

#[test]
fn negative_notional_is_rejected_as_precision_overflow() {
    assert_eq!(Notional::from_scaled(-1), Err(CoreError::PrecisionOverflow));
}

#[test]
fn scaled_round_trips_through_from_scaled() {
    assert_eq!(Price::from_scaled(42).expect("ok").scaled(), 42);
    assert_eq!(Qty::from_scaled(0).expect("ok").scaled(), 0);
    assert_eq!(Notional::from_scaled(7).expect("ok").scaled(), 7);
}

#[test]
fn price_zero_is_zero() {
    assert!(Price::zero().is_zero());
    assert!(!price(1).is_zero());
    assert_eq!(Price::zero().scaled(), 0);
}

#[test]
fn qty_add_overflow_is_typed() {
    let max = Qty::from_scaled(i64::MAX).expect("ok");
    let tiny = Qty::from_scaled(1).expect("ok");
    assert_eq!(max.checked_add(tiny), Err(CoreError::PrecisionOverflow));
}

#[test]
fn qty_sub_below_zero_reports_the_negative_difference() {
    assert_eq!(
        Qty::from_scaled(5).expect("ok").checked_sub(Qty::from_scaled(8).expect("ok")),
        Err(CoreError::NegativeQty(-3))
    );
}

#[test]
fn qty_add_then_sub_gives_back_the_start() {
    let a = Qty::from_scaled(123_456).expect("ok");
    let b = Qty::from_scaled(789).expect("ok");
    let sum = a.checked_add(b).expect("fits");
    assert_eq!(sum.checked_sub(b), Ok(a));
}

#[test]
fn largest_notional_fits_i128() {
    let p = Price::from_scaled(i64::MAX).expect("ok");
    let q = Qty::from_scaled(i64::MAX).expect("ok");
    let n = p.notional(q).expect("always fits");
    assert_eq!(n.scaled(), (i64::MAX as i128) * (i64::MAX as i128));
    assert_eq!(n.vwap(q), Ok(p));
}

#[test]
fn vwap_quotient_past_i64_is_precision_overflow() {
    let n = Notional::from_scaled(i128::MAX).expect("ok");
    let q = Qty::from_scaled(1).expect("ok");
    assert_eq!(n.vwap(q), Err(CoreError::PrecisionOverflow));
}

#[test]
fn vwap_truncates_toward_zero() {
    let n = Notional::from_scaled(10).expect("ok");
    let q = Qty::from_scaled(3).expect("ok");
    assert_eq!(n.vwap(q), Price::from_scaled(3));
}

#[test]
fn vwap_stays_within_the_level_price_range() {
    let levels = [(price(90), qty(1)), (price(110), qty(7)), (price(100), Qty::zero())];
    let mut total_notional = Notional::zero();
    let mut total_qty = Qty::zero();
    for (p, q) in levels {
        total_notional = total_notional.checked_add(p.notional(q).expect("fits")).expect("fits");
        total_qty = total_qty.checked_add(q).expect("fits");
    }
    let v = total_notional.vwap(total_qty).expect("non-zero qty");
    assert!(v.scaled() >= price(90).scaled());
    assert!(v.scaled() <= price(110).scaled());
    assert_eq!(v, Price::from_scaled(107_500_000_000_000).expect("ok"));
}

#[test]
fn qty_and_notional_text() {
    assert_eq!(Qty::from_scaled(1_500_000_000_000).expect("ok").to_string(), "1.5");
    assert_eq!(Qty::from_scaled(1_500_000_000_000).expect("ok").debug_text(), "Qty(1.5)");
    assert_eq!(Qty::zero().to_string(), "0");
    assert_eq!(Notional::from_scaled(1).expect("ok").to_string(), "0.000000000000000000000001");
    let n = Notional::from_scaled(25 * NOTIONAL_SCALE_FACTOR / 10).expect("ok");
    assert_eq!(n.debug_text(), "Notional(2.5)");
    assert_eq!(Price::from_scaled(120_034_000_000_000).expect("ok").to_string(), "120.034");
    assert_eq!(Price::from_scaled(i64::MAX).expect("ok").to_string(), "9223372.036854775807");
}
