use meridian_core::{PRICE_SHIFT, Q96, SQRT_PRICE_SHIFT};

#[test]
fn q96_matches_shift() {
    let computed = 2u128.pow(SQRT_PRICE_SHIFT);
    println!("SQRT_PRICE_SHIFT = {}", SQRT_PRICE_SHIFT);
    println!("Q96              = {}", Q96);
    println!("2^SHIFT          = {}", computed);
    assert_eq!(Q96, computed);
}

#[test]
fn fractional_precision_is_at_least_28_decimal_digits() {
    let lower = 10u128.pow(28);
    let upper_proxy = u128::MAX / 10;
    println!("lower bound (10^28) = {}", lower);
    println!("Q96                 = {}", Q96);
    println!("upper proxy (MAX/10)= {}", upper_proxy);
    println!("Q96 > 10^28 ? {}", Q96 > lower);
    println!("Q96 < MAX/10 ? {}", Q96 < upper_proxy);
    assert!(lower < Q96);
    assert!(Q96 < upper_proxy);
}

#[test]
fn q96_matches_uniswap_reference_value() {
    let reference = 79_228_162_514_264_337_593_543_950_336u128;
    println!("Q96       = {}", Q96);
    println!("reference = {}", reference);
    println!("delta     = {}", Q96.abs_diff(reference));
    assert_eq!(Q96, reference);
}

#[test]
fn q96_prints_as_29_decimal_digits() {
    let s = Q96.to_string();
    println!("Q96 as string = {}", s);
    println!("length        = {}", s.len());
    assert_eq!(s.len(), 29);
}

#[test]
fn shift_round_trips_small_integers() {
    for v in [0u128, 1, 2, 1_000, u32::MAX as u128] {
        let shifted = v << SQRT_PRICE_SHIFT;
        let recovered = shifted >> SQRT_PRICE_SHIFT;
        println!(
            "v = {:>10}   shifted = {:>40}   recovered = {:>10}",
            v, shifted, recovered
        );
        assert_eq!(recovered, v);
    }
}

#[test]
fn price_shift_doubles_the_sqrt_shift() {
    assert_eq!(PRICE_SHIFT, 192);
    assert_eq!(PRICE_SHIFT, 2 * SQRT_PRICE_SHIFT);
}
