use tabular::interest::{pow_checked, Fraction, Intrest};

fn as_f64(f: &Fraction) -> f64 {
    (f.num as f64) / (f.den as f64)
}

#[test]
fn simple_interest_exact() {
    // 10000 at 7.25% over 4 years: 10000 * 7.25 * 4 / 100 = 2900
    let i = Intrest { principal: 10000, rate: 725, time: 4, period: None };
    let f = i.simple_interest();
    assert_eq!(f.num, 10000 * 725 * 4);
    assert_eq!(f.den, 10000);
    assert!((as_f64(&f) - 2900.0).abs() < 1e-9);
}

#[test]
fn compound_interest_matches_formula() {
    // 10000*(1 + 0.0725/2)^(4*2) - 10000, within ~1e-3 relative
    let i = Intrest { principal: 10000, rate: 725, time: 4, period: Some(2) };
    let f = i.compound_interest().unwrap();
    let expected = 10000.0f64 * ((1.0f64 + 0.0725f64 / 2.0f64).powi(8) - 1.0f64);
    let got = as_f64(&f);
    assert!(((got - expected) / expected).abs() < 1e-3);
    // and the ratio is exact: 10000 * (20725^8 - 20000^8) / 20000^8
    let gnum = 20725u128;
    let gden = 20000u128;
    assert_eq!(f.den, gden.pow(8));
    assert_eq!(f.num, 10000 * (gnum.pow(8) - gden.pow(8)));
}

#[test]
fn compound_interest_without_period_is_zero() {
    let i = Intrest { principal: 10000, rate: 725, time: 4, period: None };
    let f = i.compound_interest().unwrap();
    assert_eq!(f.num, 0);
    assert_eq!(f.den, 1);
}

#[test]
fn compound_interest_overflow_is_reported() {
    // the exact ratio cannot fit in u128 here
    let i = Intrest { principal: u64::MAX, rate: u32::MAX, time: u32::MAX, period: Some(u32::MAX) };
    assert!(i.compound_interest().is_none());
}

#[test]
fn pow_checked_exact_and_overflow() {
    assert_eq!(pow_checked(2, 10), Some(1024));
    assert_eq!(pow_checked(1, 0), Some(1));
    assert_eq!(pow_checked(7, 0), Some(1));
    assert!(pow_checked(2, 200).is_none());
}
