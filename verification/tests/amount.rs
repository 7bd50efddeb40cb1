use fetch_market_and_order_data::amount::Amount;

fn units(text: &str) -> Option<u64> {
    Amount::parse(text).map(|a| a.units())
}

#[test]
fn parse_reads_whole_numbers() {
    assert_eq!(units("0"), Some(0));
    assert_eq!(units("1"), Some(100_000_000));
    assert_eq!(units("3000000"), Some(300_000_000_000_000));
    assert_eq!(units("007"), Some(700_000_000));
}

#[test]
fn parse_reads_fractions() {
    assert_eq!(units("1.5"), Some(150_000_000));
    assert_eq!(units("0.01"), Some(1_000_000));
    assert_eq!(units("3000000.0"), Some(300_000_000_000_000));
    assert_eq!(units("0.00000001"), Some(1));
    assert_eq!(units("12.34567891"), Some(1_234_567_891));
    assert_eq!(units("0.100000000000"), Some(10_000_000));
}

#[test]
fn parse_reads_exponents() {
    assert_eq!(units("1e-8"), Some(1));
    assert_eq!(units("1.5e-7"), Some(15));
    assert_eq!(units("1E2"), Some(10_000_000_000));
    assert_eq!(units("12e-1"), Some(120_000_000));
    assert_eq!(units("1e+3"), Some(100_000_000_000));
    assert_eq!(units("0e999"), Some(0));
    assert_eq!(units("0.5e1"), Some(500_000_000));
}

#[test]
fn parse_rounds_to_the_nearest_unit() {
    assert_eq!(units("0.000000001"), Some(0));
    assert_eq!(units("0.000000004"), Some(0));
    assert_eq!(units("0.0000000049999999"), Some(0));
    assert_eq!(units("0.000000005"), Some(1));
    assert_eq!(units("0.000000015"), Some(2));
    assert_eq!(units("1e-9"), Some(0));
    assert_eq!(units("5e-9"), Some(1));
    assert_eq!(units("49e-10"), Some(0));
    assert_eq!(units("1e-1000"), Some(0));
    assert_eq!(units("1.234567891e-1"), Some(12_345_679));
    assert_eq!(units("4.1999999999999993"), Some(420_000_000));
    assert_eq!(units("0.30000000000000004"), Some(30_000_000));
    assert_eq!(units("0.06999999999999999"), Some(7_000_000));
    assert_eq!(units("9.999999995"), Some(1_000_000_000));
    assert_eq!(units("0.999999994999"), Some(99_999_999));
}

#[test]
fn parse_refuses_what_is_too_large() {
    assert_eq!(units("184467440737.09551615"), Some(u64::MAX));
    assert_eq!(units("184467440737.095516154"), Some(u64::MAX));
    assert_eq!(units("184467440737.095516155"), None);
    assert_eq!(units("184467440737.09551616"), None);
    assert_eq!(units("1e12"), None);
    assert_eq!(units("1e30"), None);
    assert_eq!(units("99999999999999999999999999999999999999"), None);
}

#[test]
fn parse_refuses_what_is_no_number_text() {
    assert_eq!(units(""), None);
    assert_eq!(units("-1"), None);
    assert_eq!(units("-0"), None);
    assert_eq!(units("+1"), None);
    assert_eq!(units("1."), None);
    assert_eq!(units(".5"), None);
    assert_eq!(units("1e"), None);
    assert_eq!(units("1e-"), None);
    assert_eq!(units("1.5.2"), None);
    assert_eq!(units("1e2e3"), None);
    assert_eq!(units("abc"), None);
    assert_eq!(units("1 "), None);
    assert_eq!(units("1e1001"), None);
    assert_eq!(units("0e-1001"), None);
    assert_eq!(units("１"), None);
}

#[test]
fn to_text_writes_whole_numbers_without_a_point() {
    assert_eq!(Amount::from_units(0).to_text(), "0");
    assert_eq!(Amount::from_units(100_000_000).to_text(), "1");
    assert_eq!(Amount::from_units(10_500_000_000).to_text(), "105");
}

#[test]
fn to_text_trims_trailing_zeros() {
    assert_eq!(Amount::from_units(150_000_000).to_text(), "1.5");
    assert_eq!(Amount::from_units(1).to_text(), "0.00000001");
    assert_eq!(Amount::from_units(1_000_000).to_text(), "0.01");
    assert_eq!(Amount::from_units(1_234_567_800).to_text(), "12.345678");
    assert_eq!(Amount::from_units(u64::MAX).to_text(), "184467440737.09551615");
}

#[test]
fn to_text_reads_back() {
    for u in [0u64, 1, 99, 100_000_000, 123_456_789_012, u64::MAX] {
        let a = Amount::from_units(u);
        assert_eq!(Amount::parse(&a.to_text()), Some(a));
    }
}

#[test]
fn from_whole_scales_by_units_per_one() {
    assert_eq!(Amount::from_whole(3).map(|a| a.units()), Some(300_000_000));
    assert_eq!(Amount::from_whole(184_467_440_737).map(|a| a.units()), Some(18_446_744_073_700_000_000));
    assert_eq!(Amount::from_whole(184_467_440_738), None);
}

#[test]
fn saturating_add_holds_at_the_largest_amount() {
    let a = Amount::from_units(3);
    let b = Amount::from_units(2);
    assert_eq!(a.saturating_add(b).units(), 5);
    let top = Amount::from_units(u64::MAX - 1);
    assert_eq!(top.saturating_add(b).units(), u64::MAX);
    assert_eq!(top.saturating_add(Amount::from_units(1)).units(), u64::MAX);
}

#[test]
fn max_and_min_pick_by_units() {
    let a = Amount::from_units(3);
    let b = Amount::from_units(2);
    assert_eq!(a.max(b), a);
    assert_eq!(a.min(b), b);
    assert_eq!(a.max(a), a);
    assert!(Amount::from_units(0).is_zero());
    assert!(!a.is_zero());
}
