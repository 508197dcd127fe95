use fieldcore::limb::{adc, mac, sbb};

#[test]
fn adc_wraps_one_limb() {
    assert_eq!(adc(0xFFFFFFFFFFFFFFFF, 1, 0), (0, 1));
}

#[test]
fn adc_exact_against_wide_arithmetic() {
    let cases: Vec<(u64, u64, u64)> = vec![
        (0, 0, 0),
        (1, 2, 1),
        (u64::MAX, u64::MAX, 1),
        (u64::MAX, 0, 1),
        (0x8000000000000000, 0x8000000000000000, 0),
        (12345678901234567, 98765432109876543, 1),
    ];
    for (a, b, c) in cases {
        let (sum, carry) = adc(a, b, c);
        let wide = a as u128 + b as u128 + c as u128;
        assert_eq!(wide, (carry as u128) << 64 | sum as u128);
        assert!(carry <= 1);
    }
}

#[test]
fn sbb_borrows_below_zero() {
    let (diff, borrow) = sbb(0, 1, 0);
    assert_eq!(diff, 0xFFFFFFFFFFFFFFFF);
    assert_eq!(borrow >> 63, 1);
}

#[test]
fn sbb_exact_no_borrow() {
    assert_eq!(sbb(5, 3, 0), (2, 0));
    assert_eq!(sbb(7, 7, 0), (0, 0));
    // An incoming borrow counts only through its top bit.
    assert_eq!(sbb(5, 3, u64::MAX), (1, 0));
    assert_eq!(sbb(5, 3, 1), (2, 0));
}

#[test]
fn sbb_exact_with_borrow() {
    // 3 - 5 - 1 wraps modulo 2^64 and reports the borrow as all ones.
    let (diff, borrow) = sbb(3, 5, u64::MAX);
    assert_eq!(diff, 3u64.wrapping_sub(6));
    assert_eq!(borrow, u64::MAX);
}

#[test]
fn mac_small_products() {
    assert_eq!(mac(0, 3, 4, 0), (12, 0));
    assert_eq!(mac(1, 2, 3, 4), (11, 0));
}

#[test]
fn mac_exact_at_the_extremes() {
    // The triple-term sum reaches exactly 2^128 - 1 and still fits.
    let (sum, carry) = mac(u64::MAX, u64::MAX, u64::MAX, u64::MAX);
    assert_eq!(sum, u64::MAX);
    assert_eq!(carry, u64::MAX);
    let cases: Vec<(u64, u64, u64, u64)> = vec![
        (0, u64::MAX, u64::MAX, 0),
        (7, 1 << 32, 1 << 32, 9),
        (u64::MAX, 0, u64::MAX, 1),
    ];
    for (a, b, c, carry_in) in cases {
        let (sum, carry) = mac(a, b, c, carry_in);
        let wide = a as u128 + b as u128 * c as u128 + carry_in as u128;
        assert_eq!(wide, (carry as u128) << 64 | sum as u128);
    }
}
