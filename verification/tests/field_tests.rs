use fieldcore::choice::Choice;
use fieldcore::fields::{write_read_round_trip, BaseExt, FieldExt, ReadError};
use fieldcore::fp61::Fp61;

/// The modulus of the reference field, 2^61 - 1.
const P: u64 = 2305843009213693951;

/// An independent reference for the wide reduction: sum byte_i * 256^i
/// with running powers, rather than the Horner-style reduction the field
/// itself uses.
fn reference_reduce(bytes: &[u8]) -> u64 {
    let p = P as u128;
    let mut acc: u128 = 0;
    let mut pw: u128 = 1;
    for &b in bytes {
        acc = (acc + b as u128 * pw) % p;
        pw = (pw * 256) % p;
    }
    acc as u64
}

/// Naive exponentiation by repeated self-multiplication.
fn naive_pow(base: Fp61, e: u64) -> Fp61 {
    let mut r = Fp61::new(1);
    let mut i = 0;
    while i < e {
        r = r.mul(&base);
        i += 1;
    }
    r
}

#[test]
fn round_trip_boundary_elements() {
    for v in [0u64, 1, 2, P - 1, 1234567890123456789 % P] {
        let x = Fp61::new(v);
        let mut buf: Vec<u8> = Vec::new();
        x.write(&mut buf);
        assert_eq!(buf.len(), 8);
        assert_eq!(Fp61::read(&buf), Ok(x));
    }
}

#[test]
fn round_trip_sampled_elements() {
    for _ in 0..32 {
        let x = Fp61::rand();
        let mut buf: Vec<u8> = Vec::new();
        x.write(&mut buf);
        assert_eq!(Fp61::read(&buf), Ok(x));
    }
}

#[test]
fn round_trip_through_the_generic_helper() {
    for v in [0u64, 1, P - 1, 77777777777] {
        let x = Fp61::new(v);
        assert_eq!(write_read_round_trip(&x), x);
    }
}

#[test]
fn write_emits_little_endian_bytes() {
    let x = Fp61::new(0x0102030405060708);
    let mut buf: Vec<u8> = Vec::new();
    x.write(&mut buf);
    assert_eq!(buf, vec![8, 7, 6, 5, 4, 3, 2, 1]);
}

#[test]
fn read_fails_on_short_input() {
    assert_eq!(Fp61::read(&[]), Err(ReadError::Eof));
    assert_eq!(Fp61::read(&[1, 2, 3, 4, 5, 6, 7]), Err(ReadError::Eof));
}

#[test]
fn read_fails_on_non_canonical_input() {
    assert_eq!(Fp61::read(&P.to_le_bytes()), Err(ReadError::NonCanonical));
    assert_eq!(Fp61::read(&u64::MAX.to_le_bytes()), Err(ReadError::NonCanonical));
}

#[test]
fn pow_matches_naive_exponentiation() {
    let base = Fp61::new(1234577);
    for e in [0u64, 1, 2, 3, 5, 13, 64, 100] {
        let by = [e, 0, 0, 0];
        assert_eq!(base.pow(&by), naive_pow(base, e));
    }
}

#[test]
fn pow_by_zero_and_one() {
    for v in [0u64, 1, 7, P - 1] {
        let x = Fp61::new(v);
        assert_eq!(x.pow(&[0, 0, 0, 0]), Fp61::new(1));
        assert_eq!(x.pow(&[1, 0, 0, 0]), x);
    }
}

#[test]
fn pow_fermat_inverse() {
    // x^(P-2) is the multiplicative inverse by Fermat's little theorem.
    let by = [P - 2, 0, 0, 0];
    for v in [1u64, 2, 3, 12345, P - 1] {
        let x = Fp61::new(v);
        let inv = x.pow(&by);
        assert_eq!(x.mul(&inv), Fp61::new(1));
    }
}

#[test]
fn pow_uses_every_exponent_limb() {
    // Exponents act modulo the group order 2^61 - 2, and
    // 2^64 mod (2^61 - 2) == 16, so x^(2^64) == x^16.
    let x = Fp61::new(3);
    assert_eq!(x.pow(&[0, 1, 0, 0]), x.pow(&[16, 0, 0, 0]));
    assert_eq!(x.pow(&[0, 1, 0, 0]).value(), 43046721);
}

#[test]
fn wide_reduction_matches_reference() {
    let mut patterned = [0u8; 64];
    let mut i = 0;
    while i < 64 {
        patterned[i] = (i as u8).wrapping_mul(37).wrapping_add(11);
        i += 1;
    }
    for bytes in [[0u8; 64], [0xFF; 64], patterned] {
        let x = Fp61::from_bytes_wide(&bytes);
        assert_eq!(x.value(), reference_reduce(&bytes));
        assert!(x.value() < P);
    }
}

#[test]
fn ct_is_zero_boundary_and_sampled() {
    assert_eq!(Fp61::new(0).ct_is_zero().unwrap_u8(), 1);
    assert_eq!(Fp61::new(P).ct_is_zero().unwrap_u8(), 1);
    assert_eq!(Fp61::new(1).ct_is_zero().unwrap_u8(), 0);
    assert_eq!(Fp61::new(P - 1).ct_is_zero().unwrap_u8(), 0);
    for _ in 0..32 {
        let x = Fp61::rand();
        assert_eq!(x.ct_is_zero().unwrap_u8() == 1, x.value() == 0);
    }
}

#[test]
fn rand_produces_reduced_elements() {
    let a = Fp61::rand();
    let b = Fp61::rand();
    for x in [a, b] {
        assert!(x.value() < P);
    }
    // Two 61-bit draws from the system source colliding is vanishingly
    // unlikely; equality here would point at a broken entropy hookup.
    assert_ne!(a, b);
}

#[test]
fn ring_operations_wrap_at_the_modulus() {
    assert_eq!(Fp61::new(P - 1).add(&Fp61::new(1)), Fp61::new(0));
    assert_eq!(Fp61::new(P - 1).add(&Fp61::new(5)), Fp61::new(4));
    assert_eq!(Fp61::new(3).add(&Fp61::new(4)), Fp61::new(7));
    assert_eq!(Fp61::new(0).sub(&Fp61::new(1)), Fp61::new(P - 1));
    assert_eq!(Fp61::new(9).sub(&Fp61::new(4)), Fp61::new(5));
    assert_eq!(Fp61::new(1).neg(), Fp61::new(P - 1));
    assert_eq!(Fp61::new(0).neg(), Fp61::new(0));
    assert_eq!(Fp61::new(7).square(), Fp61::new(49));
    assert_eq!(Fp61::new(P - 1).square(), Fp61::new(1));
}

#[test]
fn ct_eq_agrees_with_equality() {
    assert_eq!(Fp61::new(5).ct_eq(&Fp61::new(5)).unwrap_u8(), 1);
    assert_eq!(Fp61::new(5).ct_eq(&Fp61::new(6)).unwrap_u8(), 0);
}

#[test]
fn two_inv_doubles_to_one() {
    let t = Fp61::two_inv();
    assert_eq!(t.mul(&Fp61::new(2)), Fp61::new(1));
}

#[test]
fn root_of_unity_inv_inverts_the_root() {
    // This field's fixed root of unity is P - 1, that is -1.
    assert_eq!(Fp61::root_of_unity_inv().mul(&Fp61::new(P - 1)), Fp61::new(1));
}

#[test]
fn zeta_has_multiplicative_order_three() {
    let z = Fp61::zeta();
    assert_ne!(z, Fp61::new(1));
    assert_eq!(z.mul(&z).mul(&z), Fp61::new(1));
}

#[test]
fn delta_is_a_valid_element() {
    assert!(Fp61::delta().value() < P);
    assert_eq!(Fp61::delta().value(), 37 * 37);
}

#[test]
fn from_u128_reduces() {
    assert_eq!(Fp61::from_u128(0), Fp61::new(0));
    assert_eq!(Fp61::from_u128(P as u128), Fp61::new(0));
    assert_eq!(Fp61::from_u128(P as u128 + 5), Fp61::new(5));
    assert_eq!(Fp61::from_u128(u128::MAX).value(), (u128::MAX % P as u128) as u64);
}

#[test]
fn get_lower_128_of_a_canonical_element() {
    assert_eq!(Fp61::new(42).get_lower_128(), 42);
    assert_eq!(Fp61::new(P - 1).get_lower_128(), (P - 1) as u128);
}

#[test]
fn modulus_string_is_the_prime() {
    assert_eq!(<Fp61 as BaseExt>::MODULUS, "0x1fffffffffffffff");
}

#[test]
fn choice_construction_and_unwrap() {
    assert_eq!(Choice::from_bool(true).unwrap_u8(), 1);
    assert_eq!(Choice::from_bool(false).unwrap_u8(), 0);
    assert_eq!(Choice::from_lsb(0b10110).unwrap_u8(), 0);
    assert_eq!(Choice::from_lsb(0b10111).unwrap_u8(), 1);
}
