use fieldcore::fields::BaseExt;
use fieldcore::fp61::Fp61Counting;

const P: u64 = 2305843009213693951;

#[test]
fn pow_operation_count_is_independent_of_the_exponent() {
    let base = Fp61Counting::new(7);
    let exponents: [[u64; 4]; 4] = [
        [0, 0, 0, 0],
        [1, 0, 0, 0],
        [P - 2, 0, 0, 0],
        [u64::MAX, u64::MAX, u64::MAX, u64::MAX],
    ];
    // Left-to-right square-and-multiply over all 256 exponent bits, never
    // short-circuited: one squaring and one tentative multiplication per
    // bit, whatever the exponent's value or bit length.
    for by in &exponents {
        let r = base.pow(by);
        assert_eq!(r.squarings(), 256);
        assert_eq!(r.multiplications(), 256);
    }
}

#[test]
fn counting_field_computes_the_same_values() {
    let base = Fp61Counting::new(3);
    let r = base.pow(&[4, 0, 0, 0]);
    assert_eq!(r.value(), 81);
    let z = Fp61Counting::zero();
    assert_eq!(z.ct_is_zero().unwrap_u8(), 1);
    let mut buf: Vec<u8> = Vec::new();
    base.write(&mut buf);
    let back = Fp61Counting::read(&buf).map(|x| x.value());
    assert_eq!(back, Ok(3));
}
