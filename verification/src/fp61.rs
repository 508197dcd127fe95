//! A minimal conforming prime field: the integers modulo the Mersenne
//! prime `2^61 - 1`.
//!
//! Concrete production fields live outside this crate and bring their own
//! representation and reduction kernels. This small field exists so that
//! the capability contracts of `fields` are demonstrably satisfiable and
//! so that the generic algorithms built on them can be run: every method
//! here is verified against the same contracts an external field must
//! meet.
use crate::choice::Choice;
use crate::codec::{le_bytes_to_nat, lemma_pow256_is_pow2, nat_to_le_bytes};
use crate::fields::{BaseExt, FieldExt, Group, ReadError};
use vstd::arithmetic::div_mod::{
    lemma_add_mod_noop_right, lemma_mod_sub_multiples_vanish, lemma_mul_mod_noop_right,
    lemma_small_mod,
};
use vstd::arithmetic::mul::lemma_mul_upper_bound;
use vstd::arithmetic::power2::{
    lemma2_to64, lemma2_to64_rest, lemma_pow2_strictly_increases, pow2,
};
use vstd::prelude::*;

verus! {

/// The modulus of this field, `2^61 - 1`.
pub open spec fn p61() -> nat {
    0x1fff_ffff_ffff_ffff
}

/// An element of the field of integers modulo `2^61 - 1`, kept fully
/// reduced.
#[derive(Clone, Copy, Debug, PartialEq, Eq, PartialOrd, Ord, Structural)]
pub struct Fp61 {
    v: u64,
}

/// Multiplication modulo `2^61 - 1` through a double-width intermediate.
fn mul_mod(a: u64, b: u64) -> (r: u64)
    requires
        a < p61(),
        b < p61(),
    ensures
        r as nat == (a as nat * b as nat) % p61(),
        r < p61(),
{
    proof {
        lemma_mul_upper_bound(a as int, 0x1fff_ffff_ffff_fffeint, b as int, 0x1fff_ffff_ffff_fffeint);
    }
    let prod: u128 = (a as u128) * (b as u128);
    (prod % 0x1fff_ffff_ffff_ffffu128) as u64
}

/// Reduce a value below `2 * p61()` by one conditional subtraction.
fn reduce_once(t: u64) -> (r: u64)
    requires
        t < 2 * p61(),
    ensures
        r as nat == t as nat % p61(),
{
    if t >= 0x1fff_ffff_ffff_ffffu64 {
        proof {
            lemma_mod_sub_multiples_vanish(t as int, p61() as int);
            lemma_small_mod((t - p61()) as nat, p61());
        }
        t - 0x1fff_ffff_ffff_ffffu64
    } else {
        proof {
            lemma_small_mod(t as nat, p61());
        }
        t
    }
}

impl Fp61 {
    /// The element congruent to `v`.
    pub fn new(v: u64) -> (r: Fp61)
        ensures
            r.as_nat() == v as nat % p61(),
    {
        Fp61 { v: v % 0x1fff_ffff_ffff_ffffu64 }
    }

    /// The canonical integer representative, as a machine word.
    pub fn value(&self) -> (r: u64)
        ensures
            r as nat == self.as_nat(),
    {
        self.v
    }
}

impl BaseExt for Fp61 {
    const MODULUS: &'static str = "0x1fffffffffffffff";

    closed spec fn modulus() -> nat {
        p61()
    }

    closed spec fn as_nat(&self) -> nat {
        self.v as nat
    }

    closed spec fn repr_len() -> nat {
        8
    }

    proof fn modulus_at_least_two() {
    }

    proof fn modulus_fits_repr() {
        lemma_pow256_is_pow2(8);
        lemma2_to64();
        lemma2_to64_rest();
    }

    fn zero() -> (r: Fp61) {
        Fp61 { v: 0 }
    }

    fn one() -> (r: Fp61) {
        Fp61 { v: 1 }
    }

    fn add(&self, rhs: &Fp61) -> (r: Fp61) {
        Fp61 { v: reduce_once(self.v + rhs.v) }
    }

    fn sub(&self, rhs: &Fp61) -> (r: Fp61) {
        Fp61 { v: reduce_once(self.v + 0x1fff_ffff_ffff_ffffu64 - rhs.v) }
    }

    fn neg(&self) -> (r: Fp61) {
        Fp61 { v: reduce_once(0x1fff_ffff_ffff_ffffu64 - self.v) }
    }

    fn square(&self) -> (r: Fp61) {
        Fp61 { v: mul_mod(self.v, self.v) }
    }

    fn mul(&self, rhs: &Fp61) -> (r: Fp61) {
        Fp61 { v: mul_mod(self.v, rhs.v) }
    }

    fn ct_eq(&self, other: &Fp61) -> (r: Choice) {
        // Branch-free: the representatives differ exactly when their xor
        // is nonzero, and `x | -x` puts that fact into the top bit.
        let x: u64 = self.v ^ other.v;
        let y: u64 = 0u64.wrapping_sub(x);
        let nz: u64 = (x | y) >> 63;
        proof {
            let a = self.v;
            let b = other.v;
            assert(x == 0 <==> a == b) by (bit_vector)
                requires
                    x == a ^ b,
            ;
            assert((x | y) >> 63 == (if x == 0 {
                0u64
            } else {
                1u64
            })) by (bit_vector)
                requires
                    x == 0 ==> y == 0,
                    x > 0 ==> y == 0x1_0000_0000_0000_0000 - x,
            ;
        }
        let eq_bit: u64 = 1 - nz;
        proof {
            assert((eq_bit as u8) & 1 == eq_bit) by (bit_vector)
                requires
                    eq_bit <= 1,
            ;
        }
        Choice::from_lsb(eq_bit as u8)
    }

    fn conditional_assign(&mut self, other: &Fp61, choice: Choice) {
        let bit: u64 = choice.unwrap_u8() as u64;
        let mask: u64 = 0u64.wrapping_sub(bit);
        let a: u64 = self.v;
        let b: u64 = other.v;
        let merged: u64 = (a & !mask) | (b & mask);
        proof {
            assert((a & !0u64) | (b & 0u64) == a && (a & !0xffff_ffff_ffff_ffffu64) | (b
                & 0xffff_ffff_ffff_ffffu64) == b) by (bit_vector);
        }
        self.v = merged;
    }

    fn from_bytes_wide(bytes: &[u8; 64]) -> (r: Fp61) {
        let mut acc: u64 = 0;
        let mut i: usize = 64;
        proof {
            lemma_small_mod(0, p61());
        }
        while i > 0
            invariant
                i <= 64,
                acc as nat == le_bytes_to_nat(bytes@.skip(i as int)) % p61(),
                acc < p61(),
            decreases i,
        {
            i = i - 1;
            let ghost x = le_bytes_to_nat(bytes@.skip(i as int + 1));
            proof {
                assert(bytes@.skip(i as int).skip(1) =~= bytes@.skip(i as int + 1));
                assert(bytes@.skip(i as int)[0] == bytes@[i as int]);
                assert(le_bytes_to_nat(bytes@.skip(i as int)) == bytes@[i as int] + 256 * x);
                lemma_mul_mod_noop_right(256, x as int, p61() as int);
                lemma_add_mod_noop_right(bytes@[i as int] as int, (256 * (x % p61())) as int, p61() as int);
                lemma_add_mod_noop_right(bytes@[i as int] as int, (256 * x) as int, p61() as int);
            }
            let t: u128 = (acc as u128) * 256 + (bytes[i] as u128);
            acc = (t % 0x1fff_ffff_ffff_ffffu128) as u64;
        }
        proof {
            assert(bytes@.skip(0) =~= bytes@);
        }
        Fp61 { v: acc }
    }

    fn write(&self, sink: &mut Vec<u8>) {
        let ghost start = sink@;
        let ghost v0 = self.v as nat;
        let mut v: u64 = self.v;
        let mut j: usize = 0;
        while j < 8
            invariant
                j <= 8,
                sink@.len() == start.len() + j,
                sink@.take(start.len() as int) == start,
                nat_to_le_bytes(v0, 8) == sink@.skip(start.len() as int) + nat_to_le_bytes(
                    v as nat,
                    (8 - j) as nat,
                ),
            decreases 8 - j,
        {
            let ghost before = sink@;
            let b: u8 = (v % 256) as u8;
            sink.push(b);
            proof {
                assert(sink@.take(start.len() as int) =~= before.take(start.len() as int));
                assert(sink@.skip(start.len() as int) =~= before.skip(start.len() as int)
                    + seq![b]);
                assert(nat_to_le_bytes(v as nat, (8 - j) as nat) == seq![b] + nat_to_le_bytes(
                    v as nat / 256,
                    (8 - j - 1) as nat,
                ));
                assert(before.skip(start.len() as int) + (seq![b] + nat_to_le_bytes(
                    v as nat / 256,
                    (8 - j - 1) as nat,
                )) =~= (before.skip(start.len() as int) + seq![b]) + nat_to_le_bytes(
                    v as nat / 256,
                    (8 - j - 1) as nat,
                ));
            }
            v = v / 256;
            j = j + 1;
        }
        proof {
            assert(nat_to_le_bytes(v as nat, 0) =~= Seq::<u8>::empty());
            assert(sink@.skip(start.len() as int) + Seq::<u8>::empty() =~= sink@.skip(
                start.len() as int,
            ));
            assert(sink@ =~= sink@.take(start.len() as int) + sink@.skip(start.len() as int));
        }
    }

    fn read(source: &[u8]) -> (r: Result<Fp61, ReadError>) {
        if source.len() < 8 {
            return Err(ReadError::Eof);
        }
        let ghost first8 = source@.take(8);
        let mut v: u64 = 0;
        let mut i: usize = 8;
        proof {
            assert(first8.skip(8) =~= Seq::<u8>::empty());
            vstd::arithmetic::power::lemma_pow0(256);
        }
        while i > 0
            invariant
                i <= 8,
                source@.len() >= 8,
                first8 == source@.take(8),
                v as nat == le_bytes_to_nat(first8.skip(i as int)),
                (v as nat) < vstd::arithmetic::power::pow(256, (8 - i) as nat),
            decreases i,
        {
            i = i - 1;
            proof {
                assert(first8.skip(i as int).skip(1) =~= first8.skip(i as int + 1));
                assert(first8.skip(i as int)[0] == first8[i as int]);
                assert(le_bytes_to_nat(first8.skip(i as int)) == first8[i as int] + 256
                    * le_bytes_to_nat(first8.skip(i as int + 1)));
                assert(vstd::arithmetic::power::pow(256, (8 - i) as nat) == 256
                    * vstd::arithmetic::power::pow(256, (7 - i) as nat)) by {
                    vstd::arithmetic::power::lemma_pow1(256);
                    vstd::arithmetic::power::lemma_pow_adds(256, 1, (7 - i) as nat);
                }
                assert((8 * (8 - i)) as nat <= 64);
                lemma_pow256_is_pow2((8 - i) as nat);
                lemma2_to64();
                lemma2_to64_rest();
                vstd::arithmetic::power2::lemma_pow2_adds((8 * (7 - i)) as nat, 8);
                assert(256 * (v as nat) + first8[i as int] < 256 * vstd::arithmetic::power::pow(
                    256,
                    (7 - i) as nat,
                )) by {
                    vstd::arithmetic::mul::lemma_mul_strict_inequality(
                        v as int,
                        vstd::arithmetic::power::pow(256, (7 - i) as nat),
                        256,
                    );
                    vstd::arithmetic::mul::lemma_mul_is_commutative(
                        256,
                        vstd::arithmetic::power::pow(256, (7 - i) as nat),
                    );
                    vstd::arithmetic::mul::lemma_mul_is_commutative(256, v as int);
                }
            }
            v = v * 256 + (source[i] as u64);
        }
        proof {
            assert(first8.skip(0) =~= first8);
        }
        if v >= 0x1fff_ffff_ffff_ffffu64 {
            Err(ReadError::NonCanonical)
        } else {
            Ok(Fp61 { v })
        }
    }
}

impl Group for Fp61 {
    type Scalar = Fp61;
}

/// The reference field with operation counters riding along, to observe
/// the fixed operation schedule of the generic algorithms: constant-time
/// exponentiation must perform the same number of squarings and
/// multiplications whatever the exponent. Conditional assignment adopts
/// the tentative value's counters whichever value is selected, so the
/// counts themselves never depend on a secret bit.
#[derive(Clone, Copy, Debug, PartialEq, Eq, PartialOrd, Ord)]
pub struct Fp61Counting {
    e: Fp61,
    squares: u64,
    muls: u64,
}

impl Fp61Counting {
    /// The element congruent to `v`, with counters cleared.
    pub fn new(v: u64) -> (r: Fp61Counting)
        ensures
            r.as_nat() == v as nat % p61(),
    {
        Fp61Counting { e: Fp61::new(v), squares: 0, muls: 0 }
    }

    /// The canonical integer representative, as a machine word.
    pub fn value(&self) -> (r: u64)
        ensures
            r as nat == self.as_nat(),
    {
        self.e.value()
    }

    /// How many squarings went into this value.
    pub fn squarings(&self) -> u64 {
        self.squares
    }

    /// How many multiplications went into this value.
    pub fn multiplications(&self) -> u64 {
        self.muls
    }
}

impl BaseExt for Fp61Counting {
    const MODULUS: &'static str = "0x1fffffffffffffff";

    closed spec fn modulus() -> nat {
        p61()
    }

    closed spec fn as_nat(&self) -> nat {
        self.e.v as nat
    }

    closed spec fn repr_len() -> nat {
        8
    }

    proof fn modulus_at_least_two() {
    }

    proof fn modulus_fits_repr() {
        Fp61::modulus_fits_repr();
    }

    fn zero() -> (r: Fp61Counting) {
        Fp61Counting { e: Fp61::zero(), squares: 0, muls: 0 }
    }

    fn one() -> (r: Fp61Counting) {
        Fp61Counting { e: Fp61::one(), squares: 0, muls: 0 }
    }

    fn add(&self, rhs: &Fp61Counting) -> (r: Fp61Counting) {
        Fp61Counting { e: self.e.add(&rhs.e), squares: self.squares, muls: self.muls }
    }

    fn sub(&self, rhs: &Fp61Counting) -> (r: Fp61Counting) {
        Fp61Counting { e: self.e.sub(&rhs.e), squares: self.squares, muls: self.muls }
    }

    fn neg(&self) -> (r: Fp61Counting) {
        Fp61Counting { e: self.e.neg(), squares: self.squares, muls: self.muls }
    }

    fn square(&self) -> (r: Fp61Counting) {
        Fp61Counting {
            e: self.e.square(),
            squares: self.squares.wrapping_add(1),
            muls: self.muls,
        }
    }

    fn mul(&self, rhs: &Fp61Counting) -> (r: Fp61Counting) {
        Fp61Counting { e: self.e.mul(&rhs.e), squares: self.squares, muls: self.muls.wrapping_add(1) }
    }

    fn ct_eq(&self, other: &Fp61Counting) -> (r: Choice) {
        self.e.ct_eq(&other.e)
    }

    fn conditional_assign(&mut self, other: &Fp61Counting, choice: Choice) {
        self.e.conditional_assign(&other.e, choice);
        self.squares = other.squares;
        self.muls = other.muls;
    }

    fn from_bytes_wide(bytes: &[u8; 64]) -> (r: Fp61Counting) {
        Fp61Counting { e: Fp61::from_bytes_wide(bytes), squares: 0, muls: 0 }
    }

    fn write(&self, sink: &mut Vec<u8>) {
        self.e.write(sink);
    }

    fn read(source: &[u8]) -> (r: Result<Fp61Counting, ReadError>) {
        match Fp61::read(source) {
            Ok(e) => Ok(Fp61Counting { e, squares: 0, muls: 0 }),
            Err(err) => Err(err),
        }
    }
}

impl FieldExt for Fp61 {
    closed spec fn root_of_unity_rep() -> nat {
        // This field's fixed root of unity is -1, of order two.
        0x1fff_ffff_ffff_fffe
    }

    closed spec fn delta_rep() -> nat {
        // The square of the generator 37, which generates the subgroup
        // of odd order 2^60 - 1.
        1369
    }

    fn two_inv() -> (r: Fp61) {
        // 2^60 doubles to 2^61 == p61() + 1.
        Fp61 { v: 0x1000_0000_0000_0000 }
    }

    fn root_of_unity_inv() -> (r: Fp61) {
        // -1 is its own inverse.
        Fp61 { v: 0x1fff_ffff_ffff_fffe }
    }

    fn delta() -> (r: Fp61) {
        // The square of the generator 37.
        Fp61 { v: 1369 }
    }

    fn zeta() -> (r: Fp61) {
        // 37^((p-1)/3) mod p: a nontrivial cube root of one.
        Fp61 { v: 1669582390241348315 }
    }

    fn from_u128(v: u128) -> (r: Fp61) {
        (Fp61 { v: (v % 0x1fff_ffff_ffff_ffffu128) as u64 })
    }

    fn get_lower_128(&self) -> (r: u128) {
        proof {
            lemma2_to64();
            lemma2_to64_rest();
            lemma_pow2_strictly_increases(61, 128);
            lemma_small_mod(self.v as nat, pow2(128));
        }
        self.v as u128
    }
}

} // verus!
