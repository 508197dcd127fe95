//! Capability contracts for prime-field element types.
//!
//! Concrete field types live outside this crate: they choose a
//! representation, a modulus and a reduction algorithm, and supply the
//! ring operations. This module states the contract such a type must
//! meet — every element is valued by its canonical integer representative
//! — and provides, once for all conforming types, the generic algorithms
//! built on that contract: random sampling, the constant-time zero test
//! and constant-time exponentiation.
use crate::choice::Choice;
use crate::codec::{lemma_le_bytes_round_trip, le_bytes_to_nat, nat_to_le_bytes};
use crate::limb::{lemma_limbs_to_nat_bound, lemma_limbs_to_nat_bit, limbs_to_nat};
use rand::RngCore;
use vstd::arithmetic::div_mod::{
    lemma_basic_div, lemma_div_denominator, lemma_fundamental_div_mod, lemma_mul_mod_noop_general,
    lemma_small_mod,
};
use vstd::arithmetic::power::{lemma_pow0, lemma_pow1, lemma_pow_adds, pow};
use vstd::arithmetic::power2::{lemma2_to64, lemma_pow2_adds, lemma_pow2_pos, pow2};
use vstd::prelude::*;

verus! {

/// `b^e` modulo `m`, over the canonical integer representatives: the
/// value constant-time exponentiation is contracted to produce.
pub open spec fn pow_mod(b: nat, e: nat, m: nat) -> int {
    pow(b as int, e) % (m as int)
}

/// Why deserialization of a field element failed.
#[derive(Clone, Copy, Debug, PartialEq, Eq, Structural)]
pub enum ReadError {
    /// The byte source was exhausted before one whole encoding was read.
    Eof,
    /// The decoded integer was not a canonical representative below the
    /// modulus, and the concrete field rejects such encodings.
    NonCanonical,
}

/// Relies on `rand::rngs::OsRng` (`RngCore::fill_bytes`): fills the buffer
/// from the operating system's cryptographically secure entropy source,
/// and aborts the process if that source fails — secure randomness is a
/// hard runtime requirement, never silently degraded.
#[verifier::external_body]
fn os_random_wide() -> (r: [u8; 64]) {
    let mut bytes = [0u8; 64];
    rand::rngs::OsRng.fill_bytes(&mut bytes);
    bytes
}

/// The common interface for dealing with elements of a finite field.
///
/// A conforming type picks a modulus and values every element by its
/// canonical integer representative (`as_nat`), supplies the ring
/// operations and the canonical little-endian encoding — and carries a
/// total order for canonical, deterministic contexts — and in return
/// gets the generic algorithms (`rand`, `ct_is_zero`, `pow`) for free.
pub trait BaseExt: Sized + Ord {
    /// Modulus of the field written as a string for display purposes.
    /// It never participates in arithmetic.
    const MODULUS: &'static str;

    /// The field's modulus.
    spec fn modulus() -> nat;

    /// The canonical integer representative of this element, the least
    /// nonnegative residue.
    spec fn as_nat(&self) -> nat;

    /// The fixed length in bytes of the canonical encoding.
    spec fn repr_len() -> nat;

    /// A field has at least the two distinct elements zero and one.
    proof fn modulus_at_least_two()
        ensures
            Self::modulus() >= 2,
    ;

    /// Every canonical representative fits the fixed encoding length.
    proof fn modulus_fits_repr()
        ensures
            Self::modulus() <= pow(256, Self::repr_len()),
    ;

    /// The additive identity.
    fn zero() -> (r: Self)
        ensures
            r.as_nat() == 0,
    ;

    /// The multiplicative identity.
    fn one() -> (r: Self)
        ensures
            r.as_nat() == 1,
    ;

    /// Field addition.
    fn add(&self, rhs: &Self) -> (r: Self)
        requires
            self.as_nat() < Self::modulus(),
            rhs.as_nat() < Self::modulus(),
        ensures
            r.as_nat() == (self.as_nat() + rhs.as_nat()) % Self::modulus(),
    ;

    /// Field subtraction.
    fn sub(&self, rhs: &Self) -> (r: Self)
        requires
            self.as_nat() < Self::modulus(),
            rhs.as_nat() < Self::modulus(),
        ensures
            r.as_nat() == (self.as_nat() + Self::modulus() - rhs.as_nat()) % (Self::modulus() as int),
    ;

    /// Field negation, the additive inverse.
    fn neg(&self) -> (r: Self)
        requires
            self.as_nat() < Self::modulus(),
        ensures
            r.as_nat() == (Self::modulus() - self.as_nat()) % (Self::modulus() as int),
    ;

    /// Field squaring.
    fn square(&self) -> (r: Self)
        requires
            self.as_nat() < Self::modulus(),
        ensures
            r.as_nat() == (self.as_nat() * self.as_nat()) % Self::modulus(),
    ;

    /// Field multiplication.
    fn mul(&self, rhs: &Self) -> (r: Self)
        requires
            self.as_nat() < Self::modulus(),
            rhs.as_nat() < Self::modulus(),
        ensures
            r.as_nat() == (self.as_nat() * rhs.as_nat()) % Self::modulus(),
    ;

    /// Constant-time equality: the result is computed without branching
    /// on the element values, and is set exactly when the canonical
    /// representatives coincide.
    fn ct_eq(&self, other: &Self) -> (r: Choice)
        ensures
            r.is_set() <==> self.as_nat() == other.as_nat(),
    ;

    /// Constant-time conditional assignment: overwrite `self` with
    /// `other` exactly when `choice` is set, without branching on the
    /// choice bit.
    fn conditional_assign(&mut self, other: &Self, choice: Choice)
        ensures
            choice.is_set() ==> final (self).as_nat() == other.as_nat(),
            !choice.is_set() ==> final (self).as_nat() == old(self).as_nat(),
    ;

    /// Obtains a field element that is congruent to the provided little
    /// endian byte representation of an integer: the 512-bit value is
    /// reduced modulo the field's modulus. The excess input range is what
    /// removes the sampling bias a field-sized input would carry.
    fn from_bytes_wide(bytes: &[u8; 64]) -> (r: Self)
        ensures
            r.as_nat() == le_bytes_to_nat(bytes@) % Self::modulus(),
            r.as_nat() < Self::modulus(),
    ;

    /// Writes this element in its normalized, little endian form onto the
    /// end of a byte sink.
    fn write(&self, sink: &mut Vec<u8>)
        requires
            self.as_nat() < Self::modulus(),
        ensures
            final (sink)@ == old(sink)@ + nat_to_le_bytes(self.as_nat(), Self::repr_len()),
    ;

    /// Reads a normalized, little endian represented field element from a
    /// byte source. Fails with `Eof` when the source is exhausted before
    /// the fixed encoding length is available; whether a non-canonical
    /// (not fully reduced) encoding is rejected or reduced is the concrete
    /// field's documented policy.
    fn read(source: &[u8]) -> (r: Result<Self, ReadError>)
        ensures
            source@.len() < Self::repr_len() ==> r == Result::<Self, ReadError>::Err(
                ReadError::Eof,
            ),
            source@.len() >= Self::repr_len() ==> {
                let v = le_bytes_to_nat(source@.take(Self::repr_len() as int));
                &&& v < Self::modulus() ==> (r matches Ok(x) && x.as_nat() == v)
                &&& v >= Self::modulus() ==> (r == Result::<Self, ReadError>::Err(
                    ReadError::NonCanonical,
                ) || (r matches Ok(x) && x.as_nat() == v % Self::modulus()))
            },
    ;

    /// This computes a random element of the field using system
    /// randomness: 64 bytes of operating-system entropy, reduced onto the
    /// field. Nothing can be promised of which element comes back, only
    /// that every outcome is a fully reduced, valid element.
    fn rand() -> (r: Self)
        ensures
            r.as_nat() < Self::modulus(),
    {
        let wide = os_random_wide();
        Self::from_bytes_wide(&wide)
    }

    /// Returns whether or not this element is zero, as a constant-time
    /// test against the additive identity.
    fn ct_is_zero(&self) -> (r: Choice)
        ensures
            r.is_set() <==> self.as_nat() == 0,
    {
        self.ct_eq(&Self::zero())
    }

    /// Exponentiates `self` by `by`, where `by` is a little-endian order
    /// integer exponent (its value in closed form is given by
    /// `crate::limb::lemma_limbs4_value`), via left-to-right square-and-multiply in
    /// constant time: exactly 256 squarings and 256 conditional selects
    /// are performed whatever the exponent's bit pattern, with the
    /// running result overwritten through the constant-time select, never
    /// through a branch on an exponent bit.
    fn pow(&self, by: &[u64; 4]) -> (r: Self)
        requires
            self.as_nat() < Self::modulus(),
        ensures
            r.as_nat() == pow_mod(self.as_nat(), limbs_to_nat(by@), Self::modulus()),
    {
        let ghost b = self.as_nat();
        let ghost m = Self::modulus();
        let ghost e_all = limbs_to_nat(by@);
        proof {
            Self::modulus_at_least_two();
            lemma_limbs_to_nat_bound(by@);
            lemma_pow2_pos(256);
            lemma_basic_div(e_all as int, pow2(256) as int);
            lemma_pow0(b as int);
            lemma_small_mod(1, m);
        }
        let mut res = Self::one();
        let mut k: usize = 0;
        while k < 256
            invariant
                k <= 256,
                self.as_nat() == b,
                b < m,
                m == Self::modulus(),
                m >= 2,
                e_all == limbs_to_nat(by@),
                e_all < pow2(256),
                res.as_nat() == pow(b as int, e_all / pow2((256 - k) as nat)) % (m as int),
            decreases 256 - k,
        {
            let i: usize = 255 - k;
            let limb: u64 = by[i / 64];
            let sh: u64 = (i % 64) as u64;
            let bit: u64 = (limb >> sh) & 1;
            res = res.square();
            let tmp = res.mul(self);
            proof {
                let t = (255 - k) as nat;
                let p = e_all / pow2((t + 1) as nat);
                let head = e_all / pow2(t);
                lemma_pow2_pos(t);
                lemma_pow2_adds(t, 1);
                lemma2_to64();
                lemma_div_denominator(e_all as int, pow2(t) as int, 2);
                lemma_fundamental_div_mod((e_all / pow2(t)) as int, 2);
                assert(head == 2 * p + head % 2);
                lemma_limbs_to_nat_bit(by@, t);
                assert(head % 2 == bit);
                lemma_square_and_multiply_step(b, p, m);
                assert(bit as u8 & 1 == bit && bit <= 1) by (bit_vector)
                    requires
                        bit == (limb >> sh) & 1,
                ;
            }
            res.conditional_assign(&tmp, Choice::from_lsb(bit as u8));
            k += 1;
        }
        proof {
            lemma2_to64();
            vstd::arithmetic::div_mod::lemma_div_basics(e_all as int);
        }
        res
    }
}

/// The round trip itself, runnable for any conforming field: write `x`
/// into an empty buffer, read it back, and the element returned carries
/// `x`'s own canonical representative — `read(write(x)) == x`.
pub fn write_read_round_trip<F: BaseExt>(x: &F) -> (r: F)
    requires
        x.as_nat() < F::modulus(),
    ensures
        r.as_nat() == x.as_nat(),
{
    let mut buf: Vec<u8> = Vec::new();
    x.write(&mut buf);
    proof {
        crate::codec::lemma_nat_to_le_bytes_len(x.as_nat(), F::repr_len());
        assert(buf@.take(F::repr_len() as int) =~= buf@);
        F::modulus_fits_repr();
        lemma_write_read_round_trip(*x);
    }
    match F::read(buf.as_slice()) {
        Ok(y) => y,
        Err(_) => vstd::pervasive::unreached(),
    }
}

/// The "is the scalar field of some group" relationship. It is defined
/// and implemented by the surrounding elliptic-curve layer; the extended
/// field capability consumes it only as a type-level constraint and
/// never inspects group elements.
pub trait Group {
    /// The scalar field the group is tied to.
    type Scalar;
}

/// Additional structure required of prime fields used in FFT-friendly
/// cryptographic constructions: structured constants algebraically
/// derived from the modulus, and cheap embedding and extraction of
/// 128-bit integers. The constants are fixed per concrete field and
/// supplied by its implementer, never computed here.
pub trait FieldExt: BaseExt + Group<Scalar = Self> {
    /// The canonical representative of the field's fixed root of unity,
    /// chosen by the concrete field. Only its inverse is surfaced here;
    /// this anchor is what that inverse is contracted against.
    spec fn root_of_unity_rep() -> nat;

    /// The canonical representative of the field's `DELTA` constant,
    /// fixed once per concrete field. The anchor is what makes `delta`
    /// a process-wide constant rather than an arbitrary valid element.
    spec fn delta_rep() -> nat;

    /// Inverse of two in the field.
    fn two_inv() -> (r: Self)
        ensures
            r.as_nat() < Self::modulus(),
            (2 * r.as_nat()) % Self::modulus() == 1,
    ;

    /// Inverse of the field's fixed root of unity.
    fn root_of_unity_inv() -> (r: Self)
        ensures
            r.as_nat() < Self::modulus(),
            (r.as_nat() * Self::root_of_unity_rep()) % Self::modulus() == 1,
    ;

    /// Generator of the multiplicative subgroup of odd order `t`, where
    /// the modulus is `2^s * t + 1`. Which `t` that is belongs to the
    /// concrete field, so the generator property stays with it; what is
    /// pinned here is that the same fixed, valid element comes back on
    /// every call.
    fn delta() -> (r: Self)
        ensures
            r.as_nat() < Self::modulus(),
            r.as_nat() == Self::delta_rep(),
    ;

    /// An element of multiplicative order three: a nontrivial cube root
    /// of one.
    fn zeta() -> (r: Self)
        ensures
            r.as_nat() < Self::modulus(),
            r.as_nat() != 1,
            (r.as_nat() * r.as_nat() * r.as_nat()) % Self::modulus() == 1,
    ;

    /// Obtains a field element congruent to the integer `v`: the cheap
    /// embedding for values already known to fit in 128 bits, sparing
    /// the 512-bit wide-reduction path.
    fn from_u128(v: u128) -> (r: Self)
        ensures
            r.as_nat() < Self::modulus(),
            r.as_nat() == v as nat % Self::modulus(),
    ;

    /// Gets the lower 128 bits of this field element when expressed
    /// canonically. A compact numeric handle for hashing or indexing —
    /// not a substitute for the element in arithmetic.
    fn get_lower_128(&self) -> (r: u128)
        requires
            self.as_nat() < Self::modulus(),
        ensures
            r as nat == self.as_nat() % pow2(128),
    ;
}

/// The two accumulation facts behind one square-and-multiply step:
/// squaring the running value doubles the exponent it carries, and one
/// further multiplication by the base adds one to it, all modulo `m`.
proof fn lemma_square_and_multiply_step(b: nat, p: nat, m: nat)
    requires
        m >= 2,
    ensures
        ((pow(b as int, p) % (m as int)) * (pow(b as int, p) % (m as int))) % (m as int) == pow(
            b as int,
            2 * p,
        ) % (m as int),
        ((pow(b as int, 2 * p) % (m as int)) * (b as int)) % (m as int) == pow(
            b as int,
            2 * p + 1,
        ) % (m as int),
{
    let bi = b as int;
    let mi = m as int;
    lemma_pow_adds(bi, p, p);
    lemma_mul_mod_noop_general(pow(bi, p), pow(bi, p), mi);
    lemma_pow1(bi);
    lemma_pow_adds(bi, 2 * p, 1);
    lemma_mul_mod_noop_general(pow(bi, 2 * p), bi, mi);
}

/// Round-trip law of the canonical encoding: for every valid field
/// element `x`, the integer decoded from the bytes `write` emits is
/// `x`'s own representative — so `read(write(x))` succeeds and returns
/// an element equal to `x`.
pub proof fn lemma_write_read_round_trip<F: BaseExt>(x: F)
    requires
        x.as_nat() < F::modulus(),
    ensures
        le_bytes_to_nat(nat_to_le_bytes(x.as_nat(), F::repr_len())) == x.as_nat(),
{
    F::modulus_fits_repr();
    lemma_le_bytes_round_trip(x.as_nat(), F::repr_len());
}

} // verus!
