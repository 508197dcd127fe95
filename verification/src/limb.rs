//! Limb arithmetic primitives: the atomic carry-propagating add,
//! borrow-propagating subtract and multiply-accumulate operations that
//! multi-limb ("big integer") field arithmetic is built from.
//!
//! Each primitive is branch-free: control flow never depends on the limb
//! values, which is the precondition for constant-time big-integer
//! arithmetic built by chaining them with the carry or borrow threaded
//! through.
use vstd::arithmetic::div_mod::{
    lemma_div_denominator, lemma_div_multiples_vanish_fancy, lemma_hoist_over_denominator,
    lemma_mod_multiples_vanish,
};
use vstd::arithmetic::mul::{
    lemma_mul_is_associative, lemma_mul_is_commutative, lemma_mul_is_distributive_add,
};
use vstd::arithmetic::power2::{lemma2_to64, lemma_pow2_adds, lemma_pow2_pos, pow2};
use vstd::bits::lemma_u64_shr_is_div;
use vstd::prelude::*;

verus! {

/// The number of values one 64-bit limb can hold, `2^64`.
pub open spec fn limb_base() -> nat {
    0x1_0000_0000_0000_0000
}

/// The platform's natural machine word is at least 32 bits wide, so that
/// downstream bit-slicing code can index into 64-bit exponent words
/// efficiently. A build-time requirement; the verifier discharges it for
/// every platform it targets.
pub proof fn lemma_platform_word_at_least_32_bits()
    ensures
        usize::MAX >= 0xffff_ffffu64,
{
}

/// The integer a limb sequence represents when read as a little-endian
/// base-`2^64` numeral. This is the value a multi-limb ("big integer")
/// quantity such as an exponent stands for.
pub open spec fn limbs_to_nat(limbs: Seq<u64>) -> nat
    decreases limbs.len(),
{
    if limbs.len() == 0 {
        0
    } else {
        (limbs[0] + pow2(64) * limbs_to_nat(limbs.skip(1))) as nat
    }
}

/// A limb sequence of length `n` represents an integer below `2^(64*n)`.
pub proof fn lemma_limbs_to_nat_bound(limbs: Seq<u64>)
    ensures
        limbs_to_nat(limbs) < pow2((64 * limbs.len()) as nat),
    decreases limbs.len(),
{
    lemma2_to64();
    if limbs.len() == 0 {
    } else {
        let rest = limbs.skip(1);
        let r = limbs_to_nat(rest);
        lemma_limbs_to_nat_bound(rest);
        lemma_pow2_adds(64, (64 * rest.len()) as nat);
        assert(limbs[0] < pow2(64));
        assert(pow2(64) * (r + 1) <= pow2(64) * pow2((64 * rest.len()) as nat)) by {
            vstd::arithmetic::mul::lemma_mul_inequality(
                (r + 1) as int,
                pow2((64 * rest.len()) as nat) as int,
                pow2(64) as int,
            );
            lemma_mul_is_commutative(pow2(64) as int, (r + 1) as int);
            lemma_mul_is_commutative(pow2(64) as int, pow2((64 * rest.len()) as nat) as int);
        }
        assert(limbs_to_nat(limbs) < pow2(64) * (r + 1)) by {
            vstd::arithmetic::mul::lemma_mul_is_distributive_add(pow2(64) as int, r as int, 1);
        }
    }
}

/// The value of a four-limb little-endian quantity, such as a 256-bit
/// exponent, in closed form.
pub proof fn lemma_limbs4_value(limbs: Seq<u64>)
    requires
        limbs.len() == 4,
    ensures
        limbs_to_nat(limbs) == limbs[0] + limbs[1] * pow2(64) + limbs[2] * pow2(128) + limbs[3]
            * pow2(192),
{
    let l0 = limbs[0];
    let l1 = limbs[1];
    let l2 = limbs[2];
    let l3 = limbs[3];
    let s1 = limbs.skip(1);
    let s2 = limbs.skip(2);
    let s3 = limbs.skip(3);
    let s4 = limbs.skip(4);
    assert(s1.skip(1) =~= s2);
    assert(s2.skip(1) =~= s3);
    assert(s3.skip(1) =~= s4);
    assert(s1[0] == l1);
    assert(s2[0] == l2);
    assert(s3[0] == l3);
    assert(limbs_to_nat(s4) == 0);
    assert(limbs_to_nat(s3) == (s3[0] + pow2(64) * limbs_to_nat(s3.skip(1))) as nat);
    assert(limbs_to_nat(s3) == l3);
    assert(limbs_to_nat(s2) == l2 + pow2(64) * (l3 as nat));
    assert(limbs_to_nat(s1) == l1 + pow2(64) * (l2 + pow2(64) * (l3 as nat)));
    lemma_pow2_adds(64, 64);
    lemma_pow2_adds(64, 128);
    assert(pow2(64) * (l2 + pow2(64) * (l3 as nat)) == pow2(64) * (l2 as nat) + pow2(128) * (
    l3 as nat)) by {
        lemma_mul_is_distributive_add(pow2(64) as int, l2 as int, (pow2(64) * (l3 as nat)) as int);
        lemma_mul_is_associative(pow2(64) as int, pow2(64) as int, l3 as int);
    }
    assert(pow2(64) * (l1 + pow2(64) * (l2 as nat) + pow2(128) * (l3 as nat)) == pow2(64) * (
    l1 as nat) + pow2(128) * (l2 as nat) + pow2(192) * (l3 as nat)) by {
        lemma_mul_is_distributive_add(
            pow2(64) as int,
            (l1 + pow2(64) * (l2 as nat)) as int,
            (pow2(128) * (l3 as nat)) as int,
        );
        lemma_mul_is_distributive_add(pow2(64) as int, l1 as int, (pow2(64) * (l2 as nat)) as int);
        lemma_mul_is_associative(pow2(64) as int, pow2(64) as int, l2 as int);
        lemma_mul_is_associative(pow2(64) as int, pow2(128) as int, l3 as int);
    }
    assert(limbs_to_nat(limbs) == l0 + pow2(64) * limbs_to_nat(s1));
    lemma_mul_is_commutative(pow2(64) as int, l1 as int);
    lemma_mul_is_commutative(pow2(128) as int, l2 as int);
    lemma_mul_is_commutative(pow2(192) as int, l3 as int);
}

/// Bit `i` (counting from the least significant) of the little-endian
/// limb value is bit `i % 64` of limb `i / 64`.
pub proof fn lemma_limbs_to_nat_bit(limbs: Seq<u64>, i: nat)
    requires
        i < 64 * limbs.len(),
    ensures
        (limbs_to_nat(limbs) / pow2(i)) % 2 == ((limbs[(i / 64) as int] >> ((i % 64) as u64))
            & 1),
    decreases limbs.len(),
{
    let e = limbs_to_nat(limbs);
    let l0 = limbs[0];
    let rest = limbs.skip(1);
    let r = limbs_to_nat(rest);
    lemma_pow2_pos(i);
    lemma2_to64();
    if i < 64 {
        // e / 2^i == l0 / 2^i + 2^(64-i) * r, and the second addend is even.
        assert((64 - i) + i == 64);
        lemma_pow2_adds((64 - i) as nat, i);
        lemma_pow2_pos((64 - i) as nat);
        assert(l0 as int / pow2(i) as int + (pow2((64 - i) as nat) * r) as int == (l0 + (pow2(
            (64 - i) as nat,
        ) * r) * pow2(i)) / pow2(i) as int) by {
            lemma_hoist_over_denominator(l0 as int, (pow2((64 - i) as nat) * r) as int, pow2(i));
        }
        assert((pow2((64 - i) as nat) * r) * pow2(i) == pow2(64) * r) by {
            lemma_mul_is_commutative(pow2((64 - i) as nat) as int, r as int);
            lemma_mul_is_associative(r as int, pow2((64 - i) as nat) as int, pow2(i) as int);
            lemma_mul_is_commutative(r as int, pow2(64) as int);
        }
        assert(e / pow2(i) == l0 as nat / pow2(i) + pow2((64 - i) as nat) * r);
        // Drop the even addend modulo 2.
        assert(pow2((64 - i) as nat) * r == 2 * (pow2((64 - i - 1) as nat) * r)) by {
            lemma_pow2_adds(1, (64 - i - 1) as nat);
            lemma_mul_is_associative(2, pow2((64 - i - 1) as nat) as int, r as int);
        }
        lemma_mod_multiples_vanish((pow2((64 - i - 1) as nat) * r) as int, (l0 as nat / pow2(
            i,
        )) as int, 2);
        // Bit arithmetic on the limb itself.
        let sh: u64 = i as u64;
        lemma_u64_shr_is_div(l0, sh);
        assert((l0 >> sh) & 1 == (l0 >> sh) % 2) by (bit_vector);
        assert(i % 64 == i);
        assert(i / 64 == 0);
    } else {
        // Peel one limb: e / 2^i == (e / 2^64) / 2^(i-64) == r / 2^(i-64).
        lemma_pow2_adds(64, (i - 64) as nat);
        lemma_pow2_pos((i - 64) as nat);
        assert(e == pow2(64) * r + l0) by {
            lemma_mul_is_commutative(pow2(64) as int, r as int);
        }
        assert(e as int / pow2(64) as int == r) by {
            lemma_div_multiples_vanish_fancy(r as int, l0 as int, pow2(64) as int);
        }
        assert((e as int / pow2(64) as int) / pow2((i - 64) as nat) as int == e as int / pow2(
            i,
        ) as int) by {
            lemma_div_denominator(e as int, pow2(64) as int, pow2((i - 64) as nat) as int);
        }
        lemma_limbs_to_nat_bit(rest, (i - 64) as nat);
        assert(rest[((i - 64) / 64) as int] == limbs[(i / 64) as int]);
        assert((i - 64) % 64 == i % 64);
    }
}

/// Compute `a + b + carry`, returning the result and the new carry over.
///
/// The sum is formed in a double-width intermediate, so no information is
/// lost: the low limb and the carry limb together encode it exactly.
#[inline(always)]
pub fn adc(a: u64, b: u64, carry: u64) -> (r: (u64, u64))
    ensures
        a + b + carry == r.1 * limb_base() + r.0,
        carry <= 1 ==> r.1 <= 1,
{
    let ret: u128 = (a as u128) + (b as u128) + (carry as u128);
    proof {
        assert(ret == ((ret >> 64) as u64) * 0x1_0000_0000_0000_0000u128 + (ret as u64)
            && (ret >> 64) <= 0xffff_ffff_ffff_ffffu128) by (bit_vector);
    }
    (ret as u64, (ret >> 64) as u64)
}

/// The 0/1 borrow a limb carries in full-limb form: its top bit.
pub open spec fn borrow_flag(borrow: u64) -> nat {
    if borrow >= 0x8000_0000_0000_0000 {
        1
    } else {
        0
    }
}

/// Compute `a - (b + borrow_bit)`, returning the result and the new borrow.
///
/// The incoming borrow is carried in full-limb form: only its top bit is
/// read as the 0/1 borrow flag, which is exactly the form the outgoing
/// borrow has. When the true subtraction is negative the result wraps by
/// one limb base and the outgoing borrow is all ones; otherwise the result
/// is exact and the outgoing borrow is zero.
#[inline(always)]
pub fn sbb(a: u64, b: u64, borrow: u64) -> (r: (u64, u64))
    ensures
        a >= b + borrow_flag(borrow) ==> r.0 == a - b - borrow_flag(borrow) && r.1 == 0,
        a < b + borrow_flag(borrow) ==> r.0 == a - b - borrow_flag(borrow) + limb_base() && r.1
            == 0xffff_ffff_ffff_ffffu64,
{
    let ret: u128 = (a as u128).wrapping_sub((b as u128) + ((borrow >> 63) as u128));
    proof {
        let bb = borrow >> 63;
        assert(borrow >> 63 == (if borrow >= 0x8000_0000_0000_0000 {
            1u64
        } else {
            0u64
        })) by (bit_vector);
        if a >= b + bb {
            assert(ret == a - b - bb);
            assert(ret as u64 == ret && (ret >> 64) == 0) by (bit_vector)
                requires
                    ret < 0x1_0000_0000_0000_0000u128,
            ;
        } else {
            assert(ret == 0x1_0000_0000_0000_0000_0000_0000_0000_0000 - ((b + bb) - a));
            assert(ret as u64 == a - b - bb + 0x1_0000_0000_0000_0000 && (ret >> 64) as u64
                == 0xffff_ffff_ffff_ffffu64) by (bit_vector)
                requires
                    a < b + bb,
                    bb <= 1,
                    ret == 0x1_0000_0000_0000_0000_0000_0000_0000_0000 - ((b + bb) - a),
            ;
        }
    }
    (ret as u64, (ret >> 64) as u64)
}

/// Compute `a + (b * c) + carry`, returning the result and the new carry over.
///
/// The triple-term sum fits in the double-width intermediate — the product
/// of two limbs leaves exactly enough headroom for two more limb-sized
/// addends — so the low limb and the carry limb encode it exactly.
#[inline(always)]
pub fn mac(a: u64, b: u64, c: u64, carry: u64) -> (r: (u64, u64))
    ensures
        a + b * c + carry == r.1 * limb_base() + r.0,
{
    proof {
        vstd::arithmetic::mul::lemma_mul_upper_bound(
            b as int,
            0xffff_ffff_ffff_ffffu64 as int,
            c as int,
            0xffff_ffff_ffff_ffffu64 as int,
        );
    }
    let ret: u128 = (a as u128) + (b as u128) * (c as u128) + (carry as u128);
    proof {
        assert(ret == ((ret >> 64) as u64) * 0x1_0000_0000_0000_0000u128 + (ret as u64)
            && (ret >> 64) <= 0xffff_ffff_ffff_ffffu128) by (bit_vector);
    }
    (ret as u64, (ret >> 64) as u64)
}

} // verus!
