//! The canonical byte encoding of field elements: little-endian, fixed
//! length. These spec functions give the mathematical meaning of the
//! encoding; the capability contracts in `fields` state serialization and
//! deserialization in terms of them.
use vstd::arithmetic::div_mod::{
    lemma_div_pos_is_pos, lemma_fundamental_div_mod, lemma_mod_bound, lemma_multiply_divide_lt,
};
use vstd::arithmetic::power::{lemma_pow0, lemma_pow1, lemma_pow_adds, lemma_pow_positive, pow};
use vstd::arithmetic::power2::{lemma2_to64, lemma_pow2, pow2};
use vstd::prelude::*;

verus! {

/// The integer a byte sequence represents when read as a little-endian
/// base-256 numeral.
pub open spec fn le_bytes_to_nat(bytes: Seq<u8>) -> nat
    decreases bytes.len(),
{
    if bytes.len() == 0 {
        0
    } else {
        (bytes[0] + 256 * le_bytes_to_nat(bytes.skip(1))) as nat
    }
}

/// The canonical little-endian encoding of `v` in exactly `n` bytes.
pub open spec fn nat_to_le_bytes(v: nat, n: nat) -> Seq<u8>
    decreases n,
{
    if n == 0 {
        Seq::empty()
    } else {
        seq![(v % 256) as u8] + nat_to_le_bytes(v / 256, (n - 1) as nat)
    }
}

/// One byte is eight bits: `256^k` is `2^(8k)`.
pub proof fn lemma_pow256_is_pow2(k: nat)
    ensures
        pow(256, k) == pow2((8 * k) as nat),
{
    lemma_pow2(8);
    lemma2_to64();
    vstd::arithmetic::power::lemma_pow_multiplies(2, 8, k);
    lemma_pow2((8 * k) as nat);
}

/// The canonical encoding has exactly the requested length.
pub proof fn lemma_nat_to_le_bytes_len(v: nat, n: nat)
    ensures
        nat_to_le_bytes(v, n).len() == n,
    decreases n,
{
    if n > 0 {
        lemma_nat_to_le_bytes_len(v / 256, (n - 1) as nat);
    }
}

/// Round trip of the canonical encoding: any integer small enough to fit
/// in `n` bytes is recovered exactly from its `n`-byte little-endian form.
/// Together with the `write` and `read` contracts of the base field
/// capability this is what makes `read(write(x)) == x` hold for every
/// field element `x`.
pub proof fn lemma_le_bytes_round_trip(v: nat, n: nat)
    requires
        v < pow(256, n),
    ensures
        le_bytes_to_nat(nat_to_le_bytes(v, n)) == v,
    decreases n,
{
    if n == 0 {
        lemma_pow0(256);
    } else {
        let rest = nat_to_le_bytes(v / 256, (n - 1) as nat);
        let enc = nat_to_le_bytes(v, n);
        assert(enc == seq![(v % 256) as u8] + rest);
        lemma_nat_to_le_bytes_len(v / 256, (n - 1) as nat);
        assert(enc.skip(1) =~= rest);
        assert(pow(256, n) == 256 * pow(256, (n - 1) as nat)) by {
            lemma_pow1(256);
            lemma_pow_adds(256, 1, (n - 1) as nat);
        }
        lemma_pow_positive(256, (n - 1) as nat);
        lemma_multiply_divide_lt(v as int, 256, pow(256, (n - 1) as nat));
        lemma_le_bytes_round_trip(v / 256, (n - 1) as nat);
        lemma_fundamental_div_mod(v as int, 256);
        lemma_mod_bound(v as int, 256);
        lemma_div_pos_is_pos(v as int, 256);
        assert(le_bytes_to_nat(enc) == v % 256 + 256 * (v / 256));
    }
}

/// Canonical encodings are unique: two integers that fit in `n` bytes
/// and share an encoding are the same integer. For field elements this
/// is the invariant that two elements are mathematically equal exactly
/// when their canonical encodings are bit-identical.
pub proof fn lemma_encoding_injective(v1: nat, v2: nat, n: nat)
    requires
        v1 < pow(256, n),
        v2 < pow(256, n),
        nat_to_le_bytes(v1, n) == nat_to_le_bytes(v2, n),
    ensures
        v1 == v2,
{
    lemma_le_bytes_round_trip(v1, n);
    lemma_le_bytes_round_trip(v2, n);
}

} // verus!
