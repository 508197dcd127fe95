//! A one-bit selector for constant-time operations.
//!
//! The constant-time contracts of the field capabilities (equality test,
//! conditional assignment during exponentiation) speak of a 0/1 choice
//! rather than of `bool`, so that implementations can keep the selector in
//! full-word masked form and never branch on it. This type is that
//! selector at the interface: a byte that is always 0 or 1.
use vstd::prelude::*;

verus! {

/// A selector bit: set (1) or cleared (0).
#[derive(Clone, Copy, Debug)]
pub struct Choice {
    bit: u8,
}

impl Choice {
    #[verifier::type_invariant]
    spec fn inv(self) -> bool {
        self.bit <= 1
    }

    /// Whether this choice selects the alternative.
    pub closed spec fn is_set(&self) -> bool {
        self.bit == 1
    }

    /// Branch-free construction from the low bit of a mask word: the
    /// higher bits are ignored.
    pub fn from_lsb(mask: u8) -> (r: Choice)
        ensures
            r.is_set() <==> mask & 1 == 1,
    {
        proof {
            assert(mask & 1 <= 1) by (bit_vector);
        }
        Choice { bit: mask & 1 }
    }

    /// Construction from an ordinary boolean. This branches on its
    /// argument, so it is for public conditions only, never for a secret.
    pub fn from_bool(b: bool) -> (r: Choice)
        ensures
            r.is_set() <==> b,
    {
        Choice { bit: if b { 1 } else { 0 } }
    }

    /// The selector as a byte, 1 when set and 0 when cleared.
    pub fn unwrap_u8(&self) -> (r: u8)
        ensures
            r == if self.is_set() {
                1u8
            } else {
                0u8
            },
    {
        proof {
            use_type_invariant(&*self);
        }
        self.bit
    }
}

} // verus!
