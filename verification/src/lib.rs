//! Constant-time multi-precision finite-field arithmetic core.
//!
//! Two layers, leaves first: limb-level carry/borrow/multiply-accumulate
//! primitives (`limb`), and the capability contracts that any concrete
//! prime-field element type satisfies in order to reuse the generic
//! algorithms — random sampling, zero test, canonical serialization and
//! constant-time exponentiation (`fields`). The canonical byte encoding
//! is given meaning in `codec`, the constant-time selector bit in
//! `choice`, and a small verified reference field over the Mersenne
//! prime `2^61 - 1` lives in `fp61`.

pub mod choice;
pub mod codec;
pub mod fields;
pub mod fp61;
pub mod limb;
