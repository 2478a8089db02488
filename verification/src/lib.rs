//! A polynomial commitment scheme built on the FRI low-degree test, over the
//! BabyBear field and its quartic extension.
//!
//! The crate holds the arithmetic core of the scheme: the canonical coset
//! tables, the inverse-denominator cache, the batched quotient construction,
//! the transcript order shared by prover and verifier, and the folding rule.
//! Hashing, the transcript itself and the FRI round loop belong to the caller.

pub mod field;
pub mod extension;
pub mod bits;
pub mod matrix;
pub mod coset;
pub mod folding;
pub mod denominators;
pub mod pcs;
pub mod quotient;
pub mod opening;
pub mod transcript;
