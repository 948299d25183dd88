//! Universal and strongly universal hash families, together with the
//! multi-limb arithmetic modulo the Mersenne primes `2^31 - 1`, `2^61 - 1`
//! and `2^89 - 1` that evaluates them.
//!
//! - [`model`] says what everything computes, on natural numbers and
//!   sequences.
//! - [`imp`] holds the hash families, the stream hashers and the limb
//!   arithmetic; [`modprime`], [`shift`], [`vec`] and [`string`] hold the
//!   variants with a hash of fixed width.
//! - [`laws`] proves what relates several of these; [`lemmas`] holds the
//!   arithmetic that the proofs rest on.
//! - [`bench`], [`fold`] and [`output`] prepare and run measurements.
pub mod bench;
pub mod fold;
pub mod imp;
pub mod laws;
pub mod lemmas;
pub mod model;
pub mod modprime;
pub mod output;
pub mod shift;
pub mod string;
pub mod vec;
