//! Threshold signatures and threshold encryption over the BLS12-381 pairing.
//!
//! A dealer samples a secret polynomial of degree `t` (`SecretKeySet`) and
//! publishes its commitment (`PublicKeySet`). Participant `i` holds the value
//! of the polynomial at `i + 1`; any `t + 1` signature or decryption shares
//! are combined by Lagrange interpolation at zero.
use vstd::prelude::*;

pub mod curve;
pub mod error;
pub mod hash;
pub mod hex;
pub mod interp;
pub mod keys;
pub mod laws;
pub mod poly;
pub mod wire;
