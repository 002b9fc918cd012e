//! A verified CSIDH core: commutative supersingular-isogeny key exchange
//! over a prime field p = 4 * (l_1 ... l_n) - 1 of up to 63 bits.
//!
//! The crate is layered as the mathematics is: a model of arithmetic modulo
//! a prime and the prime field itself, elliptic curves in Weierstrass form
//! with affine point arithmetic, x-only Montgomery arithmetic on the Kummer
//! line, and on top of those the supersingularity oracle, the Vélu isogeny
//! and the class-group-action drivers that realize the key exchange.

pub mod mod_arith;
pub mod finite_fields;
pub mod elliptic_curves;
pub mod fp_elliptic_curves;
pub mod csidh;
mod rng;
