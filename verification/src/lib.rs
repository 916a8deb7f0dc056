//! Exact arithmetic over three nested integer composition algebras:
//! rank-2 Gaussian integers, rank-4 Hurwitz-style quaternions and rank-8
//! octonions, with Euclidean division, gcd, fractions, unit normalization
//! and a batch layer that reproduces the scalar results exactly.
pub mod cint;
pub mod cmodel;
pub mod hint;
pub mod hmodel;
pub mod lattice;
pub mod num_utils;
pub mod oint;
pub mod simd_engine;
pub mod simd_lattice;
pub mod omodel;

pub use cint::{CIFraction, CInt, CIntError};
pub use hint::{HIFraction, HInt, HIntError};
pub use num_utils::integer_gcd;
pub use oint::{multiply_basis, OIFraction, OInt, OIntError};
pub use simd_lattice::LatticeSimd;
