//! Minimum and maximum of a sequence of 32-bit floating-point samples.
//!
//! Samples are handled as their IEEE-754 binary32 bit patterns, so that every
//! comparison is integer arithmetic that the verifier can follow. Four
//! reduction strategies are offered; each states the exact value it returns
//! and that this value is the range of its input.

pub mod bits;
pub mod extent;
pub mod lanes;
pub mod laws;
pub mod scalar;
pub mod strategies;

pub use scalar::{min_max_slice, range};
pub use strategies::{range_simd, range_simd_friendly, range_simd_intrinsics, range_simd_split};
