//! A bidirectional value bridge between a native arbitrary-precision decimal
//! representation and the decimal values of an embedded foreign interpreter.
//!
//! The bridge converts a [`decimal::NativeDecimal`] to a semantically
//! identical [`bridge::ForeignDecimal`] and back without losing precision,
//! scale, or sign. Finite values travel through their canonical decimal
//! text, the one lossless interchange channel between the two families;
//! exactly representable machine integers may take a fast integer path that
//! is proved equivalent to the textual path. Foreign values with no native
//! counterpart (NaN and the infinities) are rejected with a typed error.

pub mod model;
pub mod digits;
pub mod render;
pub mod decimal;
pub mod parse;
pub mod roundtrip;
pub mod bridge;
pub mod handle;
pub mod laws;
