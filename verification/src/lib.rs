//! A verified codec for a fixed-layout binary wire format.
//!
//! Values are described by [`shape::Shape`] descriptors (fixed-width
//! integers, IEEE-754 bit patterns, booleans, unit, fixed-size arrays,
//! tuples, optionals, C-style enums, tagged unions, and UTF-8 text) and
//! carried as [`shape::Value`] trees. [`encode::encode`] maps a
//! conforming value to its canonical byte sequence; [`decode::decode`]
//! is its proved left inverse.

pub mod bytes;
pub mod decode;
pub mod encode;
pub mod laws;
pub mod shape;
pub mod utf8;
