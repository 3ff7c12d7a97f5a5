//! A dependency-light engine that parses JSON (RFC 8259 / ECMA-404) and CSV
//! (RFC 4180) text into one unified in-memory value representation, and
//! serializes that representation back to text.
//!
//! The shared vocabulary is [`mawu_value::MawuValue`], a tagged union covering
//! scalars, JSON arrays and objects, and the two CSV table shapes. The parsers
//! live under [`lexers`], the serializers under [`serializers`], and every
//! failure is a variant of [`errors::MawuError`].
//!
//! Floats are carried as the IEEE-754 bit pattern of the 64-bit value, so the
//! host's double semantics decide numeric range exactly as its own parser and
//! formatter do.

pub mod convert;
pub mod errors;
pub mod laws;
pub mod lexers;
pub mod mawu_value;
pub mod model;
pub mod numbers;
pub mod serializers;
pub mod utils;
