//! Lossless conversion between [`u32`] values and compact ASCII strings.
//!
//! Every 32-bit unsigned integer is assigned a unique string over the 62
//! symbols `0123456789abcdefghijklmnopqrstuvwxyzABCDEFGHIJKLMNOPQRSTUVWXYZ`,
//! read as digits of a base-62 positional numeral system with the
//! most-significant digit first. Low values get short strings, and a 32-bit
//! value never needs more than 6 symbols.
//!
//! The [`encoding`] module turns a number into its representation, the
//! [`decoding`] module turns a representation back into the number, and the
//! [`base62`] module holds the mathematical description of the numeral system
//! that both directions are proved against, together with the laws that
//! relate them (round-trip, minimal length, alphabet closure, length bounds).

pub mod base62;
pub mod decoding;
pub mod encoding;
