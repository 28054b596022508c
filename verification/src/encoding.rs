//! Turning [`u32`] values into their base-62 string representation.
//!
//! [`encode`] builds a fresh [`String`]; [`push_encoded`] appends the
//! representation to a string the caller already owns. Both are proved to
//! produce exactly [`encoding_of`] the given value.

use crate::base62::{encoding_of, symbol_char};
use vstd::prelude::*;

verus! {

/// The error type for the encoding direction.
///
/// Encoding a [`u32`] cannot actually fail: every digit value handed to the
/// symbol mapping is proved to lie below 62, so the functions here are also
/// proved to always return `Ok`. The type exists defensively, as a typed
/// result for an internal-invariant violation, and is never produced.
#[derive(Debug)]
pub struct EncodingError {
    message: String,
}

impl EncodingError {
    /// The diagnostic text carried by this error.
    pub closed spec fn text(&self) -> Seq<char> {
        self.message@
    }

    fn new(problem: &'static str) -> (e: EncodingError)
        ensures
            e.text() == problem@,
    {
        EncodingError { message: problem.to_owned() }
    }

    /// The diagnostic text, for callers that report the error.
    pub fn message(&self) -> (m: &str)
        ensures
            m@ == self.text(),
    {
        self.message.as_str()
    }
}

/// Relies on `String::with_capacity`: a freshly created string is empty,
/// whatever capacity was reserved. It panics when the capacity exceeds
/// `isize::MAX` bytes, so such capacities are excluded.
#[verifier::external_body]
fn string_with_capacity(capacity: usize) -> (s: String)
    requires
        capacity <= isize::MAX as usize,
    ensures
        s@ == Seq::<char>::empty(),
{
    String::with_capacity(capacity)
}

/// Relies on `String::push`: it appends exactly the given character.
#[verifier::external_body]
fn push_char(s: &mut String, c: char)
    ensures
        final(s)@ == old(s)@.push(c),
{
    s.push(c);
}

/// The symbol standing for one base-62 digit value, or `None` for a value
/// no single symbol can express.
fn symbol_for(digit: u32) -> (r: Option<char>)
    ensures
        digit < 62 ==> r == Some(symbol_char(digit as nat)),
        digit >= 62 ==> r is None,
{
    if digit < 10 {
        Some((('0' as u8) + digit as u8) as char)
    } else if digit < 36 {
        Some((('a' as u8) + (digit - 10) as u8) as char)
    } else if digit < 62 {
        Some((('A' as u8) + (digit - 36) as u8) as char)
    } else {
        None
    }
}

/// Appends the base-62 representation of `value` to `prefix`.
///
/// The representation is emitted most-significant symbol first: the digits
/// of `value / 62` are appended before the symbol for `value % 62`. The
/// result is always `Ok`; the error exists only defensively, for a digit
/// value that no symbol could express, which is proved not to occur.
pub fn push_encoded(value: u32, prefix: &mut String) -> (r: Result<(), EncodingError>)
    ensures
        r is Ok,
        final(prefix)@ == old(prefix)@ + encoding_of(value as nat),
    decreases value,
{
    if value / 62 != 0 {
        match push_encoded(value / 62, prefix) {
            Ok(()) => {},
            Err(problem) => {
                return Err(problem);
            },
        }
    }
    let digit: u32 = value % 62;
    match symbol_for(digit) {
        Some(symbol) => {
            push_char(prefix, symbol);
            proof {
                if value < 62 {
                    assert(old(prefix)@ + encoding_of(value as nat) =~= old(prefix)@.push(
                        symbol_char(value as nat),
                    ));
                } else {
                    assert(old(prefix)@ + encoding_of(value as nat) =~= (old(prefix)@ + encoding_of(
                        (value / 62) as nat,
                    )).push(symbol_char((value % 62) as nat)));
                }
            }
            Ok(())
        },
        None => Err(
            EncodingError::new(
                "a digit value outside the base-62 range reached the symbol mapping",
            ),
        ),
    }
}

/// Creates the base-62 representation of `value` as a fresh [`String`].
///
/// `size`, when present, only pre-sizes the string's buffer; it neither
/// truncates nor pads the result, and it must stay within `isize::MAX`
/// bytes, the allocation layer's own cap, beyond which
/// `String::with_capacity` panics. When absent, room for the longest
/// possible representation of a [`u32`], 6 symbols, is reserved. The result
/// is always `Ok`: it holds exactly [`encoding_of`] the value, so `0`
/// encodes to `"0"` and every other value to its minimal-length
/// representation. The error exists only defensively and is never returned.
pub fn encode(value: u32, size: Option<usize>) -> (r: Result<String, EncodingError>)
    requires
        size matches Some(capacity) ==> capacity <= isize::MAX as usize,
    ensures
        r is Ok,
        r matches Ok(representation) ==> representation@ == encoding_of(value as nat),
{
    let mut new_value = match size {
        Some(provided_size) => string_with_capacity(provided_size),
        None => string_with_capacity(6),
    };
    match push_encoded(value, &mut new_value) {
        Err(problem) => Err(problem),
        Ok(()) => {
            proof {
                assert(new_value@ =~= encoding_of(value as nat));
            }
            Ok(new_value)
        },
    }
}

} // verus!
