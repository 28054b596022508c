//! Turning base-62 string representations back into [`u32`] values.
//!
//! [`decode`] reads the characters yielded by a [`Chars`] iterator as
//! base-62 digits, most-significant first, and is proved to recover exactly
//! the value those digits spell, reduced modulo 2^32.

use crate::base62::{all_symbols, is_symbol, symbol_value, value_of};
use std::str::Chars;
use vstd::arithmetic::div_mod::{lemma_add_mod_noop, lemma_mul_mod_noop_left, lemma_small_mod};
use vstd::prelude::*;
use vstd::std_specs::iter::IteratorSpec;

verus! {

/// The error type for the decoding direction.
///
/// Unlike its encoding counterpart this error is reachable: it is returned
/// exactly when the input contains a character that is not one of the 62
/// symbols `0`-`9`, `a`-`z`, `A`-`Z`.
#[derive(Debug)]
pub struct DecodingError {
    message: String,
}

impl DecodingError {
    /// The diagnostic text carried by this error.
    pub closed spec fn text(&self) -> Seq<char> {
        self.message@
    }

    fn new(problem: &'static str) -> (e: DecodingError)
        ensures
            e.text() == problem@,
    {
        DecodingError { message: problem.to_owned() }
    }

    /// The diagnostic text, for callers that report the error.
    pub fn message(&self) -> (m: &str)
        ensures
            m@ == self.text(),
    {
        self.message.as_str()
    }
}

/// The base-62 digit value of one character, or `None` for a character
/// outside the alphabet.
fn digit_for(c: char) -> (r: Option<u32>)
    ensures
        is_symbol(c) ==> r == Some(symbol_value(c) as u32),
        !is_symbol(c) ==> r is None,
{
    let scalar: u32 = c as u32;
    if '0' as u32 <= scalar && scalar <= '9' as u32 {
        Some(scalar - '0' as u32)
    } else if 'a' as u32 <= scalar && scalar <= 'z' as u32 {
        Some(scalar - 'a' as u32 + 10)
    } else if 'A' as u32 <= scalar && scalar <= 'Z' as u32 {
        Some(scalar - 'A' as u32 + 36)
    } else {
        None
    }
}

/// Reads the characters of `written` as base-62 digits, most-significant
/// first, and returns the value they spell.
///
/// An empty input decodes to 0; note the asymmetry with encoding, which
/// writes 0 as `"0"`, never as the empty string. An input spelling a value
/// of 2^32 or more does not fail: the value wraps, and the result is the
/// spelled value reduced modulo 2^32. The error is returned exactly when
/// some character of the input is outside the 62-symbol alphabet.
///
/// The iterator must carry a termination measure, as every iterator made
/// by `str::chars` does.
pub fn decode(written: Chars<'_>) -> (r: Result<u32, DecodingError>)
    requires
        written.decrease() is Some,
    ensures
        r is Ok <==> all_symbols(written.remaining()),
        r matches Ok(total) ==> total as nat == value_of(written.remaining()) % 0x1_0000_0000,
        r matches Err(problem) ==> problem.text()
            == "characters in the string passed to decode should only contain characters 0-9, a-z, and/or Z-A"@,
{
    let ghost all: Seq<char> = written.remaining();
    let ghost mut seen: Seq<char> = Seq::empty();
    let mut rest = written;
    let mut total: u32 = 0;
    loop
        invariant
            rest.obeys_prophetic_iter_laws(),
            rest.decrease() is Some,
            all == written.remaining(),
            all == seen + rest.remaining(),
            all_symbols(seen),
            total as nat == value_of(seen) % 0x1_0000_0000,
        decreases rest.decrease()->0,
    {
        match rest.next() {
            None => {
                proof {
                    assert(all =~= seen);
                }
                return Ok(total);
            },
            Some(digit) => {
                match digit_for(digit) {
                    None => {
                        proof {
                            assert(all[seen.len() as int] == digit);
                            assert(!all_symbols(all)) by {
                                assert(!is_symbol(all[seen.len() as int]));
                            }
                        }
                        return Err(
                            DecodingError::new(
                                "characters in the string passed to decode should only contain characters 0-9, a-z, and/or Z-A",
                            ),
                        );
                    },
                    Some(digit_value) => {
                        let widened: u64 = (total as u64) * 62 + (digit_value as u64);
                        total = (widened % 0x1_0000_0000u64) as u32;
                        proof {
                            let prev = seen;
                            let value = value_of(prev) as int;
                            let contribution = symbol_value(digit) as int;
                            seen = seen.push(digit);
                            assert(all =~= seen + rest.remaining());
                            assert(seen.drop_last() =~= prev);
                            assert(value_of(seen) == value_of(prev) * 62 + symbol_value(digit));
                            lemma_small_mod(symbol_value(digit), 0x1_0000_0000);
                            lemma_mul_mod_noop_left(value, 62, 0x1_0000_0000);
                            lemma_add_mod_noop(value * 62, contribution, 0x1_0000_0000);
                            lemma_add_mod_noop((value % 0x1_0000_0000) * 62, contribution, 0x1_0000_0000);
                        }
                    },
                }
            },
        }
    }
}

} // verus!
