//! The mathematical model of the base-62 numeral system.
//!
//! A digit value in `[0, 61]` is written as one symbol: `0`-`9` stand for
//! 0-9, `a`-`z` for 10-35 and `A`-`Z` for 36-61. A number is written with
//! its most-significant digit first, and 0 is written as the single symbol
//! `0` rather than as the empty string.
//!
//! [`encoding_of`] gives the representation of a value and [`value_of`] reads
//! a representation back; the proof functions below state the laws that tie
//! the two together.

use vstd::arithmetic::div_mod::{
    lemma_div_is_ordered, lemma_fundamental_div_mod, lemma_small_mod,
};
use vstd::arithmetic::mul::lemma_mul_inequality;
use vstd::arithmetic::power::{
    lemma_pow0, lemma_pow1, lemma_pow_adds, lemma_pow_increases, pow,
};
use vstd::prelude::*;

verus! {

/// The symbol standing for the digit value `d` of the base-62 system.
///
/// Meaningful for `d < 62`: `0`-`9` for 0-9, `a`-`z` for 10-35,
/// `A`-`Z` for 36-61.
pub open spec fn symbol_char(d: nat) -> char
    recommends
        d < 62,
{
    if d < 10 {
        ('0' as u8 + d) as char
    } else if d < 36 {
        ('a' as u8 + (d - 10)) as char
    } else {
        ('A' as u8 + (d - 36)) as char
    }
}

/// Whether `c` is one of the 62 symbols of the alphabet.
pub open spec fn is_symbol(c: char) -> bool {
    ('0' <= c && c <= '9') || ('a' <= c && c <= 'z') || ('A' <= c && c <= 'Z')
}

/// The digit value a symbol stands for.
///
/// Meaningful only when `is_symbol(c)` holds; other characters are mapped
/// to 0 but never reach this function in a proved context.
pub open spec fn symbol_value(c: char) -> nat {
    if '0' <= c && c <= '9' {
        (c as int - '0' as int) as nat
    } else if 'a' <= c && c <= 'z' {
        (c as int - 'a' as int + 10) as nat
    } else if 'A' <= c && c <= 'Z' {
        (c as int - 'A' as int + 36) as nat
    } else {
        0
    }
}

/// Whether every character of `s` is one of the 62 symbols.
pub open spec fn all_symbols(s: Seq<char>) -> bool {
    forall|i: int| 0 <= i < s.len() ==> is_symbol(#[trigger] s[i])
}

/// The base-62 representation of `v`, most-significant symbol first.
///
/// 0 is represented as the one-symbol sequence `0`; any other value gets
/// the minimal-length representation, with no leading zero symbol.
pub open spec fn encoding_of(v: nat) -> Seq<char>
    decreases v,
{
    if v < 62 {
        seq![symbol_char(v)]
    } else {
        encoding_of(v / 62).push(symbol_char(v % 62))
    }
}

/// The numeric value of `s` read as base-62 digits, most-significant first.
pub open spec fn value_of(s: Seq<char>) -> nat
    decreases s.len(),
{
    if s.len() == 0 {
        0
    } else {
        value_of(s.drop_last()) * 62 + symbol_value(s.last())
    }
}

/// The number of base-62 digits in the representation of `v`.
pub open spec fn rep_len(v: nat) -> nat
    decreases v,
{
    if v < 62 {
        1
    } else {
        1 + rep_len(v / 62)
    }
}

/// Each digit value below 62 is written as a symbol of the alphabet, and
/// reading that symbol back yields the same digit value.
pub proof fn lemma_symbol_of_digit(d: nat)
    requires
        d < 62,
    ensures
        is_symbol(symbol_char(d)),
        symbol_value(symbol_char(d)) == d,
{
}

/// Round trip: reading the representation of a value back as base-62
/// digits recovers exactly that value, for every natural number.
pub proof fn lemma_round_trip(v: nat)
    ensures
        value_of(encoding_of(v)) == v,
    decreases v,
{
    if v < 62 {
        lemma_symbol_of_digit(v);
        let s = encoding_of(v);
        assert(s.drop_last() =~= Seq::<char>::empty());
        assert(s.last() == symbol_char(v));
        assert(value_of(s) == value_of(s.drop_last()) * 62 + symbol_value(s.last()));
    } else {
        lemma_round_trip(v / 62);
        lemma_symbol_of_digit(v % 62);
        let s = encoding_of(v);
        assert(s.drop_last() =~= encoding_of(v / 62));
        assert(s.last() == symbol_char(v % 62));
        assert(value_of(s) == value_of(s.drop_last()) * 62 + symbol_value(s.last()));
        lemma_fundamental_div_mod(v as int, 62);
    }
}

/// Round trip at the codec's width: the representation of a [`u32`] is
/// made of alphabet symbols only, so decoding cannot reject it, and the
/// value it spells, reduced modulo 2^32 as decoding does, is exactly the
/// value that was encoded.
pub proof fn lemma_round_trip_u32(v: u32)
    ensures
        all_symbols(encoding_of(v as nat)),
        value_of(encoding_of(v as nat)) % 0x1_0000_0000 == v as nat,
{
    lemma_round_trip(v as nat);
    lemma_all_symbols(v as nat);
    lemma_small_mod(v as nat, 0x1_0000_0000);
}

/// Canonical zero: 0 is represented by the single symbol `0`, never by
/// the empty string.
pub proof fn lemma_canonical_zero()
    ensures
        encoding_of(0) =~= seq!['0'],
        encoding_of(0).len() == 1,
{
}

/// Alphabet closure: every character of a representation is one of the
/// 62 symbols.
pub proof fn lemma_all_symbols(v: nat)
    ensures
        all_symbols(encoding_of(v)),
    decreases v,
{
    if v < 62 {
        lemma_symbol_of_digit(v);
    } else {
        lemma_all_symbols(v / 62);
        lemma_symbol_of_digit(v % 62);
        let front = encoding_of(v / 62);
        let s = encoding_of(v);
        assert forall|i: int| 0 <= i < s.len() implies is_symbol(#[trigger] s[i]) by {
            if i < front.len() {
                assert(s[i] == front[i]);
            }
        }
    }
}

/// A representation has exactly [`rep_len`] symbols, and is never empty.
pub proof fn lemma_encoding_len(v: nat)
    ensures
        encoding_of(v).len() == rep_len(v),
        encoding_of(v).len() >= 1,
    decreases v,
{
    if v >= 62 {
        lemma_encoding_len(v / 62);
    }
}

/// Minimal length: the representation of a nonzero value never starts
/// with the zero symbol.
pub proof fn lemma_no_leading_zero(v: nat)
    requires
        v > 0,
    ensures
        encoding_of(v).first() != '0',
    decreases v,
{
    if v < 62 {
        lemma_symbol_of_digit(v);
        if symbol_char(v) == '0' {
            assert(symbol_value('0') == 0);
        }
    } else {
        lemma_no_leading_zero(v / 62);
        lemma_encoding_len(v / 62);
        assert(encoding_of(v).first() == encoding_of(v / 62).first());
    }
}

/// Monotonic length: the representation never gets shorter as the value
/// grows.
pub proof fn lemma_length_monotonic(v1: nat, v2: nat)
    requires
        v1 <= v2,
    ensures
        encoding_of(v1).len() <= encoding_of(v2).len(),
    decreases v2,
{
    lemma_encoding_len(v1);
    lemma_encoding_len(v2);
    lemma_rep_len_monotonic(v1, v2);
}

/// Monotonicity of [`rep_len`]: a larger value needs at least as many
/// digits.
pub proof fn lemma_rep_len_monotonic(v1: nat, v2: nat)
    requires
        v1 <= v2,
    ensures
        rep_len(v1) <= rep_len(v2),
    decreases v2,
{
    if v2 >= 62 {
        if v1 < 62 {
            lemma_rep_len_at_least_one(v2);
        } else {
            lemma_div_is_ordered(v1 as int, v2 as int, 62);
            lemma_rep_len_monotonic(v1 / 62, v2 / 62);
        }
    }
}

/// Every representation has at least one digit.
pub proof fn lemma_rep_len_at_least_one(v: nat)
    ensures
        rep_len(v) >= 1,
    decreases v,
{
}

/// Exact length: a nonzero value `v` takes exactly `floor(log62(v)) + 1`
/// digits, stated here as the bracketing of `v` between two powers of 62.
pub proof fn lemma_length_exact(v: nat)
    requires
        v > 0,
    ensures
        pow(62, (rep_len(v) - 1) as nat) <= v,
        v < pow(62, rep_len(v)),
    decreases v,
{
    if v < 62 {
        lemma_pow0(62);
        lemma_pow1(62);
    } else {
        lemma_length_exact(v / 62);
        lemma_rep_len_at_least_one(v / 62);
        let l = rep_len(v / 62);
        lemma_fundamental_div_mod(v as int, 62);
        // v == 62 * (v / 62) + v % 62, with 0 <= v % 62 < 62.
        lemma_mul_inequality(pow(62, (l - 1) as nat), (v / 62) as int, 62);
        assert(pow(62, l) == 62 * pow(62, (l - 1) as nat)) by {
            lemma_pow_adds(62, 1, (l - 1) as nat);
            lemma_pow1(62);
        }
        lemma_mul_inequality((v / 62) as int, pow(62, l) - 1, 62);
        assert(pow(62, (l + 1) as nat) == 62 * pow(62, l)) by {
            lemma_pow_adds(62, 1, l);
            lemma_pow1(62);
        }
    }
}

/// Maximum length: a 32-bit value never needs more than 6 symbols.
pub proof fn lemma_max_length(v: u32)
    ensures
        encoding_of(v as nat).len() <= 6,
{
    lemma_encoding_len(v as nat);
    if v > 0 {
        lemma_length_exact(v as nat);
        if rep_len(v as nat) > 6 {
            assert(pow(62, 6) == 56800235584) by {
                lemma_pow1(62);
                reveal_with_fuel(pow, 7);
            }
            assert(pow(62, (rep_len(v as nat) - 1) as nat) >= pow(62, 6)) by {
                lemma_pow_increases(62, 6, (rep_len(v as nat) - 1) as nat);
            }
        }
    }
}

} // verus!
