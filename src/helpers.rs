//! Parsers for command-line values, and a small chaining utility.
use vstd::prelude::*;

use crate::text::{
    all_digits, chars_of, digits_value, is_digit, parse_u16_hex, parse_u64, starts_with,
    starts_with_spec, string_from_chars, unsigned_value,
};

verus! {

/// Why a textual value was rejected.
#[derive(Debug, Clone, Copy, PartialEq, Eq, Structural)]
pub enum ParseError {
    /// Text that is not a decimal number of the expected type.
    InvalidNumber,
    /// A hexadecimal value that does not start with `0x`.
    MissingHexPrefix,
    /// Text after `0x` that is not a hexadecimal number of the expected type.
    InvalidHex,
    /// A monitor configuration entry without exactly three `:`-separated fields.
    WrongFieldCount,
}

/// Runs `f` on a value for its side effect and hands the value back, so that
/// the call can stand in the middle of a chain.
pub trait Also {
    fn also<F: FnOnce(&Self)>(&self, f: F) -> (r: &Self)
        requires
            f.requires((self,)),
        ensures
            r == self,
            f.ensures((self,), ()),
    ;
}

impl<T> Also for T {
    fn also<F: FnOnce(&Self)>(&self, f: F) -> (r: &Self) {
        f(self);
        self
    }
}

/// A settle interval in milliseconds: an optional `+` and decimal digits that fit in `u64`.
pub open spec fn duration_spec(s: Seq<char>) -> Result<u64, ParseError> {
    match unsigned_value(s, 10, 0xffff_ffff_ffff_ffff) {
        Some(v) => Ok(v as u64),
        None => Err(ParseError::InvalidNumber),
    }
}

/// Parses a duration given as a whole number of milliseconds.
pub fn parse_duration(arg: &str) -> (r: Result<u64, ParseError>)
    ensures
        r == duration_spec(arg@),
{
    match parse_u64(arg) {
        Some(ms) => Ok(ms),
        None => Err(ParseError::InvalidNumber),
    }
}

/// The hexadecimal prefix.
pub open spec fn hex_prefix() -> Seq<char> {
    seq!['0', 'x']
}

/// A 16-bit value written as `0x` followed by one or more hexadecimal digits
/// of either case, and nothing else.
pub open spec fn hex_u16_spec(s: Seq<char>) -> Result<u16, ParseError> {
    if !starts_with_spec(s, hex_prefix()) {
        Err(ParseError::MissingHexPrefix)
    } else if all_digits(s.skip(2), 16) && digits_value(s.skip(2), 16) <= 0xffff {
        Ok(digits_value(s.skip(2), 16) as u16)
    } else {
        Err(ParseError::InvalidHex)
    }
}

fn is_hex_digit(c: char) -> (r: bool)
    ensures
        r == is_digit(c, 16),
{
    ('0' <= c && c <= '9') || ('a' <= c && c <= 'f') || ('A' <= c && c <= 'F')
}

/// Integers that can be read from `0x`-prefixed hexadecimal text.
pub trait IntegerFromHexString<T>: Sized {
    /// What `from_hex_string` gives for the text `s`.
    spec fn hex_spec(s: Seq<char>) -> Result<T, ParseError>;

    fn from_hex_string(input: &str) -> (r: Result<T, ParseError>)
        ensures
            r == Self::hex_spec(input@),
    ;
}

impl IntegerFromHexString<u16> for u16 {
    open spec fn hex_spec(s: Seq<char>) -> Result<u16, ParseError> {
        hex_u16_spec(s)
    }

    fn from_hex_string(input: &str) -> (r: Result<u16, ParseError>) {
        let cs = chars_of(input);
        let prefix: Vec<char> = vec!['0', 'x'];
        assert(prefix@ =~= hex_prefix());
        if !starts_with(&cs, &prefix) {
            return Err(ParseError::MissingHexPrefix);
        }
        let mut digits: Vec<char> = Vec::new();
        let mut k: usize = 2;
        while k < cs.len()
            invariant
                2 <= k <= cs.len(),
                cs@ == input@,
                starts_with_spec(cs@, hex_prefix()),
                digits@ == cs@.subrange(2, k as int),
                forall|j: int| 0 <= j < digits.len() ==> is_digit(#[trigger] digits@[j], 16),
            decreases cs.len() - k,
        {
            if !is_hex_digit(cs[k]) {
                assert(cs@.skip(2)[k - 2] == cs@[k as int]);
                assert(!is_digit(cs@.skip(2)[k - 2], 16));
                assert(!all_digits(cs@.skip(2), 16));
                return Err(ParseError::InvalidHex);
            }
            digits.push(cs[k]);
            k = k + 1;
        }
        assert(digits@ =~= cs@.skip(2));
        if digits.len() == 0 {
            return Err(ParseError::InvalidHex);
        }
        assert(digits@[0] != '+');
        assert(all_digits(cs@.skip(2), 16));
        let text = string_from_chars(&digits);
        match parse_u16_hex(text.as_str()) {
            Some(v) => Ok(v),
            None => Err(ParseError::InvalidHex),
        }
    }
}

} // verus!
