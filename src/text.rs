//! Decimal and hexadecimal text: the spec model and the parsers the protocol uses.
use alloy_primitives::{Address as AlloyAddress, U256};
use crate::wei::{limbs_value, wei_limit, Wei};
use std::str::FromStr;
use vstd::prelude::*;
use vstd::string::*;

verus! {

/// Whether `c` is one of `0`..`9`.
pub open spec fn is_digit(c: char) -> bool {
    '0' <= c && c <= '9'
}

/// Whether every character of `s` is a decimal digit.
pub open spec fn all_digits(s: Seq<char>) -> bool {
    forall|i: int| 0 <= i < s.len() ==> is_digit(#[trigger] s[i])
}

/// The value of a decimal digit character.
pub open spec fn digit_value(c: char) -> nat {
    (c as int - '0' as int) as nat
}

/// The number that a string of decimal digits stands for (most significant first).
pub open spec fn digits_value(s: Seq<char>) -> nat
    decreases s.len(),
{
    if s.len() == 0 {
        0
    } else {
        digits_value(s.drop_last()) * 10 + digit_value(s.last())
    }
}

/// The character of a decimal digit `d < 10`.
pub open spec fn digit_char(d: nat) -> char {
    if d == 0 { '0' } else if d == 1 { '1' } else if d == 2 { '2' } else if d == 3 { '3' }
    else if d == 4 { '4' } else if d == 5 { '5' } else if d == 6 { '6' } else if d == 7 { '7' }
    else if d == 8 { '8' } else { '9' }
}

/// The decimal notation of `n`, without leading zeros.
pub open spec fn decimal(n: nat) -> Seq<char>
    decreases n,
{
    if n < 10 {
        seq![digit_char(n)]
    } else {
        decimal(n / 10).push(digit_char(n % 10))
    }
}

/// Whether `c` is a hexadecimal digit of either case.
pub open spec fn is_hex_digit(c: char) -> bool {
    ('0' <= c && c <= '9') || ('a' <= c && c <= 'f') || ('A' <= c && c <= 'F')
}

/// The value of a hexadecimal digit character.
pub open spec fn hex_value(c: char) -> nat {
    if '0' <= c && c <= '9' {
        (c as int - '0' as int) as nat
    } else if 'a' <= c && c <= 'f' {
        (c as int - 'a' as int + 10) as nat
    } else {
        (c as int - 'A' as int + 10) as nat
    }
}

/// `s` without a leading `0x` or `0X`.
pub open spec fn strip_hex_prefix(s: Seq<char>) -> Seq<char> {
    if s.len() >= 2 && s[0] == '0' && (s[1] == 'x' || s[1] == 'X') {
        s.skip(2)
    } else {
        s
    }
}

/// Whether `s` is an account address: forty hex digits, with an optional `0x`.
pub open spec fn is_address_text(s: Seq<char>) -> bool {
    let t = strip_hex_prefix(s);
    t.len() == 40 && forall|i: int| 0 <= i < 40 ==> is_hex_digit(#[trigger] t[i])
}

/// The twenty bytes that an address text spells, two hex digits each.
pub open spec fn address_bytes(s: Seq<char>) -> Seq<u8> {
    let t = strip_hex_prefix(s);
    Seq::new(20, |i: int| (hex_value(t[2 * i]) * 16 + hex_value(t[2 * i + 1])) as u8)
}

/// A 20-byte account identifier, compared byte for byte.
#[derive(Clone, Copy, Debug)]
pub struct Address {
    pub bytes: [u8; 20],
}

impl Address {
    /// Parses an address: forty hex digits of either case, optionally after `0x`.
    pub fn parse(s: &str) -> (r: Option<Address>)
        ensures
            r is Some <==> is_address_text(s@),
            r matches Some(a) ==> a.bytes@ == address_bytes(s@),
    {
        match parse_address_bytes(s) {
            Some(b) => Some(Address { bytes: b }),
            None => None,
        }
    }
}

/// Relies on alloy-primitives' `Address::from_str`, which decodes with
/// const-hex's `decode_to_array`: an optional `0x`/`0X`, then exactly forty
/// hex digits of either case, two per byte; anything else is an error.
#[verifier::external_body]
fn parse_address_bytes(s: &str) -> (r: Option<[u8; 20]>)
    ensures
        r is Some <==> is_address_text(s@),
        r matches Some(b) ==> b@ == address_bytes(s@),
{
    AlloyAddress::from_str(s).ok().map(|a| a.0 .0)
}

/// Relies on ruint's `FromStr` for `Uint`: a string of decimal digits parses
/// to its value where that fits in 256 bits and is an overflow error otherwise.
#[verifier::external_body]
fn parse_u256(s: &str) -> (r: Option<[u64; 4]>)
    ensures
        all_digits(s@) ==> (r is Some <==> digits_value(s@) < wei_limit()),
        all_digits(s@) ==> (r matches Some(l) ==> limbs_value(l) == digits_value(s@)),
{
    U256::from_str(s).ok().map(U256::into_limbs)
}

/// Relies on ruint's `Display` for `Uint`: the decimal notation of the value.
#[verifier::external_body]
fn u256_to_decimal(l: [u64; 4]) -> (r: String)
    ensures
        r@ == decimal(limbs_value(l)),
{
    U256::from_limbs(l).to_string()
}

/// Relies on `String::push`: appends one character.
#[verifier::external_body]
pub(crate) fn push_char(s: &mut String, c: char)
    ensures
        final(s)@ == old(s)@.push(c),
{
    s.push(c)
}

/// Whether every character of `s` is a decimal digit.
pub fn is_decimal_text(s: &str) -> (r: bool)
    ensures
        r == all_digits(s@),
{
    let n = s.unicode_len();
    let mut i: usize = 0;
    while i < n
        invariant
            n == s@.len(),
            i <= n,
            forall|j: int| 0 <= j < i ==> is_digit(#[trigger] s@[j]),
        decreases n - i,
    {
        let c = s.get_char(i);
        if !('0' <= c && c <= '9') {
            return false;
        }
        i = i + 1;
    }
    true
}

impl Wei {
    /// Parses a wei amount written as a nonempty string of decimal digits.
    pub fn parse_decimal(s: &str) -> (r: Option<Wei>)
        ensures
            r is Some <==> (s@.len() > 0 && all_digits(s@) && digits_value(s@) < wei_limit()),
            r matches Some(w) ==> w.value() == digits_value(s@),
    {
        if s.unicode_len() == 0 || !is_decimal_text(s) {
            return None;
        }
        match parse_u256(s) {
            Some(l) => Some(Wei { limbs: l }),
            None => None,
        }
    }

    /// The amount in decimal notation.
    pub fn to_decimal(&self) -> (r: String)
        ensures
            r@ == decimal(self.value()),
    {
        u256_to_decimal(self.limbs)
    }
}

} // verus!
