//! Conversions between bytes, text and characters, taken from std.
use vstd::prelude::*;
use vstd::utf8::{decode_utf8, valid_utf8};

verus! {

/// Relies on `std::str::from_utf8`: it accepts exactly the valid UTF-8 byte
/// sequences, and the text it returns is their decoding.
#[verifier::external_body]
pub(crate) fn text_of<'a>(raw: &'a [u8]) -> (r: Option<&'a str>)
    ensures
        r is Some <==> valid_utf8(raw@),
        r matches Some(t) ==> t@ == decode_utf8(raw@),
{
    std::str::from_utf8(raw).ok()
}

/// Relies on `str::chars`: it yields the characters of the text in order.
#[verifier::external_body]
pub(crate) fn chars_of(s: &str) -> (r: Vec<char>)
    ensures
        r@ == s@,
{
    s.chars().collect()
}

/// Relies on `String: FromIterator<char>`: the string holds the characters in order.
#[verifier::external_body]
pub(crate) fn string_of(cs: &[char]) -> (r: String)
    ensures
        r@ == cs@,
{
    cs.iter().collect()
}

} // verus!
