//! Percent-encoding, through the `urlencoding` crate, with its behaviour
//! stated byte by byte.
use vstd::prelude::*;
use vstd::utf8::*;
use crate::text::to_chars;

verus! {

pub open spec fn is_hex_byte(b: u8) -> bool {
    (0x30 <= b && b <= 0x39) || (0x41 <= b && b <= 0x46) || (0x61 <= b && b <= 0x66)
}

pub open spec fn hex_byte_value(b: u8) -> int {
    if 0x30 <= b && b <= 0x39 {
        b - 0x30
    } else if 0x41 <= b && b <= 0x46 {
        b - 0x41 + 10
    } else {
        b - 0x61 + 10
    }
}

/// Each `%` followed by two hex digits replaced by the byte they spell; every
/// other byte, a lone `%` included, kept as it is.
pub open spec fn percent_decoded(b: Seq<u8>) -> Seq<u8>
    decreases b.len(),
{
    if b.len() == 0 {
        Seq::empty()
    } else if b[0] == 0x25 && b.len() >= 3 && is_hex_byte(b[1]) && is_hex_byte(b[2]) {
        seq![(hex_byte_value(b[1]) * 16 + hex_byte_value(b[2])) as u8] + percent_decoded(
            b.skip(3),
        )
    } else {
        seq![b[0]] + percent_decoded(b.skip(1))
    }
}

/// The text that percent-decoding `s` gives, or `s` itself where the decoded
/// bytes are not UTF-8.
pub open spec fn lossy_decoded(s: Seq<char>) -> Seq<char> {
    let d = percent_decoded(encode_utf8(s));
    if valid_utf8(d) {
        decode_utf8(d)
    } else {
        s
    }
}

/// ASCII letters and digits and `-`, `.`, `_`, `~`.
pub open spec fn is_unreserved(b: u8) -> bool {
    (0x30 <= b && b <= 0x39) || (0x41 <= b && b <= 0x5a) || (0x61 <= b && b <= 0x7a) || b
        == 0x2d || b == 0x2e || b == 0x5f || b == 0x7e
}

pub open spec fn upper_hex_digit(n: int) -> char {
    if n < 10 {
        (n + 0x30) as char
    } else {
        (n - 10 + 0x41) as char
    }
}

/// Unreserved bytes kept; every other byte written `%XY` in upper-case hex.
pub open spec fn percent_encoded(b: Seq<u8>) -> Seq<char>
    decreases b.len(),
{
    if b.len() == 0 {
        Seq::empty()
    } else {
        let head = if is_unreserved(b[0]) {
            seq![b[0] as char]
        } else {
            seq!['%', upper_hex_digit(b[0] as int / 16), upper_hex_digit(b[0] as int % 16)]
        };
        head + percent_encoded(b.skip(1))
    }
}

/// Relies on `urlencoding::decode`: percent-decodes the UTF-8 bytes of `s`
/// and fails exactly when the result is not UTF-8.
#[verifier::external_body]
fn percent_decode(s: &str) -> (r: Option<String>)
    ensures
        match r {
            Some(t) => valid_utf8(percent_decoded(encode_utf8(s@))) && encode_utf8(t@)
                == percent_decoded(encode_utf8(s@)),
            None => !valid_utf8(percent_decoded(encode_utf8(s@))),
        },
{
    match urlencoding::decode(s) {
        Ok(t) => Some(t.into_owned()),
        Err(_) => None,
    }
}

/// Relies on `urlencoding::encode`: every byte of the UTF-8 form of `s` but
/// the unreserved ones becomes `%XY`.
#[verifier::external_body]
fn percent_encode(s: &str) -> (r: String)
    ensures
        r@ == percent_encoded(encode_utf8(s@)),
{
    urlencoding::encode(s).into_owned()
}

/// Percent-decodes `s`, keeping `s` unchanged where the decoded bytes are not
/// valid UTF-8: decoding never fails.
pub fn decode_lossy(s: &[char]) -> (r: Vec<char>)
    ensures
        r@ == lossy_decoded(s@),
{
    let text = crate::text::from_chars(s);
    match percent_decode(text.as_str()) {
        Some(t) => {
            proof {
                encode_utf8_decode_utf8(t@);
            }
            to_chars(t.as_str())
        },
        None => to_chars(text.as_str()),
    }
}

/// Percent-encodes `s` for use as one URL path segment.
pub fn encode_component(s: &str) -> (r: String)
    ensures
        r@ == percent_encoded(encode_utf8(s@)),
{
    percent_encode(s)
}

} // verus!
