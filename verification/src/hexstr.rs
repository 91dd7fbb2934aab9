//! Hexadecimal text, as the `hex` crate writes and reads it.

use vstd::prelude::*;
use vstd::string::StringSliceAdditionalSpecFns;
use vstd::utf8::{encode_utf8, is_char_boundary, is_continuation_byte, valid_utf8};
use vstd::utf8::{length_of_first_scalar, pop_first_scalar};

verus! {

/// The lower-case hexadecimal digit of a value below 16.
pub open spec fn hex_digit(v: int) -> u8 {
    if v < 10 {
        (48 + v) as u8
    } else {
        (87 + v) as u8
    }
}

/// The bytes of `data` in lower-case hexadecimal, two digits a byte, the
/// high half first.
pub open spec fn hex_lower(data: Seq<u8>) -> Seq<u8> {
    Seq::new(
        2 * data.len(),
        |i: int|
            if i % 2 == 0 {
                hex_digit(data[i / 2] as int / 16)
            } else {
                hex_digit(data[i / 2] as int % 16)
            },
    )
}

/// The value of a hexadecimal digit of either case, if `c` is one.
pub open spec fn hex_value(c: u8) -> Option<int> {
    if 48 <= c <= 57 {
        Some(c - 48)
    } else if 97 <= c <= 102 {
        Some(c - 87)
    } else if 65 <= c <= 70 {
        Some(c - 55)
    } else {
        None
    }
}

/// `text` is an even number of hexadecimal digits.
pub open spec fn is_hex(text: Seq<u8>) -> bool {
    &&& text.len() % 2 == 0
    &&& forall|i: int| 0 <= i < text.len() ==> (#[trigger] hex_value(text[i])) is Some
}

/// The bytes that the digits of `text` stand for, pair by pair.
pub open spec fn hex_bytes(text: Seq<u8>) -> Seq<u8> {
    Seq::new(
        text.len() / 2,
        |i: int| (hex_value(text[2 * i])->0 * 16 + hex_value(text[2 * i + 1])->0) as u8,
    )
}

/// What `text` decodes to: its bytes if it is hexadecimal, nothing otherwise.
pub open spec fn hex_decoded(text: Seq<u8>) -> Option<Seq<u8>> {
    if is_hex(text) {
        Some(hex_bytes(text))
    } else {
        None
    }
}

/// `text` without a leading `0x`, if it has one.
pub open spec fn strip_0x(text: Seq<u8>) -> Seq<u8> {
    if text.len() >= 2 && text[0] == 48 && text[1] == 120 {
        text.skip(2)
    } else {
        text
    }
}

/// Declares `hex::FromHexError`, the error of `hex::decode`. Nothing is
/// claimed of what it holds.
#[verifier::external_type_specification]
#[verifier::external_body]
pub struct ExFromHexError(hex::FromHexError);

/// Calls `hex::encode`. Trusted: the string it returns is ASCII and holds,
/// for each byte of `data` in turn, the lower-case digit of its high half and
/// then that of its low half.
#[verifier::external_body]
pub(crate) fn hex_encode(data: &[u8]) -> (text: String)
    ensures
        encode_utf8(text@) == hex_lower(data@),
{
    hex::encode(data)
}

/// Calls `hex::decode`. Trusted: it fails where the length of `text` is odd or
/// a byte of it is no digit `0-9`, `a-f` or `A-F`, and otherwise returns one
/// byte for each pair of digits, sixteen times the first plus the second.
#[verifier::external_body]
pub(crate) fn hex_decode(text: &[u8]) -> (r: Result<Vec<u8>, hex::FromHexError>)
    ensures
        match r {
            Ok(bytes) => hex_decoded(text@) == Some(bytes@),
            Err(_) => hex_decoded(text@) is None,
        },
{
    hex::decode(text)
}

/// In valid UTF-8 a character ends wherever an ASCII byte stands.
pub proof fn lemma_boundary_after_ascii(bytes: Seq<u8>, i: int)
    requires
        valid_utf8(bytes),
        0 <= i < bytes.len(),
        bytes[i] < 128,
    ensures
        is_char_boundary(bytes, i + 1),
    decreases bytes.len(),
{
    vstd::utf8::utf8_byte_ranges_bitwise(bytes[i]);
    vstd::utf8::utf8_byte_ranges_bitwise(bytes[0]);
    let first = length_of_first_scalar(bytes);
    if i < first {
        if i > 0 {
            assert(is_continuation_byte(bytes[i]));
        }
        assert(i == 0);
        assert(first == 1);
        assert(is_char_boundary(pop_first_scalar(bytes), 0));
    } else {
        lemma_boundary_after_ascii(pop_first_scalar(bytes), i - first);
    }
}

/// Strips an optional `0x` prefix.
pub fn sanitize_hex(hex_str: &str) -> (rest: &str)
    ensures
        rest.spec_bytes() == strip_0x(hex_str.spec_bytes()),
{
    let bytes = hex_str.as_bytes();
    if bytes.len() >= 2 && bytes[0] == 48 && bytes[1] == 120 {
        proof {
            vstd::utf8::encode_utf8_valid_utf8(hex_str@);
            lemma_boundary_after_ascii(bytes@, 1);
        }
        let (_, rest) = hex_str.split_at(2);
        rest
    } else {
        hex_str
    }
}

} // verus!
