//! Hexadecimal text, as accounts and endpoints are written down.

use hex::{FromHex, ToHex};
use vstd::prelude::*;
use vstd::slice::slice_subrange;
use vstd::string::StringSliceAdditionalSpecFns;

verus! {

/// The lower-case hexadecimal digit for `nibble`.
pub open spec fn hex_digit(nibble: u8) -> char {
    if nibble < 10 {
        (48 + nibble) as char
    } else {
        (87 + nibble) as char
    }
}

/// The lower-case hexadecimal text of `bytes`: two digits for each byte,
/// the high four bits first.
pub open spec fn hex_of(bytes: Seq<u8>) -> Seq<char> {
    Seq::new(
        2 * bytes.len(),
        |i: int|
            if i % 2 == 0 {
                hex_digit(bytes[i / 2] >> 4)
            } else {
                hex_digit(bytes[i / 2] & 0x0f)
            },
    )
}

/// What the hexadecimal digit `digit`, of either case, stands for.
pub open spec fn hex_value(digit: u8) -> Option<u8> {
    if 48 <= digit <= 57 {
        Some((digit - 48) as u8)
    } else if 97 <= digit <= 102 {
        Some((digit - 87) as u8)
    } else if 65 <= digit <= 70 {
        Some((digit - 55) as u8)
    } else {
        None
    }
}

/// `text` is hexadecimal text: digits only, and an even number of them.
pub open spec fn is_hex(text: Seq<u8>) -> bool {
    &&& text.len() % 2 == 0
    &&& forall|i: int| 0 <= i < text.len() ==> hex_value(#[trigger] text[i]) is Some
}

/// The bytes that the hexadecimal text `text` stands for.
pub open spec fn unhex(text: Seq<u8>) -> Seq<u8> {
    Seq::new(
        text.len() / 2,
        |i: int| hex_value(text[2 * i])->0 << 4 | hex_value(text[2 * i + 1])->0,
    )
}

/// `text` without the prefixes `0x` that it starts with, however many.
pub open spec fn strip_0x(text: Seq<u8>) -> Seq<u8>
    decreases text.len(),
{
    if text.len() >= 2 && text[0] == 48 && text[1] == 120 {
        strip_0x(text.skip(2))
    } else {
        text
    }
}

/// Every four bits are found again from their digit.
pub proof fn lemma_hex_digit(nibble: u8)
    requires
        nibble < 16,
    ensures
        hex_digit(nibble) as u8 != 120,
        hex_digit(nibble) as u8 <= 127,
        hex_value(hex_digit(nibble) as u8) == Some(nibble),
{
}

/// Every byte is found again from its two digits.
pub proof fn lemma_hex_byte(byte: u8)
    ensures
        byte >> 4 < 16,
        byte & 0x0f < 16,
        (byte >> 4) << 4 | (byte & 0x0f) == byte,
{
    assert(byte >> 4 < 16 && byte & 0x0f < 16 && (byte >> 4) << 4 | (byte & 0x0f) == byte)
        by (bit_vector);
}

/// Text that is written as `0x` and the hexadecimal digits of some bytes
/// is read back as those bytes.
pub proof fn lemma_text_round_trip(text: &str, bytes: Seq<u8>)
    requires
        text@ == "0x"@ + hex_of(bytes),
    ensures
        is_hex(strip_0x(text.spec_bytes())),
        unhex(strip_0x(text.spec_bytes())) == bytes,
{
    reveal_strlit("0x");
    let digits = hex_of(bytes);
    assert forall|i: int| 0 <= i < digits.len() implies (#[trigger] digits[i]) as u8 != 120
        && digits[i] as u8 <= 127 && hex_value(digits[i] as u8) == Some(
        if i % 2 == 0 {
            bytes[i / 2] >> 4
        } else {
            bytes[i / 2] & 0x0f
        },
    ) by {
        lemma_hex_byte(bytes[i / 2]);
        lemma_hex_digit(bytes[i / 2] >> 4);
        lemma_hex_digit(bytes[i / 2] & 0x0f);
    }
    assert(vstd::utf8::is_ascii_chars(text@)) by {
        assert forall|i: int| 0 <= i < text@.len() implies '\0' <= (#[trigger] text@[i])
            <= '\u{7f}' by {
            if i >= 2 {
                assert(text@[i] == digits[i - 2]);
                assert(digits[i - 2] as u8 <= 127);
            }
        }
    }
    vstd::utf8::is_ascii_chars_encode_utf8(text@);
    let raw = text.spec_bytes();
    assert(raw.len() == text@.len());
    assert(raw[0] == 48 && raw[1] == 120) by {
        assert(text@[0] == '0' && text@[1] == 'x');
        assert(text@[0] as u8 == raw[0]);
        assert(text@[1] as u8 == raw[1]);
    }
    let rest = raw.skip(2);
    assert forall|i: int| 0 <= i < rest.len() implies #[trigger] rest[i] == digits[i] as u8 by {
        assert(text@[i + 2] == digits[i]);
        assert(text@[i + 2] as u8 == raw[i + 2]);
    }
    assert(strip_0x(rest) == rest) by {
        if rest.len() >= 2 {
            assert(rest[1] == digits[1] as u8);
        }
    }
    assert(strip_0x(raw) == rest);
    assert(is_hex(rest)) by {
        assert forall|i: int| 0 <= i < rest.len() implies hex_value(#[trigger] rest[i]) is Some by {
            assert(rest[i] == digits[i] as u8);
        }
    }
    assert(unhex(rest) =~= bytes) by {
        assert forall|i: int| 0 <= i < bytes.len() implies unhex(rest)[i] == bytes[i] by {
            assert(rest[2 * i] == digits[2 * i] as u8);
            assert(rest[2 * i + 1] == digits[2 * i + 1] as u8);
            assert((2 * i) / 2 == i && (2 * i + 1) / 2 == i);
            lemma_hex_byte(bytes[i]);
        }
    }
}

/// The error of `hex`'s decoder, carried through unread.
#[verifier::external_type_specification]
#[verifier::external_body]
pub struct ExFromHexError(hex::FromHexError);

/// The lower-case hexadecimal text of `bytes`.
///
/// Trusted: the body calls `hex::ToHex::encode_hex` for a `String`. That
/// function yields, for each byte in turn, the digit of its high four bits
/// and then the digit of its low four bits, from the table
/// `0123456789abcdef`.
#[verifier::external_body]
pub(crate) fn hex_encode(bytes: &[u8]) -> (text: String)
    ensures
        text@ == hex_of(bytes@),
{
    bytes.encode_hex::<String>()
}

/// The bytes that the hexadecimal text `text` stands for.
///
/// Trusted: the body calls `hex::FromHex::from_hex` for a `Vec<u8>`. That
/// function fails on text of odd length and on text that holds anything
/// but the digits `0` to `9`, `a` to `f` and `A` to `F`; on any other text
/// it yields one byte for each pair of digits, the first digit as the high
/// four bits.
#[verifier::external_body]
pub(crate) fn hex_decode(text: &[u8]) -> (bytes: Result<Vec<u8>, hex::FromHexError>)
    ensures
        bytes is Ok <==> is_hex(text@),
        bytes matches Ok(decoded) ==> decoded@ == unhex(text@),
{
    Vec::<u8>::from_hex(text)
}

/// The bytes that `text` stands for once the prefixes `0x` it starts with
/// are taken off; `None` where what is left is not hexadecimal text.
pub fn decode_prefixed(text: &str) -> (bytes: Option<Vec<u8>>)
    ensures
        bytes is Some <==> is_hex(strip_0x(text.spec_bytes())),
        bytes matches Some(decoded) ==> decoded@ == unhex(strip_0x(text.spec_bytes())),
{
    let raw = text.as_bytes();
    let mut start: usize = 0;
    assert(raw@.skip(0) =~= raw@);
    while raw.len() - start >= 2 && raw[start] == 48 && raw[start + 1] == 120
        invariant
            start <= raw.len(),
            strip_0x(raw@) == strip_0x(raw@.skip(start as int)),
        decreases raw.len() - start,
    {
        proof {
            assert(raw@.skip(start as int).skip(2) =~= raw@.skip(start + 2));
        }
        start += 2;
    }
    let rest = slice_subrange(raw, start, raw.len());
    assert(rest@ =~= raw@.skip(start as int));
    match hex_decode(rest) {
        Ok(decoded) => Some(decoded),
        Err(_) => None,
    }
}

} // verus!
