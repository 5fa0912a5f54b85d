//! What is read off a request.

use vstd::prelude::*;
use vstd::utf8::{
    char_is_scalar, char_u32_cast, decode_utf8, encode_scalar, encode_utf8,
    encode_utf8_decode_utf8, encode_utf8_valid_utf8, has_width_1_encoding, valid_utf8,
};

use crate::request::{hex_value, percent_bytes, percent_decoded};

verus! {

/// Only the percent sign is encoded with the byte of the percent sign.
proof fn lemma_encoded_without_percent(scalar: u32)
    requires
        scalar != 37,
    ensures
        forall|i: int|
            0 <= i < encode_scalar(scalar).len() ==> #[trigger] encode_scalar(scalar)[i] != 37,
{
    if has_width_1_encoding(scalar) {
        assert((scalar & 0x7F) as u8 != 37) by (bit_vector)
            requires
                scalar != 37,
                scalar <= 0x7F,
        ;
    } else {
        assert(forall|b: u8| #[trigger] (0xC0 | b) != 37) by (bit_vector);
        assert(forall|b: u8| #[trigger] (0xE0 | b) != 37) by (bit_vector);
        assert(forall|b: u8| #[trigger] (0xF0 | b) != 37) by (bit_vector);
        assert(forall|b: u8| #[trigger] (0x80 | b) != 37) by (bit_vector);
    }
}

proof fn lemma_text_without_percent(text: Seq<char>)
    requires
        !text.contains('%'),
    ensures
        forall|i: int| 0 <= i < encode_utf8(text).len() ==> #[trigger] encode_utf8(text)[i] != 37,
    decreases text.len(),
{
    if text.len() > 0 {
        let rest = text.drop_first();
        assert(text[0] != '%');
        if rest.contains('%') {
            let i = choose|i: int| 0 <= i < rest.len() && rest[i] == '%';
            assert(text[i + 1] == '%');
        }
        char_is_scalar(text[0]);
        char_u32_cast(text[0], text[0] as u32);
        lemma_encoded_without_percent(text[0] as u32);
        lemma_text_without_percent(rest);
        let first = encode_scalar(text[0] as u32);
        let bytes = encode_utf8(text);
        assert forall|i: int| 0 <= i < bytes.len() implies #[trigger] bytes[i] != 37 by {
            if i < first.len() {
                assert(bytes[i] == first[i]);
            } else {
                assert(bytes[i] == encode_utf8(rest)[i - first.len()]);
            }
        }
    }
}

proof fn lemma_bytes_without_percent(bytes: Seq<u8>)
    requires
        forall|i: int| 0 <= i < bytes.len() ==> #[trigger] bytes[i] != 37,
    ensures
        percent_bytes(bytes) == bytes,
    decreases bytes.len(),
{
    if bytes.len() > 0 {
        let rest = bytes.skip(1);
        assert forall|i: int| 0 <= i < rest.len() implies #[trigger] rest[i] != 37 by {
            assert(rest[i] == bytes[i + 1]);
        }
        assert(bytes[0] != 37);
        lemma_bytes_without_percent(rest);
        assert(seq![bytes[0]] + rest == bytes);
    }
}

/// A path without a percent sign stands for itself.
pub proof fn law_paths_without_percent_stay(path: Seq<char>)
    requires
        !path.contains('%'),
    ensures
        valid_utf8(percent_bytes(encode_utf8(path))),
        decode_utf8(percent_bytes(encode_utf8(path))) == path,
{
    lemma_text_without_percent(path);
    lemma_bytes_without_percent(encode_utf8(path));
    encode_utf8_valid_utf8(path);
    encode_utf8_decode_utf8(path);
}

/// Paths that stand for the same bytes stand for the same text, whether or not the
/// bytes are UTF-8.
pub proof fn law_same_bytes_same_path(a: Seq<char>, b: Seq<char>)
    requires
        percent_bytes(encode_utf8(a)) == percent_bytes(encode_utf8(b)),
    ensures
        percent_decoded(a) == percent_decoded(b),
{
}

/// Whether `byte` is a hexadecimal digit.
pub open spec fn is_hex(byte: u8) -> bool {
    48 <= byte <= 57 || 65 <= byte <= 70 || 97 <= byte <= 102
}

/// The digit for `value`, with a capital letter or a small one above nine.
pub open spec fn hex_digit(value: int, capital: bool) -> u8 {
    if value < 10 {
        (48 + value) as u8
    } else if capital {
        (55 + value) as u8
    } else {
        (87 + value) as u8
    }
}

/// A percent sign and two hexadecimal digits stand for the byte that the digits
/// write, whether letters are capital or small.
pub proof fn law_escapes_are_decoded(
    high: int,
    low: int,
    capital: bool,
    also: bool,
    rest: Seq<u8>,
)
    requires
        0 <= high < 16,
        0 <= low < 16,
    ensures
        percent_bytes(seq![37u8, hex_digit(high, capital), hex_digit(low, also)] + rest) == seq![
            (high * 16 + low) as u8,
        ] + percent_bytes(rest),
{
    let bytes = seq![37u8, hex_digit(high, capital), hex_digit(low, also)] + rest;
    assert(bytes.skip(3) == rest);
    assert(hex_value(bytes[1]) == Some(high));
    assert(hex_value(bytes[2]) == Some(low));
}

/// Any other byte stays as it is, and so does a percent sign that two hexadecimal
/// digits do not follow.
pub proof fn law_other_bytes_stay(byte: u8, rest: Seq<u8>)
    requires
        byte == 37 ==> rest.len() < 2 || !is_hex(rest[0]) || !is_hex(rest[1]),
    ensures
        percent_bytes(seq![byte] + rest) == seq![byte] + percent_bytes(rest),
        percent_bytes(Seq::empty()) == Seq::<u8>::empty(),
{
    let bytes = seq![byte] + rest;
    assert(bytes.skip(1) == rest);
    assert(rest.len() > 0 ==> bytes[1] == rest[0]);
    assert(rest.len() > 1 ==> bytes[2] == rest[1]);
}

} // verus!
