//! What is read off a request: its path and the header that tells what the
//! client would like to get.

use vstd::prelude::*;
use vstd::utf8::{decode_utf8, encode_utf8, valid_utf8};

use crate::text::{contains, holds, to_chars};

verus! {

/// The headers of a request.
#[verifier::external_type_specification]
#[verifier::external_body]
#[verifier::reject_recursive_types(T)]
pub struct ExHeaderMap<T>(axum::http::HeaderMap<T>);

/// The value of a header.
#[verifier::external_type_specification]
#[verifier::external_body]
pub struct ExHeaderValue(axum::http::HeaderValue);

/// The bytes of the first value of each header, by the header's name in lower
/// case.
pub uninterp spec fn first_values(headers: axum::http::HeaderMap) -> Map<Seq<char>, Seq<u8>>;

/// Whether `name` is a header's name in lower case, made of letters, digits and
/// hyphens.
pub open spec fn header_name(name: Seq<char>) -> bool {
    &&& 0 < name.len() <= 0xffff
    &&& forall|i: int|
        0 <= i < name.len() ==> 'a' <= #[trigger] name[i] <= 'z' || '0' <= name[i] <= '9' || name[i]
            == '-'
}

/// Whether `bytes` are printable ASCII characters and tabs.
pub open spec fn printable(bytes: Seq<u8>) -> bool {
    forall|i: int| 0 <= i < bytes.len() ==> 32 <= #[trigger] bytes[i] < 127 || bytes[i] == 9
}

/// The text of ASCII characters that `bytes` stand for.
pub open spec fn ascii_text(bytes: Seq<u8>) -> Seq<char> {
    bytes.map_values(|byte: u8| byte as char)
}

/// The first value of the header `name`, if there is one and it is printable.
pub open spec fn header_value(values: Map<Seq<char>, Seq<u8>>, name: Seq<char>) -> Option<
    Seq<char>,
> {
    if values.contains_key(name) && printable(values[name]) {
        Some(ascii_text(values[name]))
    } else {
        None
    }
}

/// `HeaderMap::get`, which finds the first value of a header, and
/// `HeaderValue::to_str`, which gives the value as a text if all its bytes are
/// printable ASCII characters or tabs.
#[verifier::external_body]
fn header_text(headers: &axum::http::HeaderMap, name: &str) -> (text: Option<String>)
    requires
        header_name(name@),
    ensures
        match text {
            Some(text) => header_value(first_values(*headers), name@) == Some(text@),
            None => header_value(first_values(*headers), name@) is None,
        },
{
    match headers.get(name) {
        Some(value) => match value.to_str() {
            Ok(text) => Some(String::from(text)),
            Err(_) => None,
        },
        None => None,
    }
}

/// Whether a client that accepts `accept` is a browser that would like HTML.
pub open spec fn likes_html(accept: Option<Seq<char>>) -> bool {
    match accept {
        Some(text) => holds(text, "text/html"@),
        None => false,
    }
}

/// Whether a client that accepts `accept` is a browser that would like HTML.
pub fn prefers_html(accept: Option<&str>) -> (yes: bool)
    ensures
        yes == likes_html(
            match accept {
                Some(text) => Some(text@),
                None => None,
            },
        ),
{
    match accept {
        Some(text) => contains(to_chars(text).as_slice(), "text/html"),
        None => false,
    }
}

/// Whether the `accept` header of a request names `text/html`, as that of a
/// browser does.
pub fn accept_prefers_html(headers: &axum::http::HeaderMap) -> (yes: bool)
    ensures
        yes == likes_html(header_value(first_values(*headers), "accept"@)),
{
    proof {
        reveal_strlit("accept");
    }
    match header_text(headers, "accept") {
        Some(text) => prefers_html(Some(text.as_str())),
        None => prefers_html(None),
    }
}

/// The value of a hexadecimal digit.
pub open spec fn hex_value(byte: u8) -> Option<int> {
    if 48 <= byte <= 57 {
        Some(byte - 48)
    } else if 65 <= byte <= 70 {
        Some(byte - 55)
    } else if 97 <= byte <= 102 {
        Some(byte - 87)
    } else {
        None
    }
}

/// `bytes` with the byte that each `%` and the two hexadecimal digits behind it
/// stand for.
pub open spec fn percent_bytes(bytes: Seq<u8>) -> Seq<u8>
    decreases bytes.len(),
{
    if bytes.len() == 0 {
        seq![]
    } else if bytes[0] == 37 && bytes.len() >= 3 && hex_value(bytes[1]) is Some && hex_value(
        bytes[2],
    ) is Some {
        seq![(hex_value(bytes[1])->0 * 16 + hex_value(bytes[2])->0) as u8] + percent_bytes(
            bytes.skip(3),
        )
    } else {
        seq![bytes[0]] + percent_bytes(bytes.skip(1))
    }
}

/// The text that `decode_utf8_lossy` makes of bytes.
pub uninterp spec fn lossy_text(bytes: Seq<u8>) -> Seq<char>;

/// What a text with percent signs stands for.
pub open spec fn percent_decoded(text: Seq<char>) -> Seq<char> {
    lossy_text(percent_bytes(encode_utf8(text)))
}

/// `percent_decode_str`, which decodes every `%` with two hexadecimal digits
/// behind it, and `PercentDecode::decode_utf8_lossy`, which makes a text of the
/// bytes: the one that they encode, where they are UTF-8. Where they are not, each
/// sequence of bytes that is no character is replaced by U+FFFD; which sequences
/// these are is not stated here.
#[verifier::external_body]
fn percent_decode_lossy(text: &str) -> (decoded: String)
    ensures
        decoded@ == lossy_text(percent_bytes(encode_utf8(text@))),
        valid_utf8(percent_bytes(encode_utf8(text@))) ==> decoded@ == decode_utf8(
            percent_bytes(encode_utf8(text@)),
        ),
{
    percent_encoding::percent_decode_str(text).decode_utf8_lossy().into_owned()
}

/// The path of a request, as the client meant it.
pub fn decode_path(path: &str) -> (decoded: String)
    ensures
        decoded@ == percent_decoded(path@),
        valid_utf8(percent_bytes(encode_utf8(path@))) ==> decoded@ == decode_utf8(
            percent_bytes(encode_utf8(path@)),
        ),
{
    percent_decode_lossy(path)
}

} // verus!
