//! The JSON that goes to the endpoint and the JSON that comes back.

use crate::encoding::{base64_text, digit, digit_count, sextet};
use vstd::prelude::*;
use vstd::utf8::{encode_utf8, is_ascii_chars, is_ascii_chars_encode_utf8};

verus! {

/// Where every request is posted.
pub const ENDPOINT: &'static str = "http://194..163.14:8995/ping";

/// The content type that every request declares.
pub const CONTENT_TYPE: &'static str = "application/json";

/// The single member of the request object.
pub const PAYLOAD_FIELD: &'static str = "image_base64";

/// The lower-case hexadecimal digit for a value below sixteen.
pub open spec fn hex_digit(value: int) -> u8 {
    if value < 10 {
        (0x30 + value) as u8
    } else {
        (0x57 + value) as u8
    }
}

/// How one byte of a string appears between the quotes of a JSON string:
/// quote and backslash behind a backslash, the five control characters that
/// have a short escape by that escape, every other control character as
/// `\u00` and two hexadecimal digits, anything else as itself.
pub open spec fn escaped_byte(b: u8) -> Seq<u8> {
    if b == 0x22 {
        seq![0x5cu8, 0x22u8]
    } else if b == 0x5c {
        seq![0x5cu8, 0x5cu8]
    } else if b == 0x08 {
        seq![0x5cu8, 0x62u8]
    } else if b == 0x09 {
        seq![0x5cu8, 0x74u8]
    } else if b == 0x0a {
        seq![0x5cu8, 0x6eu8]
    } else if b == 0x0c {
        seq![0x5cu8, 0x66u8]
    } else if b == 0x0d {
        seq![0x5cu8, 0x72u8]
    } else if b < 0x20 {
        seq![0x5cu8, 0x75u8, 0x30u8, 0x30u8, hex_digit(b as int / 16), hex_digit(b as int % 16)]
    } else {
        seq![b]
    }
}

/// The bytes of a string with each one escaped.
pub open spec fn escaped(bytes: Seq<u8>) -> Seq<u8>
    decreases bytes.len(),
{
    if bytes.len() == 0 {
        Seq::empty()
    } else {
        escaped(bytes.drop_last()) + escaped_byte(bytes.last())
    }
}

/// A JSON string: the escaped UTF-8 bytes of the text between two quotes.
pub open spec fn json_string(text: Seq<char>) -> Seq<u8> {
    seq![0x22u8] + escaped(encode_utf8(text)) + seq![0x22u8]
}

/// A JSON object with one member whose value is a string, in compact form.
pub open spec fn json_object(key: Seq<char>, value: Seq<char>) -> Seq<u8> {
    seq![0x7bu8] + json_string(key) + seq![0x3au8] + json_string(value) + seq![0x7du8]
}

/// The compact text of the JSON document that `body` holds, or `None` where
/// `body` is not one JSON document.
pub uninterp spec fn compact_json(body: Seq<u8>) -> Option<Seq<char>>;

/// `serde_json::Error`: why a body was not read as JSON. Nothing is read
/// from it.
#[verifier::external_type_specification]
#[verifier::external_body]
pub struct ExJsonError(serde_json::Error);

/// `serde_json::to_vec` on a `serde_json::Value` that is an object with one
/// member, a string. The contract claims the compact form: braces, the
/// member's name and value as JSON strings with a colon between them, and
/// no white space. The sink is a vector and every key is a string, so the
/// call has no error to give.
#[verifier::external_body]
fn object_bytes(key: &str, value: &str) -> (bytes: Vec<u8>)
    ensures
        bytes@ == json_object(key@, value@),
{
    let mut members = serde_json::Map::new();
    members.insert(key.to_string(), serde_json::Value::String(value.to_string()));
    serde_json::to_vec(&serde_json::Value::Object(members)).unwrap_or_default()
}

/// `serde_json::from_slice` into a `serde_json::Value`, printed again with
/// the value's `to_string`. The contract claims only that the outcome is a
/// function of the bytes, which it names `compact_json`.
#[verifier::external_body]
fn reprinted(body: &[u8]) -> (r: Result<String, serde_json::Error>)
    ensures
        match r {
            Ok(text) => compact_json(body@) == Some(text@),
            Err(_) => compact_json(body@) is None,
        },
{
    serde_json::from_slice::<serde_json::Value>(body).map(|value| value.to_string())
}

/// The body of the request for one image: a JSON object whose only member,
/// `image_base64`, holds the base64 text.
pub fn request_body(image_base64: &str) -> (body: Vec<u8>)
    ensures
        body@ == json_object(PAYLOAD_FIELD@, image_base64@),
{
    object_bytes(PAYLOAD_FIELD, image_base64)
}

/// Reads the endpoint's answer. Any JSON document is accepted and handed
/// back as compact text; anything else is `None`.
pub fn response_text(body: &[u8]) -> (text: Option<String>)
    ensures
        text.is_some() == compact_json(body@).is_some(),
        text matches Some(t) ==> compact_json(body@) == Some(t@),
{
    match reprinted(body) {
        Ok(text) => Some(text),
        Err(_) => None,
    }
}

/// Whether a byte stands for itself in a JSON string.
pub open spec fn is_plain(b: u8) -> bool {
    b >= 0x20 && b != 0x22 && b != 0x5c
}

/// Bytes that all stand for themselves are not changed by escaping.
pub proof fn lemma_escaped_plain(bytes: Seq<u8>)
    requires
        forall|i: int| 0 <= i < bytes.len() ==> is_plain(#[trigger] bytes[i]),
    ensures
        escaped(bytes) == bytes,
    decreases bytes.len(),
{
    if bytes.len() > 0 {
        lemma_escaped_plain(bytes.drop_last());
        assert(is_plain(bytes.last()));
        assert(bytes.drop_last() + seq![bytes.last()] =~= bytes);
    }
}

/// A request holds the base64 text of its image letter for letter: the
/// JSON string of the text is the text between two quotes, one byte for
/// each character and nothing escaped.
pub proof fn lemma_request_holds_text(image: Seq<u8>)
    ensures
        json_string(base64_text(image)) == seq![0x22u8] + Seq::new(
            base64_text(image).len(),
            |k: int| base64_text(image)[k] as u8,
        ) + seq![0x22u8],
{
    let text = base64_text(image);
    let bytes = Seq::new(text.len(), |k: int| text[k] as u8);
    assert forall|k: int| 0 <= k < text.len() implies '\0' <= #[trigger] text[k] <= '\u{7f}'
        && is_plain(text[k] as u8) by {
        if k < digit_count(image.len() as int) {
            let value = sextet(image, k);
            assert(text[k] == digit(value));
        }
    }
    assert(is_ascii_chars(text));
    is_ascii_chars_encode_utf8(text);
    assert(encode_utf8(text) =~= bytes);
    lemma_escaped_plain(bytes);
}

} // verus!
