//! Base64 text of an image's bytes.

use base64::Engine;
use vstd::prelude::*;

verus! {

/// The character that stands for a six-bit value in the standard alphabet.
pub open spec fn digit(value: int) -> char {
    if value < 26 {
        (0x41 + value) as char
    } else if value < 52 {
        (0x61 + (value - 26)) as char
    } else if value < 62 {
        (0x30 + (value - 52)) as char
    } else if value == 62 {
        '+'
    } else {
        '/'
    }
}

/// The six-bit value that a character of the standard alphabet stands for;
/// zero for every other character, the padding sign among them.
pub open spec fn digit_value(c: char) -> int {
    if 'A' <= c && c <= 'Z' {
        c as int - 0x41
    } else if 'a' <= c && c <= 'z' {
        c as int - 0x61 + 26
    } else if '0' <= c && c <= '9' {
        c as int - 0x30 + 52
    } else if c == '+' {
        62
    } else if c == '/' {
        63
    } else {
        0
    }
}

/// The byte at a position, zero behind the end.
pub open spec fn byte_at(bytes: Seq<u8>, i: int) -> int {
    if 0 <= i < bytes.len() {
        bytes[i] as int
    } else {
        0
    }
}

/// The `k`-th group of six bits of the bytes read as one string of bits,
/// with zero bits behind the end.
pub open spec fn sextet(bytes: Seq<u8>, k: int) -> int {
    let first = 3 * (k / 4);
    let place = k % 4;
    if place == 0 {
        byte_at(bytes, first) / 4
    } else if place == 1 {
        (byte_at(bytes, first) % 4) * 16 + byte_at(bytes, first + 1) / 16
    } else if place == 2 {
        (byte_at(bytes, first + 1) % 16) * 4 + byte_at(bytes, first + 2) / 64
    } else {
        byte_at(bytes, first + 2) % 64
    }
}

/// The length of the text for `count` bytes: four characters for every
/// three bytes or part of three.
pub open spec fn text_len(count: int) -> int {
    4 * ((count + 2) / 3)
}

/// How many characters of the text carry bits; the rest is padding.
pub open spec fn digit_count(count: int) -> int {
    (4 * count + 2) / 3
}

/// The base64 text of a sequence of bytes: standard alphabet, padded with
/// `=` to a multiple of four characters.
pub open spec fn base64_text(bytes: Seq<u8>) -> Seq<char> {
    Seq::new(
        text_len(bytes.len() as int) as nat,
        |k: int|
            if k < digit_count(bytes.len() as int) {
                digit(sextet(bytes, k))
            } else {
                '='
            },
    )
}

/// The value of the character at a position, zero behind the end.
pub open spec fn value_at(text: Seq<char>, k: int) -> int {
    if 0 <= k < text.len() {
        digit_value(text[k])
    } else {
        0
    }
}

/// How many padding signs end the text, two at most.
pub open spec fn padding(text: Seq<char>) -> int {
    if text.len() >= 1 && text[text.len() - 1] == '=' {
        if text.len() >= 2 && text[text.len() - 2] == '=' {
            2
        } else {
            1
        }
    } else {
        0
    }
}

/// The `i`-th byte that a text stands for.
pub open spec fn octet(text: Seq<char>, i: int) -> int {
    let first = 4 * (i / 3);
    let place = i % 3;
    if place == 0 {
        value_at(text, first) * 4 + value_at(text, first + 1) / 16
    } else if place == 1 {
        (value_at(text, first + 1) % 16) * 16 + value_at(text, first + 2) / 4
    } else {
        (value_at(text, first + 2) % 4) * 64 + value_at(text, first + 3)
    }
}

/// The bytes that a base64 text stands for: three for every four
/// characters, less one for each padding sign.
pub open spec fn base64_bytes(text: Seq<char>) -> Seq<u8> {
    let count = 3 * (text.len() as int / 4) - padding(text);
    Seq::new(
        if count > 0 {
            count as nat
        } else {
            0
        },
        |i: int| octet(text, i) as u8,
    )
}

/// `Engine::encode` of `base64::engine::general_purpose::STANDARD`. The
/// contract claims the base64 of RFC 4648 with the standard alphabet and
/// padding. The call panics where the length of the text does not fit in
/// `usize`, which the precondition leaves out.
#[verifier::external_body]
fn standard_text(bytes: &[u8]) -> (text: String)
    requires
        text_len(bytes@.len() as int) <= usize::MAX,
    ensures
        text@ == base64_text(bytes@),
{
    base64::engine::general_purpose::STANDARD.encode(bytes)
}

/// Encodes the bytes of an image file as base64 text.
pub fn encode_image(bytes: &[u8]) -> (text: String)
    requires
        text_len(bytes@.len() as int) <= usize::MAX,
    ensures
        text@ == base64_text(bytes@),
{
    standard_text(bytes)
}

/// A digit stands for the value it was chosen for, and is no padding sign.
pub proof fn lemma_digit_value(value: int)
    requires
        0 <= value < 64,
    ensures
        digit_value(digit(value)) == value,
        digit(value) != '=',
{
}

/// Four groups of six bits hold three bytes.
proof fn lemma_regroup(b0: int, b1: int, b2: int)
    requires
        0 <= b0 < 256,
        0 <= b1 < 256,
        0 <= b2 < 256,
    ensures
        ({
            let s0 = b0 / 4;
            let s1 = (b0 % 4) * 16 + b1 / 16;
            let s2 = (b1 % 16) * 4 + b2 / 64;
            let s3 = b2 % 64;
            &&& 0 <= s0 < 64
            &&& 0 <= s1 < 64
            &&& 0 <= s2 < 64
            &&& 0 <= s3 < 64
            &&& s0 * 4 + s1 / 16 == b0
            &&& (s1 % 16) * 16 + s2 / 4 == b1
            &&& (s2 % 4) * 64 + s3 == b2
        }),
{
}

/// Every character of the text that carries bits stands for its group of
/// six bits.
proof fn lemma_text_digit(bytes: Seq<u8>, k: int)
    requires
        0 <= k < digit_count(bytes.len() as int),
    ensures
        0 <= sextet(bytes, k) < 64,
        value_at(base64_text(bytes), k) == sextet(bytes, k),
        base64_text(bytes)[k] != '=',
{
    let first = 3 * (k / 4);
    lemma_regroup(byte_at(bytes, first), byte_at(bytes, first + 1), byte_at(bytes, first + 2));
    lemma_digit_value(sextet(bytes, k));
}

/// The text ends in as many padding signs as it has characters that carry
/// no bits.
proof fn lemma_padding(bytes: Seq<u8>)
    ensures
        padding(base64_text(bytes)) == text_len(bytes.len() as int) - digit_count(
            bytes.len() as int,
        ),
{
    let n = bytes.len() as int;
    let text = base64_text(bytes);
    if n % 3 == 1 {
        assert(text[text.len() - 1] == '=');
        assert(text[text.len() - 2] == '=');
    } else if n % 3 == 2 {
        assert(text[text.len() - 1] == '=');
        lemma_text_digit(bytes, text.len() - 2);
    } else if n > 0 {
        lemma_text_digit(bytes, text.len() - 1);
    }
}

/// The `i`-th byte that the text of `bytes` stands for is the `i`-th byte.
proof fn lemma_octet(bytes: Seq<u8>, i: int)
    requires
        0 <= i < bytes.len(),
    ensures
        octet(base64_text(bytes), i) == bytes[i] as int,
{
    let text = base64_text(bytes);
    let q = i / 3;
    let first = 4 * q;
    assert((first + 1) / 4 == q && (first + 2) / 4 == q && (first + 3) / 4 == q && first / 4 == q);
    lemma_regroup(byte_at(bytes, 3 * q), byte_at(bytes, 3 * q + 1), byte_at(bytes, 3 * q + 2));
    lemma_text_digit(bytes, first);
    lemma_text_digit(bytes, first + 1);
    if i % 3 >= 1 {
        lemma_text_digit(bytes, first + 2);
    }
    if i % 3 == 2 {
        lemma_text_digit(bytes, first + 3);
    }
}

/// Encoding loses nothing: the bytes that the base64 text of `bytes` stands
/// for are `bytes`.
pub proof fn lemma_round_trip(bytes: Seq<u8>)
    ensures
        base64_bytes(base64_text(bytes)) == bytes,
{
    let n = bytes.len() as int;
    let text = base64_text(bytes);
    lemma_padding(bytes);
    let back = base64_bytes(text);
    assert(back.len() == n);
    assert forall|i: int| 0 <= i < n implies back[i] == bytes[i] by {
        lemma_octet(bytes, i);
    }
    assert(back =~= bytes);
}

} // verus!
