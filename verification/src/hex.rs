//! Hexadecimal text: what encoding bytes and decoding text give, and the calls into
//! `alloy_primitives::hex` that do it.

use vstd::prelude::*;

verus! {

/// The lowercase hexadecimal digit for a value below 16.
pub open spec fn hex_char(n: int) -> char {
    if n < 10 {
        (48 + n) as char
    } else {
        (87 + n) as char
    }
}

/// `c` is a hexadecimal digit, in either case.
pub open spec fn is_hex_digit(c: char) -> bool {
    ||| ('0' <= c && c <= '9')
    ||| ('a' <= c && c <= 'f')
    ||| ('A' <= c && c <= 'F')
}

/// The value of a hexadecimal digit.
pub open spec fn hex_value(c: char) -> int {
    if '0' <= c && c <= '9' {
        c as int - 48
    } else if 'a' <= c && c <= 'f' {
        c as int - 87
    } else {
        c as int - 55
    }
}

/// Lowercase hexadecimal text of `bytes`: two digits per byte, high half first, no prefix.
pub open spec fn hex_encoding(bytes: Seq<u8>) -> Seq<char> {
    Seq::new(
        2 * bytes.len(),
        |i: int|
            if i % 2 == 0 {
                hex_char(bytes[i / 2] as int / 16)
            } else {
                hex_char(bytes[i / 2] as int % 16)
            },
    )
}

/// `s` without a leading `0x` or `0X`.
pub open spec fn strip_hex_prefix(s: Seq<char>) -> Seq<char> {
    if s.len() >= 2 && s[0] == '0' && (s[1] == 'x' || s[1] == 'X') {
        s.skip(2)
    } else {
        s
    }
}

/// `s` is hexadecimal text: after an optional `0x`/`0X`, an even number of hex digits.
pub open spec fn is_hex_text(s: Seq<char>) -> bool {
    let t = strip_hex_prefix(s);
    &&& t.len() % 2 == 0
    &&& forall|i: int| 0 <= i < t.len() ==> is_hex_digit(#[trigger] t[i])
}

/// The bytes that the hex digits `t` stand for, two digits per byte, high half first.
pub open spec fn hex_digits_value(t: Seq<char>) -> Seq<u8> {
    Seq::new(
        t.len() / 2,
        |i: int| (hex_value(t[2 * i]) * 16 + hex_value(t[2 * i + 1])) as u8,
    )
}

/// The bytes that the hexadecimal text `s` stands for.
pub open spec fn hex_decoding(s: Seq<char>) -> Seq<u8> {
    hex_digits_value(strip_hex_prefix(s))
}

/// The error type of `alloy_primitives::hex::decode`.
#[verifier::external_type_specification]
#[verifier::external_body]
pub struct ExFromHexError(alloy_primitives::hex::FromHexError);

/// Calls `alloy_primitives::hex::encode`, which writes each byte as two lowercase hex
/// digits, high half first, with no prefix.
#[verifier::external_body]
pub(crate) fn encode_hex(bytes: &[u8]) -> (r: String)
    ensures
        r@ == hex_encoding(bytes@),
{
    alloy_primitives::hex::encode(bytes)
}

/// Calls `alloy_primitives::hex::decode`. It fails on input of odd length, strips a leading
/// `0x` or `0X`, and fails unless every remaining character is a hex digit of either case;
/// otherwise it returns the bytes that each pair of digits stands for, high half first.
#[verifier::external_body]
pub(crate) fn decode_hex(s: &str) -> (r: Result<Vec<u8>, alloy_primitives::hex::FromHexError>)
    ensures
        r is Ok <==> is_hex_text(s@),
        r matches Ok(v) ==> v@ == hex_decoding(s@),
{
    alloy_primitives::hex::decode(s)
}

/// Lowercase hex digits are hex digits with the value they were written for.
pub proof fn lemma_hex_char(n: int)
    requires
        0 <= n < 16,
    ensures
        is_hex_digit(hex_char(n)),
        hex_value(hex_char(n)) == n,
        hex_char(n) != 'x' && hex_char(n) != 'X',
{
}

/// Decoding the hex text of some bytes gives back those bytes.
pub proof fn lemma_hex_roundtrip(bytes: Seq<u8>)
    ensures
        is_hex_text(hex_encoding(bytes)),
        hex_decoding(hex_encoding(bytes)) == bytes,
{
    let e = hex_encoding(bytes);
    assert forall|i: int| 0 <= i < e.len() implies is_hex_digit(#[trigger] e[i]) && e[i] != 'x'
        && e[i] != 'X' by {
        if i % 2 == 0 {
            lemma_hex_char(bytes[i / 2] as int / 16);
        } else {
            lemma_hex_char(bytes[i / 2] as int % 16);
        }
    }
    assert(strip_hex_prefix(e) == e);
    let d = hex_decoding(e);
    assert forall|i: int| 0 <= i < bytes.len() implies d[i] == bytes[i] by {
        let b = bytes[i] as int;
        assert(e[2 * i] == hex_char(b / 16));
        assert((2 * i + 1) / 2 == i);
        assert(e[2 * i + 1] == hex_char(b % 16));
        lemma_hex_char(b / 16);
        lemma_hex_char(b % 16);
        assert(b / 16 * 16 + b % 16 == b);
    }
    assert(d =~= bytes);
}

} // verus!
