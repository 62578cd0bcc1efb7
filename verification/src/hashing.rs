//! Hash functions and hexadecimal text.

use vstd::prelude::*;
use vstd::utf8::*;

verus! {

/// The SHA-256 digest of a message: what `sha2::Sha256::digest` returns.
pub uninterp spec fn sha256(data: Seq<u8>) -> Seq<u8>;

/// The SHA-512 digest of a message: what `sha2::Sha512::digest` returns.
pub uninterp spec fn sha512(data: Seq<u8>) -> Seq<u8>;

/// `sha2::Sha256::digest`: a function of the message.
#[verifier::external_body]
pub(crate) fn sha256_digest(data: &[u8]) -> (r: [u8; 32])
    ensures
        r@ == sha256(data@),
{
    let digest = <sha2::Sha256 as sha2::Digest>::digest(data);
    digest.into()
}

/// `sha2::Sha512::digest`: a function of the message.
#[verifier::external_body]
pub(crate) fn sha512_digest(data: &[u8]) -> (r: [u8; 64])
    ensures
        r@ == sha512(data@),
{
    let digest = <sha2::Sha512 as sha2::Digest>::digest(data);
    digest.into()
}

/// The lower-case hexadecimal digit of an integer below sixteen.
pub open spec fn hex_digit(d: nat) -> char {
    if d < 10 {
        (d + 48) as char
    } else {
        (d + 87) as char
    }
}

/// The hexadecimal text of bytes: two digits for each, the upper half first.
pub open spec fn hex_text(data: Seq<u8>) -> Seq<char> {
    Seq::new(
        2 * data.len(),
        |i: int|
            if i % 2 == 0 {
                hex_digit(data[i / 2] as nat / 16)
            } else {
                hex_digit(data[i / 2] as nat % 16)
            },
    )
}

/// The encoding of hexadecimal text has two bytes for each byte.
pub proof fn lemma_hex_encoding(data: Seq<u8>)
    ensures
        encode_utf8(hex_text(data)).len() == 2 * data.len(),
{
    let t = hex_text(data);
    assert forall|i: int| 0 <= i < t.len() implies '\0' <= #[trigger] t[i] <= '\u{7f}' by {
        assert(data[i / 2] as nat / 16 < 16);
        assert(data[i / 2] as nat % 16 < 16);
    }
    is_ascii_chars_encode_utf8(t);
}

/// `hex::encode`: the lower-case hexadecimal text of the bytes.
#[verifier::external_body]
pub(crate) fn hex_encode(data: &[u8]) -> (r: String)
    ensures
        r@ == hex_text(data@),
{
    hex::encode(data)
}

/// The character is a hexadecimal digit, of either case.
pub open spec fn is_hex_digit(c: char) -> bool {
    '0' <= c <= '9' || 'a' <= c <= 'f' || 'A' <= c <= 'F'
}

/// The value of a hexadecimal digit.
pub open spec fn hex_value(c: char) -> nat {
    if '0' <= c <= '9' {
        (c as nat - 48) as nat
    } else if 'a' <= c <= 'f' {
        (c as nat - 87) as nat
    } else {
        (c as nat - 55) as nat
    }
}

/// The text is hexadecimal: two digits for each byte.
pub open spec fn is_hex_text(t: Seq<char>) -> bool {
    t.len() % 2 == 0 && forall|i: int| 0 <= i < t.len() ==> is_hex_digit(#[trigger] t[i])
}

/// The bytes of a hexadecimal text.
pub open spec fn hex_bytes(t: Seq<char>) -> Seq<u8> {
    Seq::new(
        t.len() / 2,
        |i: int| (16 * hex_value(t[2 * i]) + hex_value(t[2 * i + 1])) as u8,
    )
}

/// `hex::decode`: the bytes of a hexadecimal text, nothing where the text is none.
#[verifier::external_body]
pub(crate) fn hex_decode(t: &str) -> (r: Option<Vec<u8>>)
    ensures
        r is Some <==> is_hex_text(t@),
        r matches Some(bytes) ==> bytes@ == hex_bytes(t@),
{
    hex::decode(t).ok()
}

/// Hexadecimal text stands for its bytes: it is made of two digits for each, and read back they
/// give the bytes again.
pub proof fn law_hex_round_trip(data: Seq<u8>)
    ensures
        hex_text(data).len() == 2 * data.len(),
        is_hex_text(hex_text(data)),
        hex_bytes(hex_text(data)) == data,
{
    let t = hex_text(data);
    assert forall|i: int| 0 <= i < t.len() implies is_hex_digit(#[trigger] t[i]) by {
        assert(data[i / 2] as nat / 16 < 16);
        assert(data[i / 2] as nat % 16 < 16);
    }
    assert forall|i: int| 0 <= i < data.len() implies hex_bytes(t)[i] == data[i] by {
        assert((2 * i) / 2 == i && (2 * i + 1) / 2 == i);
        let b = data[i] as nat;
        assert(b / 16 < 16 && b % 16 < 16);
        assert(hex_value(t[2 * i]) == b / 16);
        assert(hex_value(t[2 * i + 1]) == b % 16);
        assert(16 * (b / 16) + b % 16 == b);
    }
    assert(hex_bytes(t) =~= data);
}

} // verus!
