//! Hexadecimal text encoding of byte strings, as used for invitation codes.
//!
//! Encoding and decoding are done by the `hex` crate; the spec functions here
//! state what that crate computes.

use vstd::prelude::*;

verus! {

/// The lower-case hex digit of a nibble (`0 <= n < 16`).
pub open spec fn hex_digit(n: int) -> char {
    seq!['0', '1', '2', '3', '4', '5', '6', '7', '8', '9', 'a', 'b', 'c', 'd', 'e', 'f'][n]
}

/// Whether `c` is a hex digit of either case.
pub open spec fn is_hex_char(c: char) -> bool {
    ('0' <= c && c <= '9') || ('a' <= c && c <= 'f') || ('A' <= c && c <= 'F')
}

/// The value of a hex digit.
pub open spec fn hex_value(c: char) -> int {
    if '0' <= c && c <= '9' {
        c as int - '0' as int
    } else if 'a' <= c && c <= 'f' {
        c as int - 'a' as int + 10
    } else {
        c as int - 'A' as int + 10
    }
}

/// Lower-case hex text of `data`: two digits per byte, high nibble first.
pub open spec fn spec_hex_encode(data: Seq<u8>) -> Seq<char> {
    Seq::new(
        2 * data.len(),
        |i: int|
            if i % 2 == 0 {
                hex_digit(data[i / 2] as int / 16)
            } else {
                hex_digit(data[i / 2] as int % 16)
            },
    )
}

/// Text that decodes: an even number of hex digits.
pub open spec fn spec_hex_valid(s: Seq<char>) -> bool {
    &&& s.len() % 2 == 0
    &&& forall|i: int| 0 <= i < s.len() ==> #[trigger] is_hex_char(s[i])
}

/// The bytes that valid hex text stands for.
pub open spec fn spec_hex_decode(s: Seq<char>) -> Seq<u8> {
    Seq::new(
        s.len() / 2,
        |i: int| (hex_value(s[2 * i]) * 16 + hex_value(s[2 * i + 1])) as u8,
    )
}

/// Error type of `hex::decode`.
#[verifier::external_type_specification]
#[verifier::external_body]
pub struct ExFromHexError(hex::FromHexError);

/// Calls `hex::encode`, which writes each byte as two lower-case hex digits,
/// high nibble first.
#[verifier::external_body]
pub(crate) fn hex_encode(data: &[u8]) -> (res: String)
    ensures
        res@ == spec_hex_encode(data@),
{
    hex::encode(data)
}

/// Calls `hex::decode` on the bytes of `s`. It fails on an odd length and on a
/// byte that is not a hex digit of either case; otherwise each pair of digits
/// gives one byte. Which `FromHexError` comes back is not stated.
#[verifier::external_body]
pub(crate) fn hex_decode(s: &str) -> (res: Result<Vec<u8>, hex::FromHexError>)
    ensures
        res is Ok <==> spec_hex_valid(s@),
        res matches Ok(v) ==> v@ == spec_hex_decode(s@),
{
    hex::decode(s)
}

/// Whether `s` is hex text that decodes: an even number of hex digits.
pub fn is_valid_hex(s: &str) -> (res: bool)
    ensures
        res == spec_hex_valid(s@),
{
    hex_decode(s).is_ok()
}

proof fn lemma_hex_digit(n: int)
    requires
        0 <= n < 16,
    ensures
        is_hex_char(hex_digit(n)),
        hex_value(hex_digit(n)) == n,
        '0' <= hex_digit(n) <= '9' || 'a' <= hex_digit(n) <= 'f',
{
}

/// Hex text made by the encoder always decodes, and gives back the bytes it
/// was made from.
pub proof fn lemma_hex_roundtrip(data: Seq<u8>)
    ensures
        spec_hex_valid(spec_hex_encode(data)),
        spec_hex_decode(spec_hex_encode(data)) == data,
{
    let e = spec_hex_encode(data);
    assert forall|i: int| 0 <= i < e.len() implies #[trigger] is_hex_char(e[i]) by {
        lemma_hex_digit(data[i / 2] as int / 16);
        lemma_hex_digit(data[i / 2] as int % 16);
    }
    assert(e.len() % 2 == 0);
    let d = spec_hex_decode(e);
    assert forall|i: int| 0 <= i < data.len() implies d[i] == data[i] by {
        let b: int = data[i] as int;
        assert((2 * i) / 2 == i && (2 * i) % 2 == 0);
        assert((2 * i + 1) / 2 == i && (2 * i + 1) % 2 == 1);
        lemma_hex_digit(b / 16);
        lemma_hex_digit(b % 16);
        assert(b / 16 * 16 + b % 16 == b);
    }
    assert(d =~= data);
}

} // verus!
