//! Lower-case hexadecimal text of byte strings, through the `hex` crate.
use vstd::prelude::*;

verus! {

#[verifier::external_type_specification]
#[verifier::external_body]
pub struct ExFromHexError(hex::FromHexError);

/// The lower-case hex digit of a value below 16.
pub open spec fn hex_digit(v: nat) -> char {
    if v < 10 {
        (48 + v) as char
    } else {
        (87 + v) as char
    }
}

/// Character `i` of the hex text of `b`: high nibble first.
pub open spec fn hex_char_at(b: Seq<u8>, i: int) -> char {
    if i % 2 == 0 {
        hex_digit((b[i / 2] / 16) as nat)
    } else {
        hex_digit((b[i / 2] % 16) as nat)
    }
}

/// What `hex::encode` produces: two lower-case digits per byte.
pub open spec fn hex_encoding(b: Seq<u8>) -> Seq<char> {
    Seq::new(2 * b.len(), |i: int| hex_char_at(b, i))
}

/// A character that `hex::decode` accepts as a digit (either case).
pub open spec fn is_hex_char(c: char) -> bool {
    ||| 48 <= (c as u32) <= 57
    ||| 97 <= (c as u32) <= 102
    ||| 65 <= (c as u32) <= 70
}

/// The value of a hex digit.
pub open spec fn hex_value(c: char) -> nat {
    if 48 <= (c as u32) <= 57 {
        ((c as u32) - 48) as nat
    } else if 97 <= (c as u32) <= 102 {
        ((c as u32) - 87) as nat
    } else {
        ((c as u32) - 55) as nat
    }
}

/// Text that `hex::decode` accepts: an even number of hex digits.
pub open spec fn hex_valid(s: Seq<char>) -> bool {
    &&& s.len() % 2 == 0
    &&& forall|i: int| 0 <= i < s.len() ==> is_hex_char(#[trigger] s[i])
}

/// Byte `i` decoded from the pair of digits at `2i`.
pub open spec fn hex_byte_at(s: Seq<char>, i: int) -> u8 {
    (16 * hex_value(s[2 * i]) + hex_value(s[2 * i + 1])) as u8
}

/// What `hex::decode` produces from valid text.
pub open spec fn hex_decoding(s: Seq<char>) -> Seq<u8> {
    Seq::new(s.len() / 2, |i: int| hex_byte_at(s, i))
}

/// Calls `hex::encode`.
///
/// Trusted: the text is two lower-case hex digits per byte, high nibble
/// first, as the crate documents.
#[verifier::external_body]
pub(crate) fn hex_encode(data: &[u8]) -> (s: String)
    ensures
        s@ == hex_encoding(data@),
{
    hex::encode(data)
}

/// Calls `hex::decode`.
///
/// Trusted: it succeeds exactly on an even number of hex digits of either
/// case, and then yields one byte per pair of digits, high nibble first.
#[verifier::external_body]
pub(crate) fn hex_decode(s: &str) -> (r: Result<Vec<u8>, hex::FromHexError>)
    ensures
        r is Ok <==> hex_valid(s@),
        r matches Ok(v) ==> v@ == hex_decoding(s@),
{
    hex::decode(s)
}

proof fn lemma_hex_digit(v: nat)
    requires
        v < 16,
    ensures
        is_hex_char(hex_digit(v)),
        hex_value(hex_digit(v)) == v,
{
    if v < 10 {
        assert(((48 + v) as char) as u32 == 48 + v);
    } else {
        assert(((87 + v) as char) as u32 == 87 + v);
    }
}

/// Hex text decodes back to the bytes it was made from.
pub proof fn lemma_hex_round_trip(b: Seq<u8>)
    ensures
        hex_valid(hex_encoding(b)),
        hex_decoding(hex_encoding(b)) == b,
{
    let s = hex_encoding(b);
    assert forall|i: int| 0 <= i < s.len() implies is_hex_char(#[trigger] s[i]) by {
        if i % 2 == 0 {
            lemma_hex_digit((b[i / 2] / 16) as nat);
        } else {
            lemma_hex_digit((b[i / 2] % 16) as nat);
        }
    }
    assert forall|i: int| 0 <= i < b.len() implies #[trigger] hex_decoding(s)[i] == b[i] by {
        lemma_hex_digit((b[i] / 16) as nat);
        lemma_hex_digit((b[i] % 16) as nat);
        assert(s[2 * i] == hex_digit((b[i] / 16) as nat));
        assert(s[2 * i + 1] == hex_digit((b[i] % 16) as nat));
    }
    assert(hex_decoding(s) =~= b);
}

} // verus!
