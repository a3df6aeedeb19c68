use vstd::prelude::*;
use crate::text::is_space;

verus! {

/// The value of one hexadecimal digit, upper or lower case, or -1 for any
/// other character.
pub open spec fn hex_value(c: char) -> int {
    let u = c as int;
    if 0x30 <= u && u <= 0x39 {
        u - 0x30
    } else if 0x61 <= u && u <= 0x66 {
        u - 0x61 + 10
    } else if 0x41 <= u && u <= 0x46 {
        u - 0x41 + 10
    } else {
        -1
    }
}

pub open spec fn is_hex_digit(c: char) -> bool {
    hex_value(c) >= 0
}

/// A well-formed hexadecimal text: even length, every character a digit.
pub open spec fn is_hex(s: Seq<char>) -> bool {
    &&& s.len() % 2 == 0
    &&& forall|i: int| 0 <= i < s.len() ==> is_hex_digit(#[trigger] s[i])
}

/// The bytes a well-formed hexadecimal text decodes to, high nibble first.
pub open spec fn hex_decode_seq(s: Seq<char>) -> Seq<u8> {
    Seq::new((s.len() / 2) as nat, |i: int| (hex_value(s[2 * i]) * 16 + hex_value(s[2 * i + 1])) as u8)
}

/// The lowercase digit for a nibble.
pub open spec fn hex_lower_char(d: int) -> char {
    if d == 0 {
        '0'
    } else if d == 1 {
        '1'
    } else if d == 2 {
        '2'
    } else if d == 3 {
        '3'
    } else if d == 4 {
        '4'
    } else if d == 5 {
        '5'
    } else if d == 6 {
        '6'
    } else if d == 7 {
        '7'
    } else if d == 8 {
        '8'
    } else if d == 9 {
        '9'
    } else if d == 10 {
        'a'
    } else if d == 11 {
        'b'
    } else if d == 12 {
        'c'
    } else if d == 13 {
        'd'
    } else if d == 14 {
        'e'
    } else {
        'f'
    }
}

/// The lowercase hexadecimal spelling of a byte string: two digits per byte,
/// high nibble first.
pub open spec fn hex_encode_seq(b: Seq<u8>) -> Seq<char> {
    Seq::new(2 * b.len(), |i: int|
        if i % 2 == 0 {
            hex_lower_char((b[i / 2] >> 4) as int)
        } else {
            hex_lower_char((b[i / 2] & 0xf) as int)
        }
    )
}

/// Relies on hex::decode: succeeds exactly on an even number of hexadecimal
/// digits (either case), giving one byte per digit pair, high nibble first.
#[verifier::external_body]
pub(crate) fn hex_decode(s: &str) -> (r: Option<Vec<u8>>)
    ensures
        r is Some <==> is_hex(s@),
        r matches Some(v) ==> v@ == hex_decode_seq(s@),
{
    hex::decode(s).ok()
}

/// Relies on hex::encode: two lowercase digits for each byte.
#[verifier::external_body]
pub(crate) fn hex_encode(b: &[u8]) -> (r: String)
    ensures
        r@ == hex_encode_seq(b@),
{
    hex::encode(b)
}

/// The hexadecimal spelling of a byte string is well formed, free of colons
/// and whitespace, and decodes back to the same bytes.
pub proof fn lemma_hex_round_trip(b: Seq<u8>)
    ensures
        is_hex(hex_encode_seq(b)),
        hex_decode_seq(hex_encode_seq(b)) =~= b,
        forall|i: int| 0 <= i < hex_encode_seq(b).len() ==> #[trigger] hex_encode_seq(b)[i] != ':',
        forall|i: int| 0 <= i < hex_encode_seq(b).len() ==> !is_space(#[trigger] hex_encode_seq(b)[i]),
{
    let h = hex_encode_seq(b);
    assert forall|i: int| 0 <= i < h.len() implies is_hex_digit(#[trigger] h[i]) && h[i] != ':'
        && !is_space(h[i]) by {
        let x = b[i / 2];
        assert((x >> 4) < 16 && (x & 0xf) < 16) by (bit_vector);
    }
    assert forall|i: int| 0 <= i < b.len() implies hex_decode_seq(h)[i] == b[i] by {
        let x = b[i];
        assert(h[2 * i] == hex_lower_char((x >> 4) as int));
        assert(h[2 * i + 1] == hex_lower_char((x & 0xf) as int));
        assert((x >> 4) < 16 && (x & 0xf) < 16 && (x >> 4) as int * 16 + (x & 0xf) as int
            == x as int) by (bit_vector);
    }
}

} // verus!
