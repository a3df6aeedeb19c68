use vstd::prelude::*;
use vstd::string::StrSliceExecFns;
use crate::errors::YkError;

verus! {

/// The value of one symbol of the token's 16-character alphabet
/// (`c b d e f g h i j k l n r t u v`, values 0 to 15 in that order),
/// or -1 for a character outside the alphabet.
pub open spec fn modhex_value(c: char) -> int {
    if c == 'c' {
        0
    } else if c == 'b' {
        1
    } else if c == 'd' {
        2
    } else if c == 'e' {
        3
    } else if c == 'f' {
        4
    } else if c == 'g' {
        5
    } else if c == 'h' {
        6
    } else if c == 'i' {
        7
    } else if c == 'j' {
        8
    } else if c == 'k' {
        9
    } else if c == 'l' {
        10
    } else if c == 'n' {
        11
    } else if c == 'r' {
        12
    } else if c == 't' {
        13
    } else if c == 'u' {
        14
    } else if c == 'v' {
        15
    } else {
        -1
    }
}

pub open spec fn is_modhex_char(c: char) -> bool {
    modhex_value(c) >= 0
}

/// A well-formed modhex text: even length, every character in the alphabet.
pub open spec fn is_modhex(s: Seq<char>) -> bool {
    &&& s.len() % 2 == 0
    &&& forall|i: int| 0 <= i < s.len() ==> is_modhex_char(#[trigger] s[i])
}

/// The bytes a well-formed modhex text decodes to: each pair of symbols is
/// one byte, high nibble first.
pub open spec fn demodhex_seq(s: Seq<char>) -> Seq<u8> {
    Seq::new((s.len() / 2) as nat, |i: int| (modhex_value(s[2 * i]) * 16 + modhex_value(s[2 * i + 1])) as u8)
}

/// The value of one modhex character, -1 when it is outside the alphabet.
pub fn modhex_digit(c: char) -> (r: i16)
    ensures
        r as int == modhex_value(c),
{
    match c {
        'c' => 0,
        'b' => 1,
        'd' => 2,
        'e' => 3,
        'f' => 4,
        'g' => 5,
        'h' => 6,
        'i' => 7,
        'j' => 8,
        'k' => 9,
        'l' => 10,
        'n' => 11,
        'r' => 12,
        't' => 13,
        'u' => 14,
        'v' => 15,
        _ => -1,
    }
}

/// Decodes a modhex text into raw bytes, two symbols per byte, high nibble
/// first. Fails exactly when the length is odd or a character falls outside
/// the alphabet.
pub fn demodhex(modhex: &str) -> (r: Result<Vec<u8>, YkError>)
    ensures
        r is Ok <==> is_modhex(modhex@),
        r matches Ok(v) ==> v@ == demodhex_seq(modhex@),
        r matches Err(e) ==> e == YkError::FormatError,
{
    let n: usize = modhex.unicode_len();
    if n % 2 != 0 {
        return Err(YkError::FormatError);
    }
    let mut result: Vec<u8> = Vec::new();
    let mut i: usize = 0;
    while i < n
        invariant
            i % 2 == 0,
            i <= n,
            n == modhex@.len(),
            n % 2 == 0,
            forall|k: int| 0 <= k < i ==> is_modhex_char(#[trigger] modhex@[k]),
            result@.len() == i / 2,
            forall|k: int| 0 <= k < i / 2 ==> result@[k] == (modhex_value(modhex@[2 * k]) * 16
                + modhex_value(modhex@[2 * k + 1])) as u8,
        decreases n - i,
    {
        let hi: i16 = modhex_digit(modhex.get_char(i));
        let lo: i16 = modhex_digit(modhex.get_char(i + 1));
        if hi < 0 || lo < 0 {
            return Err(YkError::FormatError);
        }
        let h: u8 = hi as u8;
        let l: u8 = lo as u8;
        assert((h << 4) | l == h * 16 + l) by (bit_vector)
            requires
                h < 16 && l < 16,
        ;
        result.push((h << 4) | l);
        i += 2;
    }
    proof {
        assert(result@ =~= demodhex_seq(modhex@));
    }
    Ok(result)
}

} // verus!
