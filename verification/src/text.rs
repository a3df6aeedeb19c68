use vstd::prelude::*;
use vstd::string::StrSliceExecFns;
use vstd::string::StringExecFns;
use crate::errors::YkError;

verus! {

/// A whitespace character, by the Unicode `White_Space` property (the set
/// `str::trim` strips).
pub open spec fn is_space(c: char) -> bool {
    let u = c as int;
    ||| u == 0x9
    ||| u == 0xa
    ||| u == 0xb
    ||| u == 0xc
    ||| u == 0xd
    ||| u == 0x20
    ||| u == 0x85
    ||| u == 0xa0
    ||| u == 0x1680
    ||| (0x2000 <= u && u <= 0x200a)
    ||| u == 0x2028
    ||| u == 0x2029
    ||| u == 0x202f
    ||| u == 0x205f
    ||| u == 0x3000
}

/// `s` with its leading whitespace removed.
pub open spec fn trim_front(s: Seq<char>) -> Seq<char>
    decreases s.len(),
{
    if s.len() > 0 && is_space(s[0]) {
        trim_front(s.skip(1))
    } else {
        s
    }
}

/// `s` with its trailing whitespace removed.
pub open spec fn trim_back(s: Seq<char>) -> Seq<char>
    decreases s.len(),
{
    if s.len() > 0 && is_space(s.last()) {
        trim_back(s.drop_last())
    } else {
        s
    }
}

/// `s` with surrounding whitespace removed.
pub open spec fn trim_spec(s: Seq<char>) -> Seq<char> {
    trim_back(trim_front(s))
}

/// A text that carries no surrounding whitespace is its own trim.
pub proof fn lemma_trim_id(s: Seq<char>)
    requires
        s.len() == 0 || (!is_space(s[0]) && !is_space(s.last())),
    ensures
        trim_spec(s) == s,
{
}

pub fn is_space_char(c: char) -> (r: bool)
    ensures
        r == is_space(c),
{
    let u: u32 = c as u32;
    u == 0x9 || u == 0xa || u == 0xb || u == 0xc || u == 0xd || u == 0x20 || u == 0x85
        || u == 0xa0 || u == 0x1680 || (0x2000 <= u && u <= 0x200a) || u == 0x2028 || u == 0x2029
        || u == 0x202f || u == 0x205f || u == 0x3000
}

/// Removes leading and trailing whitespace.
pub fn trim(s: &str) -> (r: &str)
    ensures
        r@ == trim_spec(s@),
{
    let n: usize = s.unicode_len();
    proof {
        assert(s@.skip(0) =~= s@);
    }
    let mut a: usize = 0;
    while a < n && is_space_char(s.get_char(a))
        invariant
            a <= n,
            n == s@.len(),
            trim_front(s@) == trim_front(s@.skip(a as int)),
        decreases n - a,
    {
        proof {
            assert(s@.skip(a as int).skip(1) =~= s@.skip(a + 1));
        }
        a += 1;
    }
    proof {
        if a < n {
            assert(trim_front(s@.skip(a as int)) == s@.skip(a as int));
        } else {
            assert(s@.skip(a as int) =~= Seq::<char>::empty());
        }
    }
    let mut b: usize = n;
    while b > a && is_space_char(s.get_char(b - 1))
        invariant
            a <= b <= n,
            n == s@.len(),
            trim_front(s@) == s@.skip(a as int),
            trim_back(s@.skip(a as int)) == trim_back(s@.subrange(a as int, b as int)),
        decreases b,
    {
        proof {
            let seg = s@.subrange(a as int, b as int);
            assert(seg.last() == s@[b - 1]);
            assert(seg.drop_last() =~= s@.subrange(a as int, b - 1));
        }
        b -= 1;
    }
    proof {
        let seg = s@.subrange(a as int, b as int);
        if b > a {
            assert(trim_back(seg) == seg);
        } else {
            assert(seg =~= Seq::<char>::empty());
        }
        assert(s@.skip(a as int) =~= s@.subrange(a as int, n as int));
    }
    s.substring_char(a, b)
}

/// The fields of `s` split on `':'`: always one more field than there are
/// colons, fields may be empty.
pub open spec fn split_colon(s: Seq<char>) -> Seq<Seq<char>>
    decreases s.len(),
{
    if s.len() == 0 {
        seq![Seq::<char>::empty()]
    } else if s[0] == ':' {
        seq![Seq::<char>::empty()] + split_colon(s.skip(1))
    } else {
        let r = split_colon(s.skip(1));
        seq![seq![s[0]] + r[0]] + r.skip(1)
    }
}

pub proof fn lemma_split_colon_len(s: Seq<char>)
    ensures
        split_colon(s).len() >= 1,
    decreases s.len(),
{
    if s.len() > 0 {
        lemma_split_colon_len(s.skip(1));
    }
}

/// A text without colons is a single field.
pub proof fn lemma_split_colon_whole(x: Seq<char>)
    requires
        forall|i: int| 0 <= i < x.len() ==> x[i] != ':',
    ensures
        split_colon(x) =~~= seq![x],
    decreases x.len(),
{
    if x.len() > 0 {
        lemma_split_colon_whole(x.skip(1));
        assert(seq![x[0]] + x.skip(1) =~= x);
    }
}

/// Splitting at the first colon: a colon-free field, the separator, and the
/// rest of the text.
pub proof fn lemma_split_colon_field(x: Seq<char>, rest: Seq<char>)
    requires
        forall|i: int| 0 <= i < x.len() ==> x[i] != ':',
    ensures
        split_colon(x + seq![':'] + rest) =~~= seq![x] + split_colon(rest),
    decreases x.len(),
{
    let s = x + seq![':'] + rest;
    lemma_split_colon_len(rest);
    if x.len() == 0 {
        assert(s[0] == ':');
        assert(s.skip(1) =~= rest);
    } else {
        assert(s[0] == x[0]);
        assert(s[0] != ':');
        assert(s.skip(1) =~= x.skip(1) + seq![':'] + rest);
        lemma_split_colon_field(x.skip(1), rest);
        let r = split_colon(s.skip(1));
        assert(r[0] == x.skip(1));
        assert(seq![s[0]] + r[0] =~= x);
        assert(r.skip(1) =~~= split_colon(rest));
    }
}

/// Splits a text into its colon-separated fields.
pub fn split_colon_str(s: &str) -> (r: Vec<String>)
    ensures
        r.deep_view() == split_colon(s@),
        r@.len() >= 1,
{
    let n: usize = s.unicode_len();
    proof {
        assert(s@.skip(0) =~= s@);
    }
    let mut fields: Vec<String> = Vec::new();
    let mut start: usize = 0;
    let mut i: usize = 0;
    while i < n
        invariant
            start <= i <= n,
            n == s@.len(),
            forall|k: int| start <= k < i ==> s@[k] != ':',
            split_colon(s@) =~~= fields.deep_view() + split_colon(s@.skip(start as int)),
        decreases n - i,
    {
        if s.get_char(i) == ':' {
            let field: String = String::from_str(s.substring_char(start, i));
            proof {
                let x = s@.subrange(start as int, i as int);
                assert(s@.skip(start as int) =~= x + seq![':'] + s@.skip(i + 1));
                lemma_split_colon_field(x, s@.skip(i + 1));
                assert((fields.deep_view().push(field@)) =~= fields.deep_view() + seq![x]);
            }
            fields.push(field);
            start = i + 1;
        }
        i += 1;
    }
    let last: String = String::from_str(s.substring_char(start, n));
    proof {
        let x = s@.subrange(start as int, n as int);
        assert(s@.skip(start as int) =~= x);
        lemma_split_colon_whole(x);
        assert((fields.deep_view().push(last@)) =~= fields.deep_view() + seq![x]);
    }
    fields.push(last);
    proof {
        assert(fields.deep_view() =~~= split_colon(s@));
    }
    fields
}

/// The value of one decimal digit, or -1 for any other character.
pub open spec fn dec_digit(c: char) -> int {
    if 0x30 <= c as int && c as int <= 0x39 {
        c as int - 0x30
    } else {
        -1
    }
}

pub open spec fn is_dec_digit(c: char) -> bool {
    dec_digit(c) >= 0
}

/// The number a digit string denotes, read left to right.
pub open spec fn dec_value(s: Seq<char>) -> int
    decreases s.len(),
{
    if s.len() == 0 {
        0
    } else {
        dec_value(s.drop_last()) * 10 + dec_digit(s.last())
    }
}

/// The digit part of a decimal text: an optional leading `'+'` is skipped.
pub open spec fn dec_body(s: Seq<char>) -> Seq<char> {
    if s.len() > 0 && s[0] == '+' {
        s.skip(1)
    } else {
        s
    }
}

/// A well-formed decimal text: after the optional sign, one or more digits
/// and nothing else.
pub open spec fn dec_format_ok(s: Seq<char>) -> bool {
    &&& dec_body(s).len() > 0
    &&& forall|i: int| 0 <= i < dec_body(s).len() ==> is_dec_digit(#[trigger] dec_body(s)[i])
}

pub proof fn lemma_dec_value_nonneg(s: Seq<char>)
    requires
        forall|i: int| 0 <= i < s.len() ==> is_dec_digit(#[trigger] s[i]),
    ensures
        dec_value(s) >= 0,
    decreases s.len(),
{
    if s.len() > 0 {
        lemma_dec_value_nonneg(s.drop_last());
    }
}

/// Reading more digits never shrinks the value.
pub proof fn lemma_dec_value_mono(s: Seq<char>, k: int)
    requires
        0 <= k <= s.len(),
        forall|i: int| 0 <= i < s.len() ==> is_dec_digit(#[trigger] s[i]),
    ensures
        dec_value(s) >= dec_value(s.take(k)),
    decreases s.len() - k,
{
    if k < s.len() {
        lemma_dec_value_nonneg(s.take(k));
        assert(s.take(k + 1).drop_last() =~= s.take(k));
        assert(s.take(k + 1).last() == s[k]);
        lemma_dec_value_mono(s, k + 1);
    } else {
        assert(s.take(k) =~= s);
    }
}

/// Reads a decimal number, as `str::parse` for an unsigned type does: an
/// optional leading `'+'`, then at least one digit. Fails exactly when the
/// format is wrong or the value exceeds `max`.
pub fn parse_dec_bounded(s: &str, max: u32) -> (r: Result<u32, YkError>)
    ensures
        r is Ok <==> dec_format_ok(s@) && dec_value(dec_body(s@)) <= max,
        r matches Ok(v) ==> v == dec_value(dec_body(s@)),
        r matches Err(e) ==> e == YkError::FormatError,
{
    let n: usize = s.unicode_len();
    let mut i: usize = 0;
    if n > 0 && s.get_char(0) == '+' {
        i = 1;
    }
    if i >= n {
        return Err(YkError::FormatError);
    }
    let ghost body = dec_body(s@);
    let ghost off = i as int;
    proof {
        assert(body =~= s@.skip(off));
    }
    let mut acc: u64 = 0;
    let start: usize = i;
    while i < n
        invariant
            start <= i <= n,
            n == s@.len(),
            off == start as int,
            start <= 1,
            body == dec_body(s@),
            body == s@.skip(off),
            body.len() == n - start,
            forall|k: int| 0 <= k < i - start ==> is_dec_digit(#[trigger] body[k]),
            acc == dec_value(body.take(i - start)),
            acc <= max,
        decreases n - i,
    {
        let c: char = s.get_char(i);
        let u: u32 = c as u32;
        if !(0x30 <= u && u <= 0x39) {
            proof {
                let k = i - start;
                assert(body[k] == s@[i as int]);
                assert(!is_dec_digit(body[k]));
                assert(!dec_format_ok(s@));
            }
            return Err(YkError::FormatError);
        }
        let d: u64 = (u - 0x30) as u64;
        acc = acc * 10 + d;
        proof {
            let k = i - start;
            assert(body[k] == s@[i as int]);
            assert(body.take(k + 1).drop_last() =~= body.take(k));
            assert(body.take(k + 1).last() == body[k]);
        }
        if acc > max as u64 {
            proof {
                if dec_format_ok(s@) {
                    assert(forall|k: int| 0 <= k < body.len() ==> is_dec_digit(#[trigger] body[k]));
                    lemma_dec_value_mono(body, i - start + 1);
                }
            }
            return Err(YkError::FormatError);
        }
        i += 1;
    }
    proof {
        assert(body.take(n - start) =~= body);
    }
    Ok(acc as u32)
}

/// The canonical decimal spelling of a number: no sign, no leading zero.
pub open spec fn dec_string_of(v: nat) -> Seq<char>
    decreases v,
{
    if v < 10 {
        seq![dec_digit_char(v as int)]
    } else {
        dec_string_of(v / 10) + seq![dec_digit_char(v as int % 10)]
    }
}

pub open spec fn dec_digit_char(d: int) -> char {
    if d == 0 {
        '0'
    } else if d == 1 {
        '1'
    } else if d == 2 {
        '2'
    } else if d == 3 {
        '3'
    } else if d == 4 {
        '4'
    } else if d == 5 {
        '5'
    } else if d == 6 {
        '6'
    } else if d == 7 {
        '7'
    } else if d == 8 {
        '8'
    } else {
        '9'
    }
}

/// The canonical spelling reads back as the number it spells.
pub proof fn lemma_dec_string_of(v: nat)
    ensures
        dec_string_of(v).len() >= 1,
        forall|i: int| 0 <= i < dec_string_of(v).len() ==> is_dec_digit(#[trigger] dec_string_of(v)[i]),
        dec_value(dec_string_of(v)) == v,
        dec_body(dec_string_of(v)) == dec_string_of(v),
    decreases v,
{
    if v < 10 {
        let s = dec_string_of(v);
        assert(s.drop_last() =~= Seq::<char>::empty());
        assert(dec_value(Seq::<char>::empty()) == 0);
        assert(s.last() == dec_digit_char(v as int));
        assert(dec_digit(dec_digit_char(v as int)) == v as int);
        assert(dec_value(s) == dec_value(s.drop_last()) * 10 + dec_digit(s.last()));
    } else {
        lemma_dec_string_of(v / 10);
        let front = dec_string_of(v / 10);
        let s = front + seq![dec_digit_char(v as int % 10)];
        assert(s.drop_last() =~= front);
        assert(s.last() == dec_digit_char(v as int % 10));
        assert(dec_digit(dec_digit_char(v as int % 10)) == v as int % 10);
        assert(s[0] == front[0]);
    }
}

/// One decimal digit as text.
pub fn dec_digit_str(d: u32) -> (r: &'static str)
    requires
        d < 10,
    ensures
        r@ =~= seq![dec_digit_char(d as int)],
{
    proof {
        reveal_strlit("0");
        reveal_strlit("1");
        reveal_strlit("2");
        reveal_strlit("3");
        reveal_strlit("4");
        reveal_strlit("5");
        reveal_strlit("6");
        reveal_strlit("7");
        reveal_strlit("8");
        reveal_strlit("9");
    }
    match d {
        0 => "0",
        1 => "1",
        2 => "2",
        3 => "3",
        4 => "4",
        5 => "5",
        6 => "6",
        7 => "7",
        8 => "8",
        _ => "9",
    }
}

/// Writes a number in its canonical decimal spelling.
pub fn u32_to_dec(v: u32) -> (r: String)
    ensures
        r@ == dec_string_of(v as nat),
    decreases v,
{
    if v < 10 {
        String::from_str(dec_digit_str(v))
    } else {
        let mut front: String = u32_to_dec(v / 10);
        front.append(dec_digit_str(v % 10));
        front
    }
}

} // verus!
