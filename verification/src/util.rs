//! String helpers shared by the encoders: character access, hexadecimal and
//! decimal renderings of integers.
use vstd::prelude::*;

verus! {

/// `String::push` appends one character.
pub assume_specification[ String::push ](s: &mut String, ch: char)
    ensures
        final(s)@ == old(s)@.push(ch),
;

/// The lowercase hexadecimal digit for a value below 16.
pub open spec fn hex_char(d: nat) -> char {
    if d < 10 {
        (('0' as u32) + d) as char
    } else {
        (('a' as u32) + (d - 10)) as char
    }
}

/// The lowercase hexadecimal rendering of `n`, without leading zeros.
pub open spec fn hex_digits(n: nat) -> Seq<char>
    decreases n,
{
    if n < 16 {
        seq![hex_char(n)]
    } else {
        hex_digits(n / 16).push(hex_char(n % 16))
    }
}

/// The decimal digit for a value below 10.
pub open spec fn dec_char(d: nat) -> char {
    (('0' as u32) + d) as char
}

/// The decimal rendering of `n`, without leading zeros.
pub open spec fn dec_digits(n: nat) -> Seq<char>
    decreases n,
{
    if n < 10 {
        seq![dec_char(n)]
    } else {
        dec_digits(n / 10).push(dec_char(n % 10))
    }
}

/// The decimal rendering of `i`, with a leading `-` for negative values.
pub open spec fn dec_int(i: int) -> Seq<char> {
    if i < 0 {
        seq!['-'] + dec_digits((-i) as nat)
    } else {
        dec_digits(i as nat)
    }
}

/// Collects the characters of `s`.
pub(crate) fn chars_of(s: &str) -> (v: Vec<char>)
    ensures
        v@ == s@,
{
    let mut v: Vec<char> = Vec::new();
    for c in it: s.chars()
        invariant
            v@ == it.seq().take(it.index() as int),
            it.seq() == s@,
    {
        v.push(c);
    }
    v
}

/// Returns the lowercase hexadecimal digit for `d`.
pub(crate) fn hex_digit(d: u32) -> (c: char)
    requires
        d < 16,
    ensures
        c == hex_char(d as nat),
{
    let digits = ['0', '1', '2', '3', '4', '5', '6', '7', '8', '9', 'a', 'b', 'c', 'd', 'e', 'f'];
    let c = digits[d as usize];
    assert(c == hex_char(d as nat)) by {
        assert(digits@[d as int] == c);
    }
    c
}

/// Appends the lowercase hexadecimal rendering of `n` to `out`.
pub(crate) fn push_hex(out: &mut String, n: u32)
    ensures
        final(out)@ == old(out)@ + hex_digits(n as nat),
    decreases n,
{
    if n >= 16 {
        push_hex(out, n / 16);
    }
    out.push(hex_digit(n % 16));
}

/// `itoa::Buffer::format`: the decimal rendering of an integer, with a
/// leading `-` for negative values.
#[verifier::external_body]
pub(crate) fn format_int(v: i128) -> (s: String)
    ensures
        s@ == dec_int(v as int),
{
    itoa::Buffer::new().format(v).to_string()
}

} // verus!
