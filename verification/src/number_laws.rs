//! How numbers are written and read, digit by digit.
use vstd::prelude::*;
use crate::number::{
    all_digits, all_hex_digits, dec, dec_val, hex, hex_capitals, hex_val, parse_dec, parse_hex,
    space_fill, zero_fill,
};

verus! {

/// A number below ten is one digit, `0` to `9`; every other is written as its tenth
/// followed by the digit that is left over.
pub proof fn law_decimal_is_written_by_tens(n: nat, d: nat)
    requires
        d < 10,
    ensures
        dec(d) == seq![(48 + d) as char],
        n > 0 ==> dec(10 * n + d) == dec(n).push((48 + d) as char),
{
}

/// A number below sixteen is one digit, `0` to `9` and then `a` to `f`, or `A` to
/// `F`; every other is written as its sixteenth followed by the digit that is left
/// over.
pub proof fn law_hexadecimal_is_written_by_sixteens(n: nat, d: nat)
    requires
        d < 16,
    ensures
        d < 10 ==> hex(d) == seq![(48 + d) as char] && hex_capitals(d) == seq![(48 + d) as char],
        d >= 10 ==> hex(d) == seq![(97 + d - 10) as char],
        d >= 10 ==> hex_capitals(d) == seq![(65 + d - 10) as char],
        n > 0 ==> hex(16 * n + d) == hex(n) + hex(d),
        n > 0 ==> hex_capitals(16 * n + d) == hex_capitals(n) + hex_capitals(d),
{
}

/// One more digit makes ten times as much and the digit.
pub proof fn law_decimal_is_read_by_tens(s: Seq<char>, c: char)
    requires
        '0' <= c <= '9',
    ensures
        dec_val(Seq::empty()) == 0,
        dec_val(s.push(c)) == 10 * dec_val(s) + (c as u32 - 48),
        all_digits(s.push(c)) <==> all_digits(s),
{
    assert(s.push(c).drop_last() =~= s);
    assert(s.push(c)[s.len() as int] == c);
    assert(forall|i: int| 0 <= i < s.len() ==> s.push(c)[i] == s[i]);
}

/// One more digit makes sixteen times as much and the digit, in small letters or
/// capitals.
pub proof fn law_hexadecimal_is_read_by_sixteens(s: Seq<char>, c: char)
    ensures
        hex_val(Seq::empty()) == 0,
        '0' <= c <= '9' ==> hex_val(s.push(c)) == 16 * hex_val(s) + (c as u32 - 48),
        'a' <= c <= 'f' ==> hex_val(s.push(c)) == 16 * hex_val(s) + (c as u32 - 87),
        'A' <= c <= 'F' ==> hex_val(s.push(c)) == 16 * hex_val(s) + (c as u32 - 55),
        '0' <= c <= '9' || 'a' <= c <= 'f' || 'A' <= c <= 'F' ==> (all_hex_digits(s.push(c))
            <==> all_hex_digits(s)),
        !('0' <= c <= '9' || 'a' <= c <= 'f' || 'A' <= c <= 'F') ==> !all_hex_digits(s.push(c)),
{
    assert(s.push(c).drop_last() =~= s);
    assert(s.push(c)[s.len() as int] == c);
    assert(forall|i: int| 0 <= i < s.len() ==> s.push(c)[i] == s[i]);
}

/// Digits alone, at least one, are a number if it is not too large; one plus sign
/// before them changes nothing, and anything else is no number.
pub proof fn law_what_a_number_is(s: Seq<char>, max: nat)
    ensures
        s.len() > 0 && (forall|i: int| 0 <= i < s.len() ==> '0' <= #[trigger] s[i] <= '9') ==> {
            &&& dec_val(s) <= max ==> parse_dec(s, max) == Some(dec_val(s))
            &&& dec_val(s) > max ==> parse_dec(s, max) is None
            &&& parse_dec(seq!['+'] + s, max) == parse_dec(s, max)
        },
        parse_dec(s, max) matches Some(n) ==> n <= max && s.len() > 0,
        parse_dec(s, max) is Some || parse_hex(s, max) is Some ==> s[0] != '-' && (forall|i: int|
            1 <= i < s.len() ==> ('0' <= #[trigger] s[i] <= '9' || 'a' <= s[i] <= 'f' || 'A' <= s[i]
                <= 'F')),
        parse_dec(s, max) is Some ==> forall|i: int|
            1 <= i < s.len() ==> '0' <= #[trigger] s[i] <= '9',
        s == seq!['+'] ==> parse_dec(s, max) is None && parse_hex(s, max) is None,
        s.len() == 0 ==> parse_dec(s, max) is None && parse_hex(s, max) is None,
        all_hex_digits(s) && s.len() > 0 ==> {
            &&& hex_val(s) <= max ==> parse_hex(s, max) == Some(hex_val(s))
            &&& hex_val(s) > max ==> parse_hex(s, max) is None
            &&& parse_hex(seq!['+'] + s, max) == parse_hex(s, max)
        },
{
    let p = seq!['+'] + s;
    assert(crate::text::rest(p, 1) =~= s);
    if s.len() > 0 && s[0] == '+' {
        assert(forall|i: int|
            1 <= i < s.len() ==> #[trigger] s[i] == crate::text::rest(s, 1)[i - 1]);
    }
}

/// Filling never cuts anything off: the text stands at the right end after zeros, at
/// the left end before spaces, in the width asked for if it fits.
pub proof fn law_filling(s: Seq<char>, width: nat)
    ensures
        s.len() >= width ==> zero_fill(s, width) == s && space_fill(s, width) == s,
        s.len() < width ==> {
            let (z, p) = (zero_fill(s, width), space_fill(s, width));
            let k = width - s.len();
            &&& z.len() == width && p.len() == width
            &&& z.skip(k) == s && p.take(s.len() as int) == s
            &&& forall|i: int| 0 <= i < k ==> #[trigger] z[i] == '0'
            &&& forall|i: int| s.len() <= i < width ==> #[trigger] p[i] == ' '
        },
{
}

} // verus!
