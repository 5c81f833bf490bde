//! Numbers in text: reading and writing decimal and hexadecimal.
use vstd::prelude::*;
use crate::text::{copy, part, push_chars, rest};

verus! {

// ---- reading ----

pub open spec fn is_digit(c: char) -> bool {
    '0' <= c && c <= '9'
}

pub open spec fn digit(c: char) -> nat {
    (c as u32 - '0' as u32) as nat
}

pub open spec fn all_digits(s: Seq<char>) -> bool {
    forall|i: int| 0 <= i < s.len() ==> is_digit(#[trigger] s[i])
}

/// The value of a string of decimal digits.
pub open spec fn dec_val(s: Seq<char>) -> nat
    decreases s.len(),
{
    if s.len() == 0 {
        0
    } else {
        dec_val(s.drop_last()) * 10 + digit(s.last())
    }
}

/// The text without one leading plus sign.
pub open spec fn unsigned(s: Seq<char>) -> Seq<char> {
    if s.len() > 0 && s[0] == '+' {
        rest(s, 1)
    } else {
        s
    }
}

/// The number that a decimal text stands for: digits, at least one, after at
/// most one plus sign, and no more than `max`.
pub open spec fn parse_dec(s: Seq<char>, max: nat) -> Option<nat> {
    let d = unsigned(s);
    if d.len() > 0 && all_digits(d) && dec_val(d) <= max {
        Some(dec_val(d))
    } else {
        None
    }
}

pub open spec fn is_hex_digit(c: char) -> bool {
    is_digit(c) || ('a' <= c && c <= 'f') || ('A' <= c && c <= 'F')
}

pub open spec fn hex_digit(c: char) -> nat {
    if is_digit(c) {
        digit(c)
    } else if 'a' <= c {
        (c as u32 - 'a' as u32 + 10) as nat
    } else {
        (c as u32 - 'A' as u32 + 10) as nat
    }
}

pub open spec fn all_hex_digits(s: Seq<char>) -> bool {
    forall|i: int| 0 <= i < s.len() ==> is_hex_digit(#[trigger] s[i])
}

/// The value of a string of hexadecimal digits.
pub open spec fn hex_val(s: Seq<char>) -> nat
    decreases s.len(),
{
    if s.len() == 0 {
        0
    } else {
        hex_val(s.drop_last()) * 16 + hex_digit(s.last())
    }
}

/// The number that a hexadecimal text stands for: digits, at least one, after
/// at most one plus sign, and no more than `max`.
pub open spec fn parse_hex(s: Seq<char>, max: nat) -> Option<nat> {
    let d = unsigned(s);
    if d.len() > 0 && all_hex_digits(d) && hex_val(d) <= max {
        Some(hex_val(d))
    } else {
        None
    }
}

proof fn lemma_dec_val_prefix(s: Seq<char>, i: int)
    requires
        0 <= i <= s.len(),
    ensures
        dec_val(s.take(i)) <= dec_val(s),
    decreases s.len() - i,
{
    if i < s.len() {
        lemma_dec_val_prefix(s, i + 1);
        assert(s.take(i + 1).drop_last() =~= s.take(i));
    } else {
        assert(s.take(i) =~= s);
    }
}

proof fn lemma_hex_val_prefix(s: Seq<char>, i: int)
    requires
        0 <= i <= s.len(),
    ensures
        hex_val(s.take(i)) <= hex_val(s),
    decreases s.len() - i,
{
    if i < s.len() {
        lemma_hex_val_prefix(s, i + 1);
        assert(s.take(i + 1).drop_last() =~= s.take(i));
    } else {
        assert(s.take(i) =~= s);
    }
}

pub fn is_digit_char(c: char) -> (r: bool)
    ensures
        r == is_digit(c),
{
    '0' <= c && c <= '9'
}

fn hex_digit_of(c: char) -> (r: Option<u64>)
    ensures
        r is Some <==> is_hex_digit(c),
        r matches Some(d) ==> d == hex_digit(c) && d < 16,
{
    let u: u32 = c as u32;
    if '0' <= c && c <= '9' {
        Some((u - 48) as u64)
    } else if 'a' <= c && c <= 'f' {
        Some((u - 87) as u64)
    } else if 'A' <= c && c <= 'F' {
        Some((u - 55) as u64)
    } else {
        None
    }
}

fn unsigned_of(a: &[char]) -> (r: &[char])
    ensures
        r@ == unsigned(a@),
{
    if a.len() > 0 && a[0] == '+' {
        part(a, 1, a.len())
    } else {
        a
    }
}

/// Reads a decimal number of at most `max`.
pub fn read_dec(a: &[char], max: u64) -> (r: Option<u64>)
    ensures
        r is Some <==> parse_dec(a@, max as nat) is Some,
        r matches Some(n) ==> parse_dec(a@, max as nat) == Some(n as nat) && n <= max,
{
    let d = unsigned_of(a);
    if d.len() == 0 {
        return None;
    }
    let mut v: u64 = 0;
    let mut i: usize = 0;
    while i < d.len()
        invariant
            i <= d@.len(),
            d@.len() > 0,
            d@ == unsigned(a@),
            v == dec_val(d@.take(i as int)),
            v <= max,
            forall|j: int| 0 <= j < i ==> is_digit(d@[j]),
        decreases d@.len() - i,
    {
        let c = d[i];
        if !('0' <= c && c <= '9') {
            assert(!is_digit(d@[i as int]));
            return None;
        }
        let x: u64 = (c as u32 - 48) as u64;
        assert(d@.take(i + 1).drop_last() =~= d@.take(i as int));
        assert(dec_val(d@.take(i + 1)) == v * 10 + x);
        proof {
            lemma_dec_val_prefix(d@, i + 1);
        }
        if v as u128 * 10 + x as u128 > max as u128 {
            return None;
        }
        v = v * 10 + x;
        i = i + 1;
    }
    assert(d@.take(i as int) =~= d@);
    Some(v)
}

/// Reads a hexadecimal number of at most `max`.
pub fn read_hex(a: &[char], max: u64) -> (r: Option<u64>)
    ensures
        r is Some <==> parse_hex(a@, max as nat) is Some,
        r matches Some(n) ==> parse_hex(a@, max as nat) == Some(n as nat) && n <= max,
{
    let d = unsigned_of(a);
    if d.len() == 0 {
        return None;
    }
    let mut v: u64 = 0;
    let mut i: usize = 0;
    while i < d.len()
        invariant
            i <= d@.len(),
            d@.len() > 0,
            d@ == unsigned(a@),
            v == hex_val(d@.take(i as int)),
            v <= max,
            forall|j: int| 0 <= j < i ==> is_hex_digit(d@[j]),
        decreases d@.len() - i,
    {
        match hex_digit_of(d[i]) {
            None => {
                assert(!is_hex_digit(d@[i as int]));
                return None;
            },
            Some(x) => {
                assert(d@.take(i + 1).drop_last() =~= d@.take(i as int));
                assert(hex_val(d@.take(i + 1)) == v * 16 + x);
                proof {
                    lemma_hex_val_prefix(d@, i + 1);
                }
                if v as u128 * 16 + x as u128 > max as u128 {
                    return None;
                }
                v = v * 16 + x;
                i = i + 1;
            },
        }
    }
    assert(d@.take(i as int) =~= d@);
    Some(v)
}

// ---- writing ----

pub open spec fn digit_char(d: nat) -> char {
    ('0' as u32 + d) as char
}

/// The decimal digits of a number.
pub open spec fn dec(n: nat) -> Seq<char>
    decreases n,
{
    if n < 10 {
        seq![digit_char(n)]
    } else {
        dec(n / 10).push(digit_char(n % 10))
    }
}

/// The digit of a value below sixteen, in small letters.
pub open spec fn hex_char(d: nat) -> char {
    if d < 10 {
        digit_char(d)
    } else {
        ('a' as u32 + d - 10) as char
    }
}

/// The hexadecimal digits of a number, in small letters.
pub open spec fn hex(n: nat) -> Seq<char>
    decreases n,
{
    if n < 16 {
        seq![hex_char(n)]
    } else {
        hex(n / 16).push(hex_char(n % 16))
    }
}

/// The digit of a value below sixteen, in capitals.
pub open spec fn hex_capital(d: nat) -> char {
    if d < 10 {
        digit_char(d)
    } else {
        ('A' as u32 + d - 10) as char
    }
}

/// The hexadecimal digits of a number, in capitals.
pub open spec fn hex_capitals(n: nat) -> Seq<char>
    decreases n,
{
    if n < 16 {
        seq![hex_capital(n)]
    } else {
        hex_capitals(n / 16).push(hex_capital(n % 16))
    }
}

/// The text filled up on the left with zeros to a width.
pub open spec fn zero_fill(s: Seq<char>, width: nat) -> Seq<char> {
    if s.len() >= width {
        s
    } else {
        Seq::new((width - s.len()) as nat, |i: int| '0') + s
    }
}

/// The text filled up on the right with spaces to a width.
pub open spec fn space_fill(s: Seq<char>, width: nat) -> Seq<char> {
    if s.len() >= width {
        s
    } else {
        s + Seq::new((width - s.len()) as nat, |i: int| ' ')
    }
}

fn dec_digit(d: u64) -> (c: char)
    requires
        d < 10,
    ensures
        c == digit_char(d as nat),
{
    let b: u8 = (48 + d) as u8;
    b as char
}

fn hex_digit_char(d: u64) -> (c: char)
    requires
        d < 16,
    ensures
        c == hex_char(d as nat),
{
    let b: u8 = if d < 10 {
        (48 + d) as u8
    } else {
        (87 + d) as u8
    };
    b as char
}

/// The decimal digits of `n`.
pub fn dec_of(n: u64) -> (v: Vec<char>)
    ensures
        v@ == dec(n as nat),
    decreases n,
{
    if n < 10 {
        let mut v: Vec<char> = Vec::new();
        v.push(dec_digit(n));
        assert(v@ =~= dec(n as nat));
        v
    } else {
        let mut v = dec_of(n / 10);
        v.push(dec_digit(n % 10));
        v
    }
}

/// The hexadecimal digits of `n`.
pub fn hex_of(n: u64) -> (v: Vec<char>)
    ensures
        v@ == hex(n as nat),
    decreases n,
{
    if n < 16 {
        let mut v: Vec<char> = Vec::new();
        v.push(hex_digit_char(n));
        assert(v@ =~= hex(n as nat));
        v
    } else {
        let mut v = hex_of(n / 16);
        v.push(hex_digit_char(n % 16));
        v
    }
}

/// The hexadecimal digits of `n`, in capitals.
pub fn hex_capitals_of(n: u64) -> (v: Vec<char>)
    ensures
        v@ == hex_capitals(n as nat),
    decreases n,
{
    let d: u64 = n % 16;
    let b: u8 = if d < 10 {
        (48 + d) as u8
    } else {
        (55 + d) as u8
    };
    let c: char = b as char;
    assert(c == hex_capital(d as nat));
    if n < 16 {
        let mut v: Vec<char> = Vec::new();
        v.push(c);
        assert(v@ =~= hex_capitals(n as nat));
        v
    } else {
        let mut v = hex_capitals_of(n / 16);
        v.push(c);
        v
    }
}

pub fn zero_filled(a: &[char], width: usize) -> (v: Vec<char>)
    ensures
        v@ == zero_fill(a@, width as nat),
{
    if a.len() >= width {
        return copy(a);
    }
    let n: usize = width - a.len();
    let mut v: Vec<char> = Vec::new();
    let mut i: usize = 0;
    while i < n
        invariant
            i <= n,
            v@ == Seq::new(i as nat, |j: int| '0'),
        decreases n - i,
    {
        v.push('0');
        i = i + 1;
        assert(v@ =~= Seq::new(i as nat, |j: int| '0'));
    }
    push_chars(&mut v, a);
    assert(v@ =~= zero_fill(a@, width as nat));
    v
}

pub fn space_filled(a: &[char], width: usize) -> (v: Vec<char>)
    ensures
        v@ == space_fill(a@, width as nat),
{
    let mut v = copy(a);
    let ghost n0 = v@.len();
    while v.len() < width
        invariant
            n0 == a@.len(),
            v@.len() >= n0,
            v@.len() <= width || v@.len() == n0,
            v@ == a@ + Seq::new((v@.len() - n0) as nat, |j: int| ' '),
        decreases width - v@.len(),
    {
        v.push(' ');
        assert(v@ =~= a@ + Seq::new((v@.len() - n0) as nat, |j: int| ' '));
    }
    assert(v@ =~= space_fill(a@, width as nat));
    v
}

/// Appends `n` in decimal.
pub fn push_dec(out: &mut Vec<char>, n: u64)
    ensures
        final(out)@ == old(out)@ + dec(n as nat),
{
    let d = dec_of(n);
    push_chars(out, &d);
}

/// Appends `n` in decimal with at least `width` digits.
pub fn push_dec_wide(out: &mut Vec<char>, n: u64, width: usize)
    ensures
        final(out)@ == old(out)@ + zero_fill(dec(n as nat), width as nat),
{
    let d = dec_of(n);
    let w = zero_filled(&d, width);
    push_chars(out, &w);
}

/// Appends `n` in hexadecimal with at least `width` digits.
pub fn push_hex_wide(out: &mut Vec<char>, n: u64, width: usize)
    ensures
        final(out)@ == old(out)@ + zero_fill(hex(n as nat), width as nat),
{
    let d = hex_of(n);
    let w = zero_filled(&d, width);
    push_chars(out, &w);
}

/// Appends `n` in hexadecimal capitals with at least `width` digits.
pub fn push_hex_capitals(out: &mut Vec<char>, n: u64, width: usize)
    ensures
        final(out)@ == old(out)@ + zero_fill(hex_capitals(n as nat), width as nat),
{
    let d = hex_capitals_of(n);
    let w = zero_filled(&d, width);
    push_chars(out, &w);
}

// ---- laws ----

/// A number written in decimal is made of digits and has its own value.
pub proof fn law_dec_reads_back(n: nat)
    ensures
        dec(n).len() > 0,
        all_digits(dec(n)),
        dec_val(dec(n)) == n,
    decreases n,
{
    reveal_with_fuel(dec_val, 2);
    if n >= 10 {
        law_dec_reads_back(n / 10);
        assert(dec(n).drop_last() =~= dec(n / 10));
    } else {
        assert(dec(n).drop_last() =~= Seq::<char>::empty());
    }
}

/// Reading a number written in decimal gives the number back.
pub proof fn law_parse_dec_of_dec(n: nat, max: nat)
    requires
        n <= max,
    ensures
        parse_dec(dec(n), max) == Some(n),
{
    law_dec_reads_back(n);
    assert(is_digit(dec(n)[0]));
    assert(unsigned(dec(n)) == dec(n));
}

/// A number written in hexadecimal is made of digits and has its own value.
pub proof fn law_hex_reads_back(n: nat)
    ensures
        hex(n).len() > 0,
        all_hex_digits(hex(n)),
        hex_val(hex(n)) == n,
    decreases n,
{
    reveal_with_fuel(hex_val, 2);
    if n >= 16 {
        law_hex_reads_back(n / 16);
        assert(hex(n).drop_last() =~= hex(n / 16));
    } else {
        assert(hex(n).drop_last() =~= Seq::<char>::empty());
    }
}

/// Leading zeros change nothing about a hexadecimal number.
pub proof fn law_hex_zeros(s: Seq<char>, k: nat)
    requires
        all_hex_digits(s),
    ensures
        all_hex_digits(Seq::new(k, |i: int| '0') + s),
        hex_val(Seq::new(k, |i: int| '0') + s) == hex_val(s),
    decreases s.len() + k,
{
    let z = Seq::new(k, |i: int| '0');
    if s.len() > 0 {
        law_hex_zeros(s.drop_last(), k);
        assert((z + s).drop_last() =~= z + s.drop_last());
    } else if k > 0 {
        law_hex_zeros(s, (k - 1) as nat);
        assert((z + s).drop_last() =~= Seq::new((k - 1) as nat, |i: int| '0') + s);
        assert((z + s).last() == '0');
    } else {
        assert(z + s =~= s);
    }
}

/// Leading zeros change nothing about a decimal number.
pub proof fn law_dec_zeros(s: Seq<char>, k: nat)
    requires
        all_digits(s),
    ensures
        all_digits(Seq::new(k, |i: int| '0') + s),
        dec_val(Seq::new(k, |i: int| '0') + s) == dec_val(s),
    decreases s.len() + k,
{
    let z = Seq::new(k, |i: int| '0');
    if s.len() > 0 {
        law_dec_zeros(s.drop_last(), k);
        assert((z + s).drop_last() =~= z + s.drop_last());
    } else if k > 0 {
        law_dec_zeros(s, (k - 1) as nat);
        assert((z + s).drop_last() =~= Seq::new((k - 1) as nat, |i: int| '0') + s);
        assert((z + s).last() == '0');
    } else {
        assert(z + s =~= s);
    }
}

/// Reading a zero-filled hexadecimal number gives the number back.
pub proof fn law_parse_hex_of_hex(n: nat, width: nat, max: nat)
    requires
        n <= max,
    ensures
        parse_hex(zero_fill(hex(n), width), max) == Some(n),
        all_hex_digits(zero_fill(hex(n), width)),
{
    law_hex_reads_back(n);
    let t = zero_fill(hex(n), width);
    if hex(n).len() < width {
        law_hex_zeros(hex(n), (width - hex(n).len()) as nat);
    }
    assert(is_hex_digit(t[0]));
    assert(unsigned(t) == t);
}

/// A number written in hexadecimal capitals is made of digits and has its own
/// value.
pub proof fn law_hex_capitals_read_back(n: nat)
    ensures
        hex_capitals(n).len() > 0,
        all_hex_digits(hex_capitals(n)),
        hex_val(hex_capitals(n)) == n,
    decreases n,
{
    reveal_with_fuel(hex_val, 2);
    if n >= 16 {
        law_hex_capitals_read_back(n / 16);
        assert(hex_capitals(n).drop_last() =~= hex_capitals(n / 16));
    } else {
        assert(hex_capitals(n).drop_last() =~= Seq::<char>::empty());
    }
}

/// Reading a zero-filled hexadecimal number in capitals gives the number back.
pub proof fn law_parse_hex_of_capitals(n: nat, width: nat, max: nat)
    requires
        n <= max,
    ensures
        parse_hex(zero_fill(hex_capitals(n), width), max) == Some(n),
        all_hex_digits(zero_fill(hex_capitals(n), width)),
{
    law_hex_capitals_read_back(n);
    let t = zero_fill(hex_capitals(n), width);
    if hex_capitals(n).len() < width {
        law_hex_zeros(hex_capitals(n), (width - hex_capitals(n).len()) as nat);
    }
    assert(is_hex_digit(t[0]));
    assert(unsigned(t) == t);
}

/// Reading a zero-filled decimal number gives the number back.
pub proof fn law_parse_dec_of_filled(n: nat, width: nat, max: nat)
    requires
        n <= max,
    ensures
        parse_dec(zero_fill(dec(n), width), max) == Some(n),
        all_digits(zero_fill(dec(n), width)),
{
    law_dec_reads_back(n);
    let t = zero_fill(dec(n), width);
    if dec(n).len() < width {
        law_dec_zeros(dec(n), (width - dec(n).len()) as nat);
    }
    assert(is_digit(t[0]));
    assert(unsigned(t) == t);
}

/// A number below ten to the `width` has at most `width` digits.
pub proof fn lemma_dec_len(n: nat, width: nat)
    requires
        width > 0,
        n < vstd::arithmetic::power::pow(10, width),
    ensures
        dec(n).len() <= width,
    decreases width,
{
    reveal(vstd::arithmetic::power::pow);
    if n >= 10 {
        let p = vstd::arithmetic::power::pow(10, (width - 1) as nat);
        assert(vstd::arithmetic::power::pow(10, width) == 10 * p);
        if width == 1 {
            assert(p == 1);
        } else {
            assert(n / 10 < p) by (nonlinear_arith)
                requires
                    n < 10 * p,
            ;
            lemma_dec_len(n / 10, (width - 1) as nat);
        }
    }
}

} // verus!
