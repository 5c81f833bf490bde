//! Text as sequences of characters: splitting, trimming, and numbers.
//!
//! The meaning of each operation is a spec function over `Seq<char>`; the
//! executable functions work on character slices and are proved to compute it.
use vstd::prelude::*;
use vstd::slice::*;
use vstd::utf8::*;

verus! {

/// `String::push`: appends one character.
pub assume_specification[ String::push ](s: &mut String, c: char)
    ensures
        final(s)@ == old(s)@.push(c),
;

/// `String::from_utf8`: succeeds on exactly the valid UTF-8 byte strings, and
/// the text is the one they encode.
#[verifier::external_body]
pub(crate) fn utf8_text(bytes: &[u8]) -> (r: Option<String>)
    ensures
        r is Some <==> valid_utf8(bytes@),
        r matches Some(s) ==> s@ == decode_utf8(bytes@),
{
    String::from_utf8(bytes.to_vec()).ok()
}

/// The characters of a string.
pub fn to_chars(s: &str) -> (v: Vec<char>)
    ensures
        v@ == s@,
{
    let mut v: Vec<char> = Vec::new();
    for c in it: s.chars()
        invariant
            it.seq() == s@,
            v@ == it.seq().take(it.index()),
    {
        v.push(c);
        assert(it.seq().take(it.index() + 1) == it.seq().take(it.index()).push(c));
    }
    assert(s@.take(s@.len() as int) == s@);
    v
}

/// The string with these characters.
pub fn to_string(v: &[char]) -> (s: String)
    ensures
        s@ == v@,
{
    let mut s = String::new();
    let mut i: usize = 0;
    while i < v.len()
        invariant
            i <= v@.len(),
            s@ == v@.take(i as int),
        decreases v@.len() - i,
    {
        s.push(v[i]);
        i = i + 1;
        assert(v@.take(i as int) == v@.take(i - 1).push(v@[i - 1]));
    }
    assert(v@.take(v@.len() as int) == v@);
    s
}

/// Appends the characters of `s`.
pub fn push_str(out: &mut Vec<char>, s: &str)
    ensures
        final(out)@ == old(out)@ + s@,
{
    for c in it: s.chars()
        invariant
            it.seq() == s@,
            out@ == old(out)@ + it.seq().take(it.index()),
    {
        out.push(c);
        assert(it.seq().take(it.index() + 1) == it.seq().take(it.index()).push(c));
    }
    assert(s@.take(s@.len() as int) == s@);
}

/// Appends characters.
pub fn push_chars(out: &mut Vec<char>, v: &[char])
    ensures
        final(out)@ == old(out)@ + v@,
{
    let mut i: usize = 0;
    while i < v.len()
        invariant
            i <= v@.len(),
            out@ == old(out)@ + v@.take(i as int),
        decreases v@.len() - i,
    {
        out.push(v[i]);
        i = i + 1;
        assert(v@.take(i as int) == v@.take(i - 1).push(v@[i - 1]));
    }
    assert(v@.take(v@.len() as int) == v@);
}

/// Whether two character slices hold the same text.
pub fn same(a: &[char], b: &[char]) -> (r: bool)
    ensures
        r == (a@ == b@),
{
    if a.len() != b.len() {
        return false;
    }
    let mut i: usize = 0;
    while i < a.len()
        invariant
            i <= a@.len(),
            a@.len() == b@.len(),
            forall|j: int| 0 <= j < i ==> a@[j] == b@[j],
        decreases a@.len() - i,
    {
        if a[i] != b[i] {
            return false;
        }
        i = i + 1;
    }
    assert(a@ =~= b@);
    true
}

/// Whether a character slice holds the text of `s`.
pub fn is_str(a: &[char], s: &str) -> (r: bool)
    ensures
        r == (a@ == s@),
{
    let b = to_chars(s);
    same(a, &b)
}

/// The slice from `from` up to `to`.
pub fn part(a: &[char], from: usize, to: usize) -> (r: &[char])
    requires
        from <= to <= a@.len(),
    ensures
        r@ == a@.subrange(from as int, to as int),
{
    slice_subrange(a, from, to)
}

/// A copy of a character slice.
pub fn copy(a: &[char]) -> (v: Vec<char>)
    ensures
        v@ == a@,
{
    let mut v: Vec<char> = Vec::new();
    push_chars(&mut v, a);
    v
}

// ---- prefixes ----

/// Whether `s` begins with `p`.
pub open spec fn has_prefix(s: Seq<char>, p: Seq<char>) -> bool {
    p.len() <= s.len() && s.subrange(0, p.len() as int) == p
}

/// Whether `s` ends with `p`.
pub open spec fn has_suffix(s: Seq<char>, p: Seq<char>) -> bool {
    p.len() <= s.len() && s.subrange(s.len() - p.len(), s.len() as int) == p
}

/// What follows the first `n` characters.
pub open spec fn rest(s: Seq<char>, n: int) -> Seq<char> {
    s.subrange(n, s.len() as int)
}

pub fn starts_with(a: &[char], p: &str) -> (r: bool)
    ensures
        r == has_prefix(a@, p@),
{
    let b = to_chars(p);
    if b.len() > a.len() {
        return false;
    }
    same(part(a, 0, b.len()), &b)
}

pub fn ends_with(a: &[char], p: &str) -> (r: bool)
    ensures
        r == has_suffix(a@, p@),
{
    let b = to_chars(p);
    if b.len() > a.len() {
        return false;
    }
    same(part(a, a.len() - b.len(), a.len()), &b)
}

/// What follows the prefix `p`, if `a` begins with it.
pub fn strip_prefix<'a>(a: &'a [char], p: &str) -> (r: Option<&'a [char]>)
    ensures
        r is Some <==> has_prefix(a@, p@),
        r matches Some(t) ==> t@ == rest(a@, p@.len() as int),
{
    let b = to_chars(p);
    if b.len() > a.len() {
        return None;
    }
    if same(part(a, 0, b.len()), &b) {
        Some(part(a, b.len(), a.len()))
    } else {
        None
    }
}

// ---- searching ----

/// The first position at or after `i` that holds `c`, or the length.
pub open spec fn find_from(s: Seq<char>, c: char, i: int) -> int
    decreases s.len() - i,
{
    if i >= s.len() {
        s.len() as int
    } else if s[i] == c {
        i
    } else {
        find_from(s, c, i + 1)
    }
}

pub proof fn lemma_find_from(s: Seq<char>, c: char, i: int)
    requires
        0 <= i <= s.len(),
    ensures
        i <= find_from(s, c, i) <= s.len(),
        forall|j: int| i <= j < find_from(s, c, i) ==> s[j] != c,
        find_from(s, c, i) < s.len() ==> s[find_from(s, c, i)] == c,
    decreases s.len() - i,
{
    if i < s.len() && s[i] != c {
        lemma_find_from(s, c, i + 1);
    }
}

/// A position with nothing before it and `c` on it is the first one.
pub proof fn lemma_find_from_is(s: Seq<char>, c: char, i: int, k: int)
    requires
        0 <= i <= k <= s.len(),
        forall|j: int| i <= j < k ==> s[j] != c,
        k < s.len() ==> s[k] == c,
    ensures
        find_from(s, c, i) == k,
    decreases k - i,
{
    if i < k {
        lemma_find_from_is(s, c, i + 1, k);
    }
}

pub fn find_char(a: &[char], c: char, from: usize) -> (r: usize)
    requires
        from <= a@.len(),
    ensures
        r == find_from(a@, c, from as int),
        from <= r <= a@.len(),
{
    let mut i: usize = from;
    while i < a.len()
        invariant
            from <= i <= a@.len(),
            find_from(a@, c, from as int) == find_from(a@, c, i as int),
        decreases a@.len() - i,
    {
        if a[i] == c {
            return i;
        }
        i = i + 1;
    }
    i
}

/// Whether `p` stands in `s` at position `i`.
pub open spec fn has_at(s: Seq<char>, p: Seq<char>, i: int) -> bool {
    0 <= i && i + p.len() <= s.len() && s.subrange(i, i + p.len()) == p
}

/// Whether `p` stands anywhere in `s`.
pub open spec fn has_part(s: Seq<char>, p: Seq<char>) -> bool {
    exists|i: int| #[trigger] has_at(s, p, i)
}

pub fn contains(a: &[char], p: &str) -> (r: bool)
    ensures
        r == has_part(a@, p@),
{
    let b = to_chars(p);
    if b.len() > a.len() {
        return false;
    }
    let end: usize = a.len();
    let last: usize = end - b.len();
    let mut i: usize = 0;
    loop
        invariant
            end == a@.len(),
            last == end - b@.len(),
            b@ == p@,
            i <= last,
            forall|j: int| 0 <= j < i ==> !has_at(a@, p@, j),
        decreases last - i,
    {
        if same(part(a, i, i + b.len()), &b) {
            assert(has_at(a@, p@, i as int));
            return true;
        }
        assert(!has_at(a@, p@, i as int));
        if i == last {
            return false;
        }
        i = i + 1;
    }
}

/// The text before the first `c` and the text after it.
pub open spec fn split_once(s: Seq<char>, c: char) -> Option<(Seq<char>, Seq<char>)> {
    let i = find_from(s, c, 0);
    if i < s.len() {
        Some((s.subrange(0, i), rest(s, i + 1)))
    } else {
        None
    }
}

pub fn split_once_of(a: &[char], c: char) -> (r: Option<(&[char], &[char])>)
    ensures
        r is Some <==> split_once(a@, c) is Some,
        r matches Some(t) ==> split_once(a@, c) == Some((t.0@, t.1@)),
{
    let i = find_char(a, c, 0);
    if i < a.len() {
        Some((part(a, 0, i), part(a, i + 1, a.len())))
    } else {
        None
    }
}

// ---- white space ----

/// The characters with Unicode's `White_Space` property.
pub open spec fn is_white_space(c: char) -> bool {
    ||| 0x09 <= c as u32 <= 0x0d
    ||| c as u32 == 0x20
    ||| c as u32 == 0x85
    ||| c as u32 == 0xa0
    ||| c as u32 == 0x1680
    ||| 0x2000 <= c as u32 <= 0x200a
    ||| c as u32 == 0x2028
    ||| c as u32 == 0x2029
    ||| c as u32 == 0x202f
    ||| c as u32 == 0x205f
    ||| c as u32 == 0x3000
}

pub fn white_space(c: char) -> (r: bool)
    ensures
        r == is_white_space(c),
{
    let u: u32 = c as u32;
    (0x09 <= u && u <= 0x0d) || u == 0x20 || u == 0x85 || u == 0xa0 || u == 0x1680 || (0x2000 <= u
        && u <= 0x200a) || u == 0x2028 || u == 0x2029 || u == 0x202f || u == 0x205f || u == 0x3000
}

/// The first position at or after `i` whose character is white space exactly
/// if `ws`, or the length.
pub open spec fn skip_from(s: Seq<char>, ws: bool, i: int) -> int
    decreases s.len() - i,
{
    if i >= s.len() {
        s.len() as int
    } else if is_white_space(s[i]) == ws {
        i
    } else {
        skip_from(s, ws, i + 1)
    }
}

pub proof fn lemma_skip_from(s: Seq<char>, ws: bool, i: int)
    requires
        0 <= i <= s.len(),
    ensures
        i <= skip_from(s, ws, i) <= s.len(),
        forall|j: int| i <= j < skip_from(s, ws, i) ==> is_white_space(s[j]) != ws,
        skip_from(s, ws, i) < s.len() ==> is_white_space(s[skip_from(s, ws, i)]) == ws,
    decreases s.len() - i,
{
    if i < s.len() && is_white_space(s[i]) != ws {
        lemma_skip_from(s, ws, i + 1);
    }
}

fn skip(a: &[char], ws: bool, from: usize) -> (r: usize)
    requires
        from <= a@.len(),
    ensures
        r == skip_from(a@, ws, from as int),
        from <= r <= a@.len(),
{
    let mut i: usize = from;
    while i < a.len()
        invariant
            from <= i <= a@.len(),
            skip_from(a@, ws, from as int) == skip_from(a@, ws, i as int),
        decreases a@.len() - i,
    {
        if white_space(a[i]) == ws {
            return i;
        }
        i = i + 1;
    }
    i
}

/// The end of `s[..j]` once trailing white space is gone.
pub open spec fn trimmed_end(s: Seq<char>, j: int) -> int
    decreases j,
{
    if j <= 0 {
        0
    } else if is_white_space(s[j - 1]) {
        trimmed_end(s, j - 1)
    } else {
        j
    }
}

pub open spec fn trim_start(s: Seq<char>) -> Seq<char> {
    rest(s, skip_from(s, false, 0))
}

pub open spec fn trim_end(s: Seq<char>) -> Seq<char> {
    s.subrange(0, trimmed_end(s, s.len() as int))
}

/// The text without white space at either end.
pub open spec fn trim(s: Seq<char>) -> Seq<char> {
    trim_end(trim_start(s))
}

pub fn trim_start_of(a: &[char]) -> (r: &[char])
    ensures
        r@ == trim_start(a@),
{
    let i = skip(a, false, 0);
    part(a, i, a.len())
}

pub fn trim_end_of(a: &[char]) -> (r: &[char])
    ensures
        r@ == trim_end(a@),
{
    let mut j: usize = a.len();
    while j > 0 && white_space(a[j - 1])
        invariant
            j <= a@.len(),
            trimmed_end(a@, a@.len() as int) == trimmed_end(a@, j as int),
        decreases j,
    {
        j = j - 1;
    }
    part(a, 0, j)
}

pub fn trim_of(a: &[char]) -> (r: &[char])
    ensures
        r@ == trim(a@),
{
    trim_end_of(trim_start_of(a))
}

/// Text that has no white space at either end is not changed by trimming.
pub proof fn lemma_trim_of_tight(s: Seq<char>)
    requires
        s.len() > 0 ==> !is_white_space(s[0]) && !is_white_space(s.last()),
    ensures
        trim(s) == s,
{
    assert(trim_start(s) =~= s);
    assert(trim_end(s) =~= s);
}

/// One space before tight text is trimmed away.
pub proof fn lemma_trim_drops_space(s: Seq<char>)
    requires
        s.len() > 0 ==> !is_white_space(s[0]) && !is_white_space(s.last()),
    ensures
        trim(seq![' '] + s) == s,
{
    let t = seq![' '] + s;
    reveal_with_fuel(skip_from, 3);
    assert(trim_start(t) =~= s);
    assert(trim_end(s) =~= s);
}

// ---- splitting ----

/// The texts that a vector of character vectors holds.
pub open spec fn texts(v: Seq<Vec<char>>) -> Seq<Seq<char>> {
    Seq::new(v.len(), |i: int| v[i]@)
}

/// The runs of characters other than white space, from position `i` on.
pub open spec fn words_from(s: Seq<char>, i: int) -> Seq<Seq<char>>
    decreases s.len() - i,
    when 0 <= i <= s.len()
{
    let a = skip_from(s, false, i);
    if a >= s.len() {
        Seq::empty()
    } else {
        let b = skip_from(s, true, a);
        proof {
            lemma_skip_from(s, false, i);
            lemma_skip_from(s, true, a);
        }
        seq![s.subrange(a, b)] + words_from(s, b)
    }
}

/// The runs of characters other than white space.
pub open spec fn words(s: Seq<char>) -> Seq<Seq<char>> {
    words_from(s, 0)
}

pub fn words_of(a: &[char]) -> (v: Vec<Vec<char>>)
    ensures
        texts(v@) == words(a@),
{
    let mut v: Vec<Vec<char>> = Vec::new();
    let mut i: usize = 0;
    assert(texts(v@) + words_from(a@, 0) =~= words(a@));
    while i < a.len()
        invariant
            i <= a@.len(),
            texts(v@) + words_from(a@, i as int) == words(a@),
        decreases a@.len() - i,
    {
        let b = skip(a, false, i);
        if b >= a.len() {
            assert(words_from(a@, i as int) =~= Seq::empty());
            assert(texts(v@) =~= words(a@));
            return v;
        }
        let e = skip(a, true, b);
        proof {
            lemma_skip_from(a@, false, i as int);
            lemma_skip_from(a@, true, b as int);
        }
        let ghost before = texts(v@);
        v.push(copy(part(a, b, e)));
        assert(texts(v@) =~= before.push(a@.subrange(b as int, e as int)));
        assert(texts(v@) + words_from(a@, e as int) =~= before + words_from(a@, i as int));
        i = e;
    }
    assert(texts(v@) =~= words(a@));
    v
}

/// The pieces between the occurrences of `c`, from position `i` on.
pub open spec fn pieces_from(s: Seq<char>, c: char, i: int) -> Seq<Seq<char>>
    decreases s.len() - i,
    when 0 <= i <= s.len()
{
    let j = find_from(s, c, i);
    if j >= s.len() {
        seq![rest(s, i)]
    } else {
        proof {
            lemma_find_from(s, c, i);
        }
        seq![s.subrange(i, j)] + pieces_from(s, c, j + 1)
    }
}

/// The pieces between the occurrences of `c`.
pub open spec fn pieces(s: Seq<char>, c: char) -> Seq<Seq<char>> {
    pieces_from(s, c, 0)
}

pub fn pieces_of(a: &[char], c: char) -> (v: Vec<Vec<char>>)
    ensures
        texts(v@) == pieces(a@, c),
{
    let mut v: Vec<Vec<char>> = Vec::new();
    let mut i: usize = 0;
    assert(texts(v@) + pieces_from(a@, c, 0) =~= pieces(a@, c));
    loop
        invariant
            i <= a@.len(),
            texts(v@) + pieces_from(a@, c, i as int) == pieces(a@, c),
        decreases a@.len() - i,
    {
        let j = find_char(a, c, i);
        let ghost before = texts(v@);
        v.push(copy(part(a, i, j)));
        assert(texts(v@) =~= before.push(a@.subrange(i as int, j as int)));
        if j >= a.len() {
            assert(texts(v@) =~= pieces(a@, c));
            return v;
        }
        assert(texts(v@) + pieces_from(a@, c, j + 1) =~= before + pieces_from(a@, c, i as int));
        i = j + 1;
    }
}

/// A line without the carriage return that ended it.
pub open spec fn strip_cr(s: Seq<char>) -> Seq<char> {
    if s.len() > 0 && s.last() == '\r' {
        s.drop_last()
    } else {
        s
    }
}

/// The lines from position `i` on. A line ends in a line feed, which may have
/// a carriage return before it; the last line may have no ending.
pub open spec fn lines_from(s: Seq<char>, i: int) -> Seq<Seq<char>>
    decreases s.len() - i,
    when 0 <= i <= s.len()
{
    let j = find_from(s, '\n', i);
    if i >= s.len() {
        Seq::empty()
    } else if j >= s.len() {
        seq![rest(s, i)]
    } else {
        proof {
            lemma_find_from(s, '\n', i);
        }
        seq![strip_cr(s.subrange(i, j))] + lines_from(s, j + 1)
    }
}

/// The lines of a text.
pub open spec fn lines(s: Seq<char>) -> Seq<Seq<char>> {
    lines_from(s, 0)
}

pub fn lines_of(a: &[char]) -> (v: Vec<Vec<char>>)
    ensures
        texts(v@) == lines(a@),
{
    let mut v: Vec<Vec<char>> = Vec::new();
    let mut i: usize = 0;
    assert(texts(v@) + lines_from(a@, 0) =~= lines(a@));
    while i < a.len()
        invariant
            i <= a@.len(),
            texts(v@) + lines_from(a@, i as int) == lines(a@),
        decreases a@.len() - i,
    {
        let j = find_char(a, '\n', i);
        let ghost before = texts(v@);
        if j >= a.len() {
            v.push(copy(part(a, i, j)));
            assert(texts(v@) =~= before.push(rest(a@, i as int)));
            assert(texts(v@) =~= lines(a@));
            return v;
        }
        if j > i && a[j - 1] == '\r' {
            v.push(copy(part(a, i, j - 1)));
            assert(a@.subrange(i as int, j as int).drop_last() =~= a@.subrange(
                i as int,
                j - 1,
            ));
        } else {
            v.push(copy(part(a, i, j)));
        }
        assert(texts(v@) =~= before.push(strip_cr(a@.subrange(i as int, j as int))));
        assert(texts(v@) + lines_from(a@, j + 1) =~= before + lines_from(a@, i as int));
        i = j + 1;
    }
    assert(texts(v@) =~= lines(a@));
    v
}

/// The first position at or after `i` where a carriage return and a line feed
/// stand, or the length.
pub open spec fn find_crlf(s: Seq<char>, i: int) -> int
    decreases s.len() - i,
{
    if i + 2 > s.len() {
        s.len() as int
    } else if s[i] == '\r' && s[i + 1] == '\n' {
        i
    } else {
        find_crlf(s, i + 1)
    }
}

pub proof fn lemma_find_crlf(s: Seq<char>, i: int)
    requires
        0 <= i <= s.len(),
    ensures
        i <= find_crlf(s, i) <= s.len(),
        find_crlf(s, i) < s.len() ==> find_crlf(s, i) + 2 <= s.len(),
    decreases s.len() - i,
{
    if i + 2 <= s.len() && !(s[i] == '\r' && s[i + 1] == '\n') {
        lemma_find_crlf(s, i + 1);
    }
}

/// The pieces between the pairs of carriage return and line feed, from
/// position `i` on.
pub open spec fn crlf_pieces_from(s: Seq<char>, i: int) -> Seq<Seq<char>>
    decreases s.len() - i,
    when 0 <= i <= s.len()
{
    let j = find_crlf(s, i);
    if j >= s.len() {
        seq![rest(s, i)]
    } else {
        proof {
            lemma_find_crlf(s, i);
        }
        seq![s.subrange(i, j)] + crlf_pieces_from(s, j + 2)
    }
}

/// The pieces between the pairs of carriage return and line feed.
pub open spec fn crlf_pieces(s: Seq<char>) -> Seq<Seq<char>> {
    crlf_pieces_from(s, 0)
}

fn crlf_at_or_after(a: &[char], from: usize) -> (r: usize)
    requires
        from <= a@.len(),
    ensures
        r == find_crlf(a@, from as int),
        from <= r <= a@.len(),
        r < a@.len() ==> r + 2 <= a@.len(),
{
    let mut i: usize = from;
    while i < a.len() && a.len() - i >= 2
        invariant
            from <= i <= a@.len(),
            find_crlf(a@, from as int) == find_crlf(a@, i as int),
        decreases a@.len() - i,
    {
        if a[i] == '\r' && a[i + 1] == '\n' {
            return i;
        }
        i = i + 1;
    }
    a.len()
}

pub fn crlf_pieces_of(a: &[char]) -> (v: Vec<Vec<char>>)
    ensures
        texts(v@) == crlf_pieces(a@),
{
    let mut v: Vec<Vec<char>> = Vec::new();
    let mut i: usize = 0;
    assert(texts(v@) + crlf_pieces_from(a@, 0) =~= crlf_pieces(a@));
    loop
        invariant
            i <= a@.len(),
            texts(v@) + crlf_pieces_from(a@, i as int) == crlf_pieces(a@),
        decreases a@.len() - i,
    {
        let j = crlf_at_or_after(a, i);
        let ghost before = texts(v@);
        v.push(copy(part(a, i, j)));
        assert(texts(v@) =~= before.push(a@.subrange(i as int, j as int)));
        if j >= a.len() {
            assert(texts(v@) =~= crlf_pieces(a@));
            return v;
        }
        assert(texts(v@) + crlf_pieces_from(a@, j + 2) =~= before + crlf_pieces_from(
            a@,
            i as int,
        ));
        i = j + 2;
    }
}

// ---- case ----

/// The character with an ASCII capital made small.
pub open spec fn lower(c: char) -> char {
    if 'A' <= c && c <= 'Z' {
        (c as u32 + 32) as char
    } else {
        c
    }
}

/// The text with its ASCII capitals made small.
pub open spec fn lowered(s: Seq<char>) -> Seq<char> {
    Seq::new(s.len(), |i: int| lower(s[i]))
}

pub fn lower_char(c: char) -> (r: char)
    ensures
        r == lower(c),
{
    if 'A' <= c && c <= 'Z' {
        let b: u8 = c as u8;
        (b + 32) as char
    } else {
        c
    }
}

pub fn lower_of(a: &[char]) -> (v: Vec<char>)
    ensures
        v@ == lowered(a@),
{
    let mut v: Vec<char> = Vec::new();
    let mut i: usize = 0;
    while i < a.len()
        invariant
            i <= a@.len(),
            v@ == lowered(a@.take(i as int)),
        decreases a@.len() - i,
    {
        v.push(lower_char(a[i]));
        i = i + 1;
        assert(lowered(a@.take(i as int)) =~= lowered(a@.take(i - 1)).push(lower(a@[i - 1])));
    }
    assert(a@.take(a@.len() as int) == a@);
    v
}

/// Whether two texts are the same but for ASCII case.
pub fn same_but_case(a: &[char], b: &[char]) -> (r: bool)
    ensures
        r == (lowered(a@) == lowered(b@)),
{
    let x = lower_of(a);
    let y = lower_of(b);
    same(&x, &y)
}

// ---- quoting ----

/// What `{:?}` writes for a string.
pub uninterp spec fn quoted(s: Seq<char>) -> Seq<char>;

/// `format!` with `{:?}` on a string: the text in double quotes, with the
/// characters that need it escaped. Only that it depends on the text alone is
/// claimed.
#[verifier::external_body]
pub(crate) fn quote(s: &str) -> (r: String)
    ensures
        r@ == quoted(s@),
{
    format!("{s:?}")
}

// ---- laws ----

/// Whether a text is one word: not empty, and no white space in it.
pub open spec fn is_word(w: Seq<char>) -> bool {
    w.len() > 0 && forall|j: int| 0 <= j < w.len() ==> !is_white_space(#[trigger] w[j])
}

/// The words from `i` on with one space between them.
pub open spec fn spaced(ws: Seq<Seq<char>>, i: int) -> Seq<char>
    decreases ws.len() - i,
{
    if i >= ws.len() {
        Seq::empty()
    } else if i == ws.len() - 1 {
        ws[i]
    } else {
        ws[i] + seq![' '] + spaced(ws, i + 1)
    }
}

proof fn lemma_skip_is(s: Seq<char>, ws: bool, i: int, k: int)
    requires
        0 <= i <= k <= s.len(),
        forall|j: int| i <= j < k ==> is_white_space(#[trigger] s[j]) != ws,
        k < s.len() ==> is_white_space(s[k]) == ws,
    ensures
        skip_from(s, ws, i) == k,
    decreases k - i,
{
    if i < k {
        assert(is_white_space(s[i]) != ws);
        lemma_skip_is(s, ws, i + 1, k);
    }
}

proof fn lemma_words_of_spaced(pre: Seq<char>, ws: Seq<Seq<char>>, i: int)
    requires
        0 <= i < ws.len(),
        forall|k: int| 0 <= k < ws.len() ==> is_word(#[trigger] ws[k]),
    ensures
        words_from(pre + spaced(ws, i), pre.len() as int) == ws.skip(i),
    decreases ws.len() - i,
{
    let s = pre + spaced(ws, i);
    let a = pre.len() as int;
    let b = a + ws[i].len();
    assert(is_word(ws[i]));
    assert(s[a] == ws[i][0]);
    lemma_skip_is(s, false, a, a);
    assert forall|j: int| a <= j < b implies is_white_space(#[trigger] s[j]) != true by {
        assert(s[j] == ws[i][j - a]);
    }
    if i == ws.len() - 1 {
        lemma_skip_is(s, true, a, b);
        assert(s.subrange(a, b) =~= ws[i]);
        reveal_with_fuel(words_from, 2);
        assert(words_from(s, b) =~= Seq::empty());
        assert(ws.skip(i) =~= seq![ws[i]]);
    } else {
        assert(s[b] == ' ');
        lemma_skip_is(s, true, a, b);
        assert(s.subrange(a, b) =~= ws[i]);
        let pre2 = pre + ws[i] + seq![' '];
        assert(s =~= pre2 + spaced(ws, i + 1));
        lemma_words_of_spaced(pre2, ws, i + 1);
        assert(skip_from(s, false, b) == skip_from(s, false, b + 1));
        assert(words_from(s, b) == words_from(s, b + 1));
        assert(ws.skip(i) =~= seq![ws[i]] + ws.skip(i + 1));
    }
}

/// Words written with a space between them are read as those words.
pub proof fn law_words_of_spaced(ws: Seq<Seq<char>>)
    requires
        ws.len() > 0,
        forall|k: int| 0 <= k < ws.len() ==> is_word(#[trigger] ws[k]),
    ensures
        words(spaced(ws, 0)) == ws,
{
    lemma_words_of_spaced(Seq::empty(), ws, 0);
    assert(Seq::<char>::empty() + spaced(ws, 0) =~= spaced(ws, 0));
    assert(ws.skip(0) =~= ws);
}

/// Words written with a space between them make a text with no white space at
/// either end.
pub proof fn lemma_spaced_is_tight(ws: Seq<Seq<char>>, i: int)
    requires
        0 <= i < ws.len(),
        forall|k: int| 0 <= k < ws.len() ==> is_word(#[trigger] ws[k]),
    ensures
        spaced(ws, i).len() > 0,
        !is_white_space(spaced(ws, i)[0]),
        !is_white_space(spaced(ws, i).last()),
    decreases ws.len() - i,
{
    assert(is_word(ws[i]));
    if i < ws.len() - 1 {
        lemma_spaced_is_tight(ws, i + 1);
        assert(spaced(ws, i).last() == spaced(ws, i + 1).last());
    }
    assert(spaced(ws, i)[0] == ws[i][0]);
}

/// A character that is no space and in none of the words is not in them when
/// they are written with spaces between them.
pub proof fn lemma_spaced_lacks(ws: Seq<Seq<char>>, i: int, c: char)
    requires
        0 <= i <= ws.len(),
        c != ' ',
        forall|k: int, j: int| 0 <= k < ws.len() && 0 <= j < ws[k].len() ==> #[trigger] ws[k][j] != c,
    ensures
        forall|j: int| 0 <= j < spaced(ws, i).len() ==> spaced(ws, i)[j] != c,
    decreases ws.len() - i,
{
    if i < ws.len() {
        let s = spaced(ws, i);
        let n = ws[i].len();
        lemma_spaced_lacks(ws, i + 1, c);
        assert forall|j: int| 0 <= j < s.len() implies s[j] != c by {
            if j < n {
                assert(s[j] == ws[i][j]);
            } else if j > n {
                assert(s[j] == spaced(ws, i + 1)[j - n - 1]);
            }
        }
    }
}

// ---- the order of texts ----

/// Whether `a` comes before `b` from the `i`-th character on: as the first
/// character in which they differ does, or because it ends first.
pub open spec fn less_from(a: Seq<char>, b: Seq<char>, i: int) -> bool
    decreases b.len() - i,
{
    if i >= b.len() || i < 0 {
        false
    } else if i >= a.len() {
        true
    } else if a[i] != b[i] {
        (a[i] as u32) < (b[i] as u32)
    } else {
        less_from(a, b, i + 1)
    }
}

/// Whether `a` comes before `b`.
pub open spec fn less(a: Seq<char>, b: Seq<char>) -> bool {
    less_from(a, b, 0)
}

/// Whether `a` comes before `b`.
pub fn comes_before(a: &[char], b: &[char]) -> (r: bool)
    ensures
        r == less(a@, b@),
{
    let n: usize = a.len();
    let m: usize = b.len();
    let mut i: usize = 0;
    while i < m
        invariant
            i <= m,
            i <= n,
            n == a@.len(),
            m == b@.len(),
            less(a@, b@) == less_from(a@, b@, i as int),
        decreases m - i,
    {
        if i >= n {
            return true;
        }
        if a[i] != b[i] {
            return (a[i] as u32) < (b[i] as u32);
        }
        i = i + 1;
    }
    false
}

proof fn lemma_less_total(a: Seq<char>, b: Seq<char>, i: int)
    requires
        0 <= i <= a.len(),
        i <= b.len(),
        forall|k: int| 0 <= k < i ==> a[k] == b[k],
    ensures
        less_from(a, b, i) || less_from(b, a, i) || a == b,
        !(less_from(a, b, i) && less_from(b, a, i)),
        a == b ==> !less_from(a, b, i),
    decreases b.len() - i,
{
    if i < a.len() && i < b.len() {
        if a[i] == b[i] {
            lemma_less_total(a, b, i + 1);
        } else {
            assert((a[i] as u32) != (b[i] as u32)) by {
                if (a[i] as u32) == (b[i] as u32) {
                    vstd::utf8::char_u32_cast(a[i], a[i] as u32);
                    vstd::utf8::char_u32_cast(b[i], b[i] as u32);
                }
            }
        }
    } else if i >= a.len() && i >= b.len() {
        assert(a =~= b);
    }
}

proof fn lemma_less_transitive(a: Seq<char>, b: Seq<char>, c: Seq<char>, i: int)
    requires
        0 <= i,
        less_from(a, b, i),
        less_from(b, c, i),
    ensures
        less_from(a, c, i),
    decreases c.len() - i,
{
    if i < a.len() && a[i] == b[i] && b[i] == c[i] {
        lemma_less_transitive(a, b, c, i + 1);
    }
}

/// The order of texts is a strict one: of two texts one comes before the other
/// unless they are the same, and what comes before something comes before all
/// that follows it.
pub proof fn law_texts_are_ordered(a: Seq<char>, b: Seq<char>, c: Seq<char>)
    ensures
        !less(a, a),
        less(a, b) || less(b, a) || a == b,
        !(less(a, b) && less(b, a)),
        less(a, b) && less(b, c) ==> less(a, c),
{
    lemma_less_total(a, a, 0);
    lemma_less_total(a, b, 0);
    if less(a, b) && less(b, c) {
        lemma_less_transitive(a, b, c, 0);
    }
}

} // verus!
