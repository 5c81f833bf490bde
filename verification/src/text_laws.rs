//! What splitting, trimming and comparing do to a text.
use vstd::prelude::*;
use crate::text::{
    crlf_pieces, crlf_pieces_from, find_crlf, find_from, has_part, has_prefix, has_suffix,
    is_white_space, lemma_find_crlf, lemma_find_from, lemma_find_from_is, lemma_skip_from, less,
    less_from, lines, lines_from, lowered, pieces, pieces_from, rest, skip_from, split_once, trim,
    trim_end, trim_start, trimmed_end, words, words_from,
};

verus! {

/// A prefix and what follows it are the text; so are a suffix and what precedes it.
pub proof fn law_prefixes_and_suffixes(a: Seq<char>, b: Seq<char>, s: Seq<char>)
    ensures
        has_prefix(a + b, a),
        has_suffix(a + b, b),
        rest(a + b, a.len() as int) == b,
        has_prefix(s, a) ==> s == a + rest(s, a.len() as int),
        has_suffix(s, b) ==> s == s.take(s.len() - b.len()) + b,
{
    assert((a + b).subrange(0, a.len() as int) =~= a);
    assert((a + b).subrange(a.len() as int, (a + b).len() as int) =~= b);
    if has_prefix(s, a) {
        assert(s =~= s.subrange(0, a.len() as int) + rest(s, a.len() as int));
    }
    if has_suffix(s, b) {
        assert(s =~= s.take(s.len() - b.len()) + s.subrange(
            s.len() - b.len(),
            s.len() as int,
        ));
    }
}

/// Whatever stands around a text, the whole has it as a part.
pub proof fn law_parts(a: Seq<char>, p: Seq<char>, b: Seq<char>)
    ensures
        has_part(a + p + b, p),
        p.len() > a.len() ==> !has_part(a, p),
{
    let s = a + p + b;
    assert(s.subrange(a.len() as int, (a.len() + p.len()) as int) =~= p);
    assert(crate::text::has_at(s, p, a.len() as int));
}

/// A text is split at the first mark, which is in neither half; without a mark it is
/// not split.
pub proof fn law_a_text_is_split_at_the_first_mark(a: Seq<char>, c: char, b: Seq<char>)
    requires
        !a.contains(c),
    ensures
        split_once(a + seq![c] + b, c) == Some((a, b)),
        split_once(a, c) is None,
{
    let s = a + seq![c] + b;
    assert forall|j: int| 0 <= j < a.len() implies s[j] != c && a[j] != c by {
        assert(a.contains(a[j]));
        assert(s[j] == a[j]);
    }
    lemma_find_from_is(s, c, 0, a.len() as int);
    lemma_find_from_is(a, c, 0, a.len() as int);
    assert(s.subrange(0, a.len() as int) =~= a);
    assert(rest(s, a.len() as int + 1) =~= b);
}

/// White space is Unicode's: the tab to the carriage return, the space, the next
/// line, the no-break space, the Ogham space, the typographic ones, the separators
/// and the ideographic space.
pub proof fn law_what_white_space_is(c: char)
    ensures
        is_white_space(c) <==> (c == '\t' || c == '\n' || c == '\u{b}' || c == '\u{c}' || c == '\r'
            || c == ' ' || c == '\u{85}' || c == '\u{a0}' || c == '\u{1680}' || '\u{2000}' <= c
            <= '\u{200a}' || c == '\u{2028}' || c == '\u{2029}' || c == '\u{202f}' || c == '\u{205f}'
            || c == '\u{3000}'),
{
}

proof fn lemma_trimmed(s: Seq<char>, j: int)
    requires
        0 <= j <= s.len(),
    ensures
        0 <= trimmed_end(s, j) <= j,
        forall|i: int| trimmed_end(s, j) <= i < j ==> is_white_space(#[trigger] s[i]),
        trimmed_end(s, j) > 0 ==> !is_white_space(s[trimmed_end(s, j) - 1]),
    decreases j,
{
    if j > 0 && is_white_space(s[j - 1]) {
        lemma_trimmed(s, j - 1);
    }
}

/// Whatever white space stands at an end is taken off that end, and nothing else.
pub proof fn law_only_the_ends_are_trimmed(a: Seq<char>, t: Seq<char>, b: Seq<char>)
    requires
        forall|i: int| 0 <= i < a.len() ==> is_white_space(#[trigger] a[i]),
        forall|i: int| 0 <= i < b.len() ==> is_white_space(#[trigger] b[i]),
        t.len() > 0,
        !is_white_space(t[0]),
        !is_white_space(t.last()),
    ensures
        trim_start(a + t + b) == t + b,
        trim_end(a + t + b) == a + t,
        trim(a + t + b) == t,
{
    let s = a + t + b;
    lemma_skip_from(s, false, 0);
    let k = skip_from(s, false, 0);
    assert(s[a.len() as int] == t[0]);
    assert forall|i: int| 0 <= i < a.len() implies is_white_space(#[trigger] s[i]) by {
        assert(s[i] == a[i]);
    }
    assert(k == a.len());
    assert(trim_start(s) =~= t + b);
    lemma_tail(a + t, b);
    assert(trim_end(s) =~= a + t);
    lemma_tail(t, b);
    assert((t + b).subrange(0, t.len() as int) =~= t);
}

proof fn lemma_tail(t: Seq<char>, b: Seq<char>)
    requires
        forall|i: int| 0 <= i < b.len() ==> is_white_space(#[trigger] b[i]),
        t.len() > 0,
        !is_white_space(t.last()),
    ensures
        trimmed_end(t + b, (t + b).len() as int) == t.len(),
{
    let s = t + b;
    lemma_trimmed(s, s.len() as int);
    let k = trimmed_end(s, s.len() as int);
    assert(s[t.len() - 1] == t.last());
    if k > t.len() {
        assert(s[k - 1] == b[k - 1 - t.len()]);
    }
}

/// White space alone is trimmed to nothing and has no words.
pub proof fn law_white_space_alone(a: Seq<char>)
    requires
        forall|i: int| 0 <= i < a.len() ==> is_white_space(#[trigger] a[i]),
    ensures
        trim(a) == Seq::<char>::empty(),
        words(a) == Seq::<Seq<char>>::empty(),
{
    lemma_skip_from(a, false, 0);
    assert(skip_from(a, false, 0) == a.len());
    assert(trim_start(a) =~= Seq::empty());
    assert(trim(a) =~= Seq::empty());
}

/// A mark begins a new piece: what precedes the first one is a piece, and the pieces
/// of what follows it come after. A text without the mark is one piece.
pub proof fn law_pieces_lie_between_the_marks(a: Seq<char>, c: char, b: Seq<char>)
    requires
        !a.contains(c),
    ensures
        pieces(a, c) == seq![a],
        pieces(a + seq![c] + b, c) == seq![a] + pieces(b, c),
{
    let s = a + seq![c] + b;
    let p = a + seq![c];
    assert forall|j: int| 0 <= j < a.len() implies s[j] != c && a[j] != c by {
        assert(a.contains(a[j]));
        assert(s[j] == a[j]);
    }
    lemma_find_from_is(a, c, 0, a.len() as int);
    lemma_find_from_is(s, c, 0, a.len() as int);
    assert(rest(a, 0) =~= a);
    assert(s.subrange(0, a.len() as int) =~= a);
    lemma_pieces_shift(p, b, c, 0);
}

proof fn lemma_find_shift(p: Seq<char>, b: Seq<char>, c: char, i: int)
    requires
        0 <= i <= b.len(),
    ensures
        find_from(p + b, c, p.len() + i) == p.len() + find_from(b, c, i),
{
    lemma_find_from(b, c, i);
    let k = find_from(b, c, i);
    assert forall|j: int| p.len() + i <= j < p.len() + k implies (p + b)[j] != c by {
        assert((p + b)[j] == b[j - p.len()]);
    }
    if k < b.len() {
        assert((p + b)[p.len() + k] == b[k]);
    }
    lemma_find_from_is(p + b, c, p.len() + i, p.len() + k);
}

proof fn lemma_pieces_shift(p: Seq<char>, b: Seq<char>, c: char, i: int)
    requires
        0 <= i <= b.len(),
    ensures
        pieces_from(p + b, c, p.len() + i) == pieces_from(b, c, i),
    decreases b.len() - i,
{
    let k = find_from(b, c, i);
    lemma_find_from(b, c, i);
    lemma_find_shift(p, b, c, i);
    if k >= b.len() {
        assert(rest(p + b, p.len() + i) =~= rest(b, i));
    } else {
        assert((p + b).subrange(p.len() + i, p.len() + k) =~= b.subrange(i, k));
        lemma_pieces_shift(p, b, c, k + 1);
    }
}

/// A line ends at a line feed, or a carriage return and a line feed, and the lines of
/// what follows come after. What has no line feed is one line if it is not empty, and
/// a carriage return at its end stays.
pub proof fn law_lines_end_at_line_feeds(a: Seq<char>, b: Seq<char>)
    requires
        !a.contains('\n'),
    ensures
        a.len() > 0 ==> lines(a) == seq![a],
        a.len() == 0 ==> lines(a) == Seq::<Seq<char>>::empty(),
        a.len() == 0 || a.last() != '\r' ==> lines(a + seq!['\n'] + b) == seq![a] + lines(b),
        a.len() > 0 && a.last() == '\r' ==> lines(a + seq!['\n'] + b) == seq![a.drop_last()]
            + lines(b),
{
    let s = a + seq!['\n'] + b;
    let p = a + seq!['\n'];
    assert forall|j: int| 0 <= j < a.len() implies s[j] != '\n' && a[j] != '\n' by {
        assert(a.contains(a[j]));
        assert(s[j] == a[j]);
    }
    lemma_find_from_is(a, '\n', 0, a.len() as int);
    lemma_find_from_is(s, '\n', 0, a.len() as int);
    assert(rest(a, 0) =~= a);
    assert(s.subrange(0, a.len() as int) =~= a);
    lemma_lines_shift(p, b, 0);
}

proof fn lemma_lines_shift(p: Seq<char>, b: Seq<char>, i: int)
    requires
        0 <= i <= b.len(),
    ensures
        lines_from(p + b, p.len() + i) == lines_from(b, i),
    decreases b.len() - i,
{
    let k = find_from(b, '\n', i);
    lemma_find_from(b, '\n', i);
    lemma_find_shift(p, b, '\n', i);
    if i >= b.len() {
    } else if k >= b.len() {
        assert(rest(p + b, p.len() + i) =~= rest(b, i));
    } else {
        assert((p + b).subrange(p.len() + i, p.len() + k) =~= b.subrange(i, k));
        lemma_lines_shift(p, b, k + 1);
    }
}

/// Whether a carriage return and a line feed stand at `i`.
pub open spec fn ends_at(s: Seq<char>, i: int) -> bool {
    0 <= i && i + 1 < s.len() && s[i] == '\r' && s[i + 1] == '\n'
}

proof fn lemma_crlf_is(s: Seq<char>, i: int, k: int)
    requires
        0 <= i <= k <= s.len(),
        forall|j: int| i <= j < k ==> !#[trigger] ends_at(s, j),
        k < s.len() ==> ends_at(s, k),
    ensures
        find_crlf(s, i) == k,
    decreases k - i,
{
    assert(i < k ==> !ends_at(s, i));
    if i < k && i + 2 <= s.len() {
        lemma_crlf_is(s, i + 1, k);
    }
}

proof fn lemma_crlf(s: Seq<char>, i: int)
    requires
        0 <= i <= s.len(),
    ensures
        forall|j: int| i <= j < find_crlf(s, i) ==> !#[trigger] ends_at(s, j),
        find_crlf(s, i) < s.len() ==> ends_at(s, find_crlf(s, i)),
    decreases s.len() - i,
{
    if i + 2 <= s.len() && !ends_at(s, i) {
        lemma_crlf(s, i + 1);
    }
}

/// A carriage return with a line feed begins a new piece: what precedes the first is
/// a piece, and the pieces of what follows come after.
pub proof fn law_pieces_lie_between_the_ends(a: Seq<char>, b: Seq<char>)
    requires
        forall|j: int| !#[trigger] ends_at(a, j),
    ensures
        crlf_pieces(a) == seq![a],
        crlf_pieces(a + seq!['\r', '\n'] + b) == seq![a] + crlf_pieces(b),
{
    let s = a + seq!['\r', '\n'] + b;
    let p = a + seq!['\r', '\n'];
    assert forall|j: int| 0 <= j < a.len() implies !#[trigger] ends_at(s, j) by {
        assert(!ends_at(a, j));
        assert(s[j] == a[j]);
        if j + 1 < a.len() {
            assert(s[j + 1] == a[j + 1]);
        } else {
            assert(s[j + 1] == '\r');
        }
    }
    assert(s[a.len() as int] == '\r' && s[a.len() as int + 1] == '\n');
    lemma_crlf_is(a, 0, a.len() as int);
    lemma_crlf_is(s, 0, a.len() as int);
    assert(rest(a, 0) =~= a);
    assert(s.subrange(0, a.len() as int) =~= a);
    lemma_crlf_shift(p, b, 0);
}

proof fn lemma_crlf_shift(p: Seq<char>, b: Seq<char>, i: int)
    requires
        0 <= i <= b.len(),
    ensures
        crlf_pieces_from(p + b, p.len() + i) == crlf_pieces_from(b, i),
    decreases b.len() - i,
{
    let k = find_crlf(b, i);
    lemma_find_crlf(b, i);
    lemma_crlf(b, i);
    let s = p + b;
    assert forall|j: int| p.len() + i <= j < p.len() + k implies !#[trigger] ends_at(s, j) by {
        assert(!ends_at(b, j - p.len()));
        assert(s[j] == b[j - p.len()]);
        if j + 1 < s.len() {
            assert(s[j + 1] == b[j + 1 - p.len()]);
        }
    }
    if k < b.len() {
        assert(ends_at(b, k));
        assert(s[p.len() + k] == b[k] && s[p.len() + k + 1] == b[k + 1]);
        assert(ends_at(s, p.len() + k));
    }
    lemma_crlf_is(s, p.len() + i, p.len() + k);
    if k >= b.len() {
        assert(rest(s, p.len() + i) =~= rest(b, i));
    } else {
        assert(s.subrange(p.len() + i, p.len() + k) =~= b.subrange(i, k));
        lemma_crlf_shift(p, b, k + 2);
    }
}

/// `A` to `Z` become `a` to `z`; every other character stays.
pub proof fn law_capitals_become_small(s: Seq<char>, i: int)
    requires
        0 <= i < s.len(),
    ensures
        lowered(s).len() == s.len(),
        'A' <= s[i] <= 'Z' ==> lowered(s)[i] as u32 == s[i] as u32 + 32,
        !('A' <= s[i] <= 'Z') ==> lowered(s)[i] == s[i],
{
}

/// Of two texts that differ somewhere, the first place where they differ decides, by
/// the characters' numbers; a text comes before one that goes on where it ends.
pub proof fn law_the_first_difference_decides(
    a: Seq<char>,
    x: char,
    b: Seq<char>,
    y: char,
    c: Seq<char>,
)
    ensures
        (x as u32) < (y as u32) ==> less(a + seq![x] + b, a + seq![y] + c),
        less(a, a + seq![x] + b),
        !less(a + seq![x] + b, a),
{
    lemma_less_at(a, x, b, y, c, 0);
    lemma_shorter(a, x, b, 0);
    crate::text::law_texts_are_ordered(a, a + seq![x] + b, a);
}

proof fn lemma_less_at(a: Seq<char>, x: char, b: Seq<char>, y: char, c: Seq<char>, i: int)
    requires
        0 <= i <= a.len(),
    ensures
        (x as u32) < (y as u32) ==> less_from(a + seq![x] + b, a + seq![y] + c, i),
    decreases a.len() - i,
{
    let (s, t) = (a + seq![x] + b, a + seq![y] + c);
    if i < a.len() {
        assert(s[i] == a[i] && t[i] == a[i]);
        lemma_less_at(a, x, b, y, c, i + 1);
    } else {
        assert(s[i] == x && t[i] == y);
    }
}

proof fn lemma_shorter(a: Seq<char>, x: char, b: Seq<char>, i: int)
    requires
        0 <= i <= a.len(),
    ensures
        less_from(a, a + seq![x] + b, i),
    decreases a.len() - i,
{
    let s = a + seq![x] + b;
    if i < a.len() {
        assert(s[i] == a[i]);
        lemma_shorter(a, x, b, i + 1);
    }
}

/// A word and the words of what follows the white space behind it are the words of
/// the text.
pub proof fn law_words_lie_between_white_space(w: Seq<char>, c: char, b: Seq<char>)
    requires
        w.len() > 0,
        forall|i: int| 0 <= i < w.len() ==> !is_white_space(#[trigger] w[i]),
        is_white_space(c),
    ensures
        words(w) == seq![w],
        words(w + seq![c] + b) == seq![w] + words(b),
        words(seq![c] + b) == words(b),
{
    let s = w + seq![c] + b;
    let n = w.len() as int;
    assert forall|i: int| 0 <= i < n implies !is_white_space(#[trigger] s[i]) by {
        assert(s[i] == w[i]);
    }
    assert(s[n] == c);
    lemma_skip_from(w, false, 0);
    lemma_skip_from(w, true, 0);
    lemma_skip_from(s, false, 0);
    lemma_skip_from(s, true, 0);
    assert(!is_white_space(w[0]) && !is_white_space(s[0]));
    assert(skip_from(w, true, 0) == n) by {
        let k = skip_from(w, true, 0);
        if k < n {
            assert(!is_white_space(w[k]));
        }
    }
    assert(skip_from(s, true, 0) == n) by {
        let k = skip_from(s, true, 0);
        if k < n {
            assert(!is_white_space(s[k]));
        }
        if k > n {
            assert(is_white_space(s[n]));
        }
    }
    assert(w.subrange(0, n) =~= w);
    assert(s.subrange(0, n) =~= w);
    reveal_with_fuel(words_from, 2);
    assert(words(w) =~= seq![w]);
    assert(skip_from(s, false, n) == skip_from(s, false, n + 1));
    assert(words_from(s, n) == words_from(s, n + 1));
    assert(s =~= (w + seq![c]) + b);
    lemma_words_shift(w + seq![c], b, 0);
    let t = seq![c] + b;
    assert(t[0] == c);
    assert(skip_from(t, false, 0) == skip_from(t, false, 1));
    assert(words_from(t, 0) == words_from(t, 1));
    lemma_words_shift(seq![c], b, 0);
}

proof fn lemma_skip_shift(p: Seq<char>, b: Seq<char>, ws: bool, i: int)
    requires
        0 <= i <= b.len(),
    ensures
        skip_from(p + b, ws, p.len() + i) == p.len() + skip_from(b, ws, i),
    decreases b.len() - i,
{
    if i < b.len() {
        assert((p + b)[p.len() + i] == b[i]);
        if is_white_space(b[i]) != ws {
            lemma_skip_shift(p, b, ws, i + 1);
        }
    }
}

proof fn lemma_words_shift(p: Seq<char>, b: Seq<char>, i: int)
    requires
        0 <= i <= b.len(),
    ensures
        words_from(p + b, p.len() + i) == words_from(b, i),
    decreases b.len() - i,
{
    lemma_skip_shift(p, b, false, i);
    lemma_skip_from(b, false, i);
    let x = skip_from(b, false, i);
    if x < b.len() {
        lemma_skip_shift(p, b, true, x);
        lemma_skip_from(b, true, x);
        let y = skip_from(b, true, x);
        assert((p + b).subrange(p.len() + x, p.len() + y) =~= b.subrange(x, y));
        lemma_words_shift(p, b, y);
    }
}

} // verus!
