//! What holds of RTSP messages and of the sink's half of the exchange.
use vstd::prelude::*;
use vstd::utf8::*;
use crate::number::{dec, law_dec_reads_back, law_parse_dec_of_dec, parse_dec};
use crate::text::{
    crlf_pieces, crlf_pieces_from, find_crlf, has_prefix, is_white_space, lemma_find_from_is,
    lemma_trim_drops_space, lemma_trim_of_tight, lowered, pieces, pieces_from, rest, split_once,
    trim,
};
use crate::miracast::rtsp::{
    answered, applied, body_headers, body_len, chosen_mode, ends_head, first_word, handled,
    head_end_from, head_of, header_from, header_lines, headers_of, idr_asked, message_text,
    mode_720p30, parsed, reply, request_view, requested, response_view, start_of, start_text,
    ticked, ActionView, MessageView, NegState, NegotiationState, Parsed, StartLineView,
    IDR_MIN_INTERVAL,
};
use crate::miracast::wfd::{parameters, Pair};
use crate::time::{since, Instant};

verus! {

// ---- bytes of text ----

/// The bytes of two texts together are the bytes of one and then the other.
pub proof fn lemma_encode_concat(a: Seq<char>, b: Seq<char>)
    ensures
        encode_utf8(a + b) == encode_utf8(a) + encode_utf8(b),
    decreases a.len(),
{
    if a.len() == 0 {
        assert(a + b =~= b);
        assert(encode_utf8(a) + encode_utf8(b) =~= encode_utf8(b));
    } else {
        lemma_encode_concat(a.drop_first(), b);
        assert((a + b).drop_first() =~= a.drop_first() + b);
        assert(encode_utf8(a + b) =~= encode_utf8(a) + encode_utf8(b));
    }
}

/// A character below 128 is one byte, itself; every byte of another is 128 or
/// more.
proof fn lemma_encode_scalar(c: char)
    ensures
        c as u32 <= 0x7f ==> encode_scalar(c as u32) == seq![(c as u32) as u8],
        c as u32 > 0x7f ==> forall|i: int|
            0 <= i < encode_scalar(c as u32).len() ==> #[trigger] encode_scalar(c as u32)[i] >= 0x80,
        encode_scalar(c as u32).len() > 0,
{
    let u = c as u32;
    char_is_scalar(c);
    if u <= 0x7f {
        assert((u & 0x7f) as u8 == u as u8) by (bit_vector)
            requires
                u <= 0x7f,
        ;
    } else {
        assert((0xC0u8 | ((u >> 6) & 0x1F) as u8) >= 0x80) by (bit_vector);
        assert((0xE0u8 | ((u >> 12) & 0x0F) as u8) >= 0x80) by (bit_vector);
        assert((0xF0u8 | ((u >> 18) & 0x7) as u8) >= 0x80) by (bit_vector);
        assert((0x80u8 | (u & 0x3F) as u8) >= 0x80) by (bit_vector);
        assert((0x80u8 | ((u >> 6) & 0x3F) as u8) >= 0x80) by (bit_vector);
        assert((0x80u8 | ((u >> 12) & 0x3F) as u8) >= 0x80) by (bit_vector);
    }
}

/// A first byte below 128 is the first character.
proof fn lemma_first_byte(x: Seq<char>, b: u8)
    requires
        encode_utf8(x).len() > 0,
        encode_utf8(x)[0] == b,
        b < 0x80,
    ensures
        x.len() > 0,
        x[0] as u32 == b,
        encode_utf8(x) == seq![b] + encode_utf8(x.drop_first()),
{
    lemma_encode_scalar(x[0]);
    assert(encode_utf8(x)[0] == encode_scalar(x[0] as u32)[0]);
}

/// Whether the end of a head stands at character `q`.
pub open spec fn ends_head_text(x: Seq<char>, q: int) -> bool {
    q + 4 <= x.len() && x[q] == '\r' && x[q + 1] == '\n' && x[q + 2] == '\r' && x[q + 3] == '\n'
}

/// Where no character ends the head, no byte does.
proof fn lemma_no_early_end(x: Seq<char>, k: int, p: int)
    requires
        0 <= k <= x.len(),
        forall|q: int| 0 <= q < k ==> !ends_head_text(x, q),
        0 <= p < encode_utf8(x.take(k)).len(),
    ensures
        !ends_head(encode_utf8(x), p),
    decreases k,
{
    if k == 0 {
        assert(x.take(0) =~= Seq::empty());
    } else {
        let y = x.drop_first();
        let e = encode_scalar(x[0] as u32);
        let b = encode_utf8(x);
        lemma_encode_scalar(x[0]);
        assert(x.take(k).drop_first() =~= y.take(k - 1));
        assert(b =~= e + encode_utf8(y));
        if p < e.len() {
            if ends_head(b, p) {
                assert(b[p] == e[p]);
                assert(p == 0 && x[0] as u32 <= 0x7f);
                lemma_first_byte(x, 13);
                assert(encode_utf8(y)[0] == b[1]);
                lemma_first_byte(y, 10);
                let z = y.drop_first();
                assert(encode_utf8(z)[0] == b[2]);
                lemma_first_byte(z, 13);
                let w = z.drop_first();
                assert(encode_utf8(w)[0] == b[3]);
                lemma_first_byte(w, 10);
                assert(y[0] == x[1] && z[0] == x[2] && w[0] == x[3]);
                char_u32_cast(x[0], 13);
                char_u32_cast(x[1], 10);
                char_u32_cast(x[2], 13);
                char_u32_cast(x[3], 10);
                char_u32_cast('\r', 13);
                char_u32_cast('\n', 10);
                assert(x[0] == '\r' && x[1] == '\n' && x[2] == '\r' && x[3] == '\n');
                assert(ends_head_text(x, 0));
            }
        } else {
            assert forall|q: int| 0 <= q < k - 1 implies !ends_head_text(y, q) by {
                assert(!ends_head_text(x, q + 1));
            }
            lemma_no_early_end(y, k - 1, p - e.len());
            if ends_head(b, p) {
                let f = encode_utf8(y);
                let r = p - e.len();
                assert(f[r] == b[p] && f[r + 1] == b[p + 1] && f[r + 2] == b[p + 2] && f[r + 3]
                    == b[p + 3]);
            }
        }
    }
}

/// The head ends at the first place where its end stands.
proof fn lemma_head_end_is(b: Seq<u8>, i: int, k: int)
    requires
        0 <= i <= k,
        ends_head(b, k),
        forall|p: int| i <= p < k ==> !ends_head(b, p),
    ensures
        head_end_from(b, i) == k,
    decreases k - i,
{
    if i < k {
        lemma_head_end_is(b, i + 1, k);
    }
}

// ---- lines ----

/// Whether a line can stand in a head: it is not empty and has no carriage
/// return in it.
pub open spec fn plain_line(l: Seq<char>) -> bool {
    l.len() > 0 && forall|j: int| 0 <= j < l.len() ==> l[j] != '\r'
}

/// The lines from `i` on with a line end between them.
pub open spec fn joined(ls: Seq<Seq<char>>, i: int) -> Seq<char>
    decreases ls.len() - i,
{
    if i >= ls.len() {
        Seq::empty()
    } else if i == ls.len() - 1 {
        ls[i]
    } else {
        ls[i] + "\r\n"@ + joined(ls, i + 1)
    }
}

proof fn lemma_find_crlf_is(s: Seq<char>, i: int, k: int)
    requires
        0 <= i <= k <= s.len(),
        forall|j: int| i <= j < k ==> s[j] != '\r',
        k == s.len() || (k + 2 <= s.len() && s[k] == '\r' && s[k + 1] == '\n'),
    ensures
        find_crlf(s, i) == k,
    decreases k - i,
{
    if i < k {
        lemma_find_crlf_is(s, i + 1, k);
    }
}

/// Splitting lines that were joined gives the lines back.
proof fn lemma_split_joined(pre: Seq<char>, ls: Seq<Seq<char>>, i: int)
    requires
        0 <= i < ls.len(),
        forall|k: int| 0 <= k < ls.len() ==> plain_line(#[trigger] ls[k]),
    ensures
        crlf_pieces_from(pre + joined(ls, i), pre.len() as int) == ls.skip(i),
    decreases ls.len() - i,
{
    reveal_strlit("\r\n");
    let s = pre + joined(ls, i);
    let n = pre.len() as int;
    assert(plain_line(ls[i]));
    if i == ls.len() - 1 {
        assert forall|j: int| n <= j < s.len() implies s[j] != '\r' by {
            assert(s[j] == ls[i][j - n]);
        }
        lemma_find_crlf_is(s, n, s.len() as int);
        assert(rest(s, n) =~= ls[i]);
        assert(ls.skip(i) =~= seq![ls[i]]);
    } else {
        let k = n + ls[i].len();
        assert forall|j: int| n <= j < k implies s[j] != '\r' by {
            assert(s[j] == ls[i][j - n]);
        }
        assert(s[k] == '\r' && s[k + 1] == '\n');
        lemma_find_crlf_is(s, n, k);
        let pre2 = pre + ls[i] + "\r\n"@;
        assert(s =~= pre2 + joined(ls, i + 1));
        lemma_split_joined(pre2, ls, i + 1);
        assert(s.subrange(n, k) =~= ls[i]);
        assert(ls.skip(i) =~= seq![ls[i]] + ls.skip(i + 1));
    }
}

/// No head ends inside joined lines.
proof fn lemma_joined_has_no_end(pre: Seq<char>, ls: Seq<Seq<char>>, i: int, post: Seq<char>, q: int)
    requires
        0 <= i < ls.len(),
        forall|k: int| 0 <= k < ls.len() ==> plain_line(#[trigger] ls[k]),
        pre.len() <= q < pre.len() + joined(ls, i).len(),
    ensures
        !ends_head_text(pre + joined(ls, i) + post, q),
    decreases ls.len() - i,
{
    reveal_strlit("\r\n");
    let s = pre + joined(ls, i) + post;
    let n = pre.len() as int;
    assert(plain_line(ls[i]));
    if q < n + ls[i].len() {
        assert(s[q] == ls[i][q - n]);
    } else {
        let k = n + ls[i].len();
        assert(i < ls.len() - 1);
        assert(plain_line(ls[i + 1]));
        let pre2 = pre + ls[i] + "\r\n"@;
        assert(s =~= pre2 + joined(ls, i + 1) + post);
        if q < k + 2 {
            assert(joined(ls, i + 1)[0] == ls[i + 1][0]);
            assert(s[k] == '\r' && s[k + 1] == '\n' && s[k + 2] == ls[i + 1][0]);
        } else {
            lemma_joined_has_no_end(pre2, ls, i + 1, post, q);
        }
    }
}

// ---- a message, written and read ----

/// Whether a text has no `c` in it.
pub open spec fn lacks(s: Seq<char>, c: char) -> bool {
    forall|i: int| 0 <= i < s.len() ==> s[i] != c
}

/// Whether a text has no white space at either end.
pub open spec fn tight(s: Seq<char>) -> bool {
    s.len() > 0 ==> !is_white_space(s[0]) && !is_white_space(s.last())
}

/// Whether a header can be written on a line of its own.
pub open spec fn writable_header(h: Pair) -> bool {
    &&& lacks(h.0, ':')
    &&& lacks(h.0, '\r')
    &&& lacks(h.1, '\r')
    &&& tight(h.0)
    &&& tight(h.1)
}

/// Whether a start line can be written so that it is read as itself.
pub open spec fn writable_start(s: StartLineView) -> bool {
    match s {
        StartLineView::Request { method, uri } => {
            &&& method.len() > 0
            &&& method != "RTSP/1.0"@
            &&& lacks(method, ' ')
            &&& lacks(method, '\r')
            &&& lacks(uri, ' ')
            &&& lacks(uri, '\r')
        },
        StartLineView::Response { status, reason } => lacks(reason, '\r'),
    }
}

/// Whether a message says, when written, what it holds: nothing in it is
/// mistaken for an ending or a separator, and its headers do not announce a
/// body of their own.
pub open spec fn writable(m: MessageView) -> bool {
    &&& writable_start(m.start)
    &&& forall|i: int| 0 <= i < m.headers.len() ==> writable_header(#[trigger] m.headers[i])
    &&& m.header("content-length"@) is None
    &&& encode_utf8(m.body).len() <= usize::MAX
}

/// The message with the headers that announce its body.
pub open spec fn announced(m: MessageView) -> MessageView {
    MessageView { headers: m.headers + body_headers(m.body), ..m }
}

/// The line of a header.
pub open spec fn header_line(h: Pair) -> Seq<char> {
    h.0 + ": "@ + h.1
}

/// The lines of a head.
pub open spec fn head_lines(start: StartLineView, hs: Seq<Pair>) -> Seq<Seq<char>> {
    seq![start_text(start)] + Seq::new(hs.len(), |i: int| header_line(hs[i]))
}

/// The lines of two lists of headers, one after the other.
pub proof fn lemma_header_lines_concat(a: Seq<Pair>, b: Seq<Pair>, i: int)
    requires
        0 <= i <= a.len(),
    ensures
        header_lines(a + b, i) == header_lines(a, i) + header_lines(b, 0),
    decreases a.len() - i,
{
    if i == a.len() {
        lemma_header_lines_shift(a, b, 0);
        assert(header_lines(a, i) =~= Seq::empty());
        assert(header_lines(a, i) + header_lines(b, 0) =~= header_lines(b, 0));
    } else {
        lemma_header_lines_concat(a, b, i + 1);
        assert((a + b)[i] == a[i]);
        assert(header_lines(a + b, i) =~= header_lines(a, i) + header_lines(b, 0));
    }
}

proof fn lemma_header_lines_shift(a: Seq<Pair>, b: Seq<Pair>, j: int)
    requires
        0 <= j <= b.len(),
    ensures
        header_lines(a + b, a.len() + j) == header_lines(b, j),
    decreases b.len() - j,
{
    if j < b.len() {
        lemma_header_lines_shift(a, b, j + 1);
        assert((a + b)[a.len() + j] == b[j]);
    }
}

/// The header lines are the joined lines with an ending after each.
proof fn lemma_head_is_joined(start: StartLineView, hs: Seq<Pair>, i: int)
    requires
        0 <= i <= hs.len(),
    ensures
        joined(head_lines(start, hs), i) + "\r\n"@ == head_lines(start, hs)[i] + "\r\n"@
            + header_lines(hs, i),
    decreases hs.len() - i,
{
    let ls = head_lines(start, hs);
    if i == hs.len() {
        assert(joined(ls, i) + "\r\n"@ =~= ls[i] + "\r\n"@ + header_lines(hs, i));
    } else {
        lemma_head_is_joined(start, hs, i + 1);
        assert(ls[i + 1] == header_line(hs[i]));
        assert(joined(ls, i) + "\r\n"@ =~= ls[i] + "\r\n"@ + (joined(ls, i + 1) + "\r\n"@));
        assert(joined(ls, i) + "\r\n"@ =~= ls[i] + "\r\n"@ + header_lines(hs, i));
    }
}

/// A header line is read as the header it was written from.
pub proof fn lemma_header_line_reads_back(h: Pair)
    requires
        writable_header(h),
    ensures
        plain_line(header_line(h)),
        split_once(header_line(h), ':') matches Some(kv) && (trim(kv.0), trim(kv.1)) == h,
{
    reveal_strlit(": ");
    let l = header_line(h);
    lemma_find_from_is(l, ':', 0, h.0.len() as int);
    let kv = split_once(l, ':').unwrap();
    assert(kv.0 =~= h.0);
    assert(kv.1 =~= seq![' '] + h.1);
    lemma_trim_of_tight(h.0);
    lemma_trim_drops_space(h.1);
    assert forall|j: int| 0 <= j < l.len() implies l[j] != '\r' by {
        if j < h.0.len() {
            assert(l[j] == h.0[j]);
        } else if j >= h.0.len() + 2 {
            assert(l[j] == h.1[j - h.0.len() - 2]);
        }
    }
}

proof fn lemma_headers_read_back(start: StartLineView, hs: Seq<Pair>, i: int)
    requires
        0 <= i <= hs.len(),
        forall|k: int| 0 <= k < hs.len() ==> writable_header(#[trigger] hs[k]),
    ensures
        headers_of(head_lines(start, hs), i + 1) == Ok::<Seq<Pair>, Seq<char>>(hs.skip(i)),
    decreases hs.len() - i,
{
    let ls = head_lines(start, hs);
    if i < hs.len() {
        lemma_headers_read_back(start, hs, i + 1);
        assert(writable_header(hs[i]));
        lemma_header_line_reads_back(hs[i]);
        assert(ls[i + 1] == header_line(hs[i]));
        assert(hs.skip(i) =~= seq![hs[i]] + hs.skip(i + 1));
    } else {
        assert(hs.skip(i) =~= Seq::empty());
    }
}

/// A start line is read as what it was written from.
proof fn lemma_start_reads_back(s: StartLineView)
    requires
        writable_start(s),
    ensures
        start_of(start_text(s)) == Some(s),
        plain_line(start_text(s)),
{
    reveal_strlit("RTSP/1.0 ");
    reveal_strlit("RTSP/1.0");
    reveal_strlit(" RTSP/1.0");
    reveal_strlit("RTSP/");
    reveal_strlit(" ");
    let line = start_text(s);
    match s {
        StartLineView::Response { status, reason } => {
            let d = dec(status as nat);
            law_dec_reads_back(status as nat);
            law_parse_dec_of_dec(status as nat, u16::MAX as nat);
            assert(line.subrange(0, 9) =~= "RTSP/1.0 "@);
            let t = rest(line, 9);
            assert(t =~= d + " "@ + reason);
            assert forall|j: int| 0 <= j < d.len() implies t[j] != ' ' by {
                assert(t[j] == d[j]);
                assert(crate::number::is_digit(d[j]));
            }
            lemma_find_from_is(t, ' ', 0, d.len() as int);
            let cr = split_once(t, ' ').unwrap();
            assert(cr.0 =~= d);
            assert(cr.1 =~= reason);
            assert forall|j: int| 0 <= j < line.len() implies line[j] != '\r' by {
                if j >= 9 && j < 9 + d.len() {
                    assert(line[j] == d[j - 9]);
                    assert(crate::number::is_digit(d[j - 9]));
                } else if j > 9 + d.len() {
                    assert(line[j] == reason[j - 10 - d.len()]);
                }
            }
        },
        StartLineView::Request { method, uri } => {
            let a = method.len() as int;
            let b = uri.len() as int;
            if has_prefix(line, "RTSP/1.0 "@) {
                let p = line.subrange(0, 9);
                assert(p[8] == ' ');
                assert(p =~= "RTSP/1.0 "@);
                if a > 8 {
                    assert(line[8] == method[8]);
                } else if a < 8 {
                    assert(line[a] == ' ');
                    assert(p[a] == ' ');
                    assert("RTSP/1.0 "@[a] != ' ');
                } else {
                    assert(method =~= line.subrange(0, 8));
                    assert(method =~= "RTSP/1.0"@);
                }
            }
            assert forall|j: int| 0 <= j < a implies line[j] != ' ' by {
                assert(line[j] == method[j]);
            }
            assert(line[a] == ' ');
            lemma_find_from_is(line, ' ', 0, a);
            assert forall|j: int| a + 1 <= j < a + 1 + b implies line[j] != ' ' by {
                assert(line[j] == uri[j - a - 1]);
            }
            assert(line[a + 1 + b] == ' ');
            lemma_find_from_is(line, ' ', a + 1, a + 1 + b);
            let v = rest(line, a + 2 + b);
            assert(v =~= "RTSP/1.0"@);
            assert forall|j: int| a + 2 + b <= j < line.len() implies line[j] != ' ' by {
                assert(line[j] == v[j - a - 2 - b]);
            }
            lemma_find_from_is(line, ' ', a + 2 + b, line.len() as int);
            reveal_with_fuel(pieces_from, 3);
            assert(line.subrange(0, a) =~= method);
            assert(line.subrange(a + 1, a + 1 + b) =~= uri);
            assert(pieces(line, ' ') =~= seq![method, uri, v]);
            assert(v.subrange(0, 5) =~= "RTSP/"@);
            assert forall|j: int| 0 <= j < line.len() implies line[j] != '\r' by {
                if j < a {
                    assert(line[j] == method[j]);
                } else if a < j < a + 1 + b {
                    assert(line[j] == uri[j - a - 1]);
                } else if j >= a + 2 + b {
                    assert(line[j] == v[j - a - 2 - b]);
                }
            }
        },
    }
}

proof fn lemma_header_from_concat(a: Seq<Pair>, b: Seq<Pair>, name: Seq<char>, i: int)
    requires
        0 <= i <= a.len(),
        header_from(a, name, i) is None,
    ensures
        header_from(a + b, name, i) == header_from(b, name, 0),
    decreases a.len() - i,
{
    if i < a.len() {
        assert((a + b)[i] == a[i]);
        lemma_header_from_concat(a, b, name, i + 1);
    } else {
        lemma_header_from_shift(a, b, name, 0);
    }
}

proof fn lemma_header_from_shift(a: Seq<Pair>, b: Seq<Pair>, name: Seq<char>, j: int)
    requires
        0 <= j <= b.len(),
    ensures
        header_from(a + b, name, a.len() + j) == header_from(b, name, j),
    decreases b.len() - j,
{
    if j < b.len() {
        assert((a + b)[a.len() + j] == b[j]);
        lemma_header_from_shift(a, b, name, j + 1);
    }
}

/// The headers that announce a body are writable, and announce its length.
proof fn lemma_body_headers(hs: Seq<Pair>, body: Seq<char>)
    requires
        header_from(hs, "content-length"@, 0) is None,
        encode_utf8(body).len() <= usize::MAX,
    ensures
        forall|i: int|
            0 <= i < body_headers(body).len() ==> writable_header(#[trigger] body_headers(body)[i]),
        body_len(hs + body_headers(body)) == Ok::<nat, Seq<char>>(encode_utf8(body).len()),
{
    let bh = body_headers(body);
    lemma_header_from_concat(hs, bh, "content-length"@, 0);
    if body.len() > 0 {
        reveal_strlit("Content-Type");
        reveal_strlit("text/parameters");
        reveal_strlit("Content-Length");
        reveal_strlit("content-length");
        let n = encode_utf8(body).len();
        law_dec_reads_back(n);
        law_parse_dec_of_dec(n, usize::MAX as nat);
        let d = dec(n);
        assert forall|j: int| 0 <= j < d.len() implies crate::number::is_digit(#[trigger] d[j]) by {
        }
        lemma_trim_of_tight(d);
        assert(lowered("Content-Type"@)[8] == 't');
        assert(lowered("content-length"@)[8] == 'l');
        assert(lowered("Content-Length"@) =~= lowered("content-length"@));
        reveal_with_fuel(header_from, 3);
        assert(writable_header(bh[0]));
        assert(writable_header(bh[1]));
    } else {
        assert(hs + bh =~= hs);
        assert(encode_utf8(body).len() == 0);
    }
}

/// Reading the bytes of a written message, whatever follows them in the
/// buffer, gives the message back with the headers that announce its body, and
/// takes exactly the bytes that were written.
pub proof fn law_message_reads_back(m: MessageView, tail: Seq<u8>)
    requires
        writable(m),
    ensures
        parsed(encode_utf8(message_text(m)) + tail) == Parsed::Done(
            announced(m),
            encode_utf8(message_text(m)).len() as int,
        ),
{
    broadcast use encode_utf8_valid_utf8, encode_utf8_decode_utf8;

    reveal_strlit("\r\n");
    let hs = m.headers + body_headers(m.body);
    let ls = head_lines(m.start, hs);
    let head = joined(ls, 0);
    let ending = "\r\n"@ + "\r\n"@;
    let text = message_text(m);
    lemma_body_headers(m.headers, m.body);
    lemma_start_reads_back(m.start);
    assert forall|i: int| 0 <= i < hs.len() implies writable_header(#[trigger] hs[i]) by {
        if i >= m.headers.len() {
            assert(hs[i] == body_headers(m.body)[i - m.headers.len()]);
        }
    }
    assert forall|k: int| 0 <= k < ls.len() implies plain_line(#[trigger] ls[k]) by {
        if k > 0 {
            assert(ls[k] == header_line(hs[k - 1]));
            assert(writable_header(hs[k - 1]));
            lemma_header_line_reads_back(hs[k - 1]);
        }
    }
    // The text is the joined lines, the end of the head, and the body.
    lemma_header_lines_concat(m.headers, body_headers(m.body), 0);
    lemma_head_is_joined(m.start, hs, 0);
    assert(text =~= (joined(ls, 0) + "\r\n"@) + "\r\n"@ + m.body);
    assert(text =~= head + ending + m.body);
    // Its bytes.
    lemma_encode_concat(head + ending, m.body);
    lemma_encode_concat(head, ending);
    let eh = encode_utf8(head);
    let ee = encode_utf8(ending);
    let eb = encode_utf8(m.body);
    assert(ee =~= seq![13u8, 10u8, 13u8, 10u8]) by {
        reveal_with_fuel(encode_utf8, 5);
        lemma_encode_scalar('\r');
        lemma_encode_scalar('\n');
        assert(ending[0] == '\r' && ending[1] == '\n' && ending[2] == '\r' && ending[3] == '\n');
    }
    let b = encode_utf8(text) + tail;
    assert(b =~= eh + ee + eb + tail);
    // Where the head ends.
    let h = eh.len() as int;
    assert(ends_head(b, h));
    assert forall|p: int| 0 <= p < h implies !ends_head(b, p) by {
        let x = head + ending;
        assert forall|q: int| 0 <= q < head.len() implies !ends_head_text(x, q) by {
            lemma_joined_has_no_end(Seq::empty(), ls, 0, ending, q);
            assert(Seq::<char>::empty() + head + ending =~= x);
        }
        assert(x.take(head.len() as int) =~= head);
        lemma_no_early_end(x, head.len() as int, p);
        let ex = encode_utf8(x);
        assert(ex =~= eh + ee);
        if ends_head(b, p) {
            assert(ex[p] == b[p] && ex[p + 1] == b[p + 1] && ex[p + 2] == b[p + 2] && ex[p + 3]
                == b[p + 3]);
        }
    }
    lemma_head_end_is(b, 0, h);
    assert(b.subrange(0, h) =~= eh);
    // What the head says.
    lemma_split_joined(Seq::empty(), ls, 0);
    assert(Seq::<char>::empty() + head =~= head);
    assert(ls.skip(0) =~= ls);
    assert(crlf_pieces(head) == ls);
    lemma_headers_read_back(m.start, hs, 0);
    assert(hs.skip(0) =~= hs);
    assert(b.subrange(h + 4, h + 4 + eb.len()) =~= eb);
}

/// A response that was built here is read back with its status, its sequence
/// number and its body, and nothing more is taken from the buffer.
pub proof fn law_response_reads_back(status: u16, cseq: u32, body: Seq<char>, tail: Seq<u8>)
    requires
        encode_utf8(body).len() <= usize::MAX,
    ensures
        ({
            let m = response_view(status, cseq, body);
            let text = encode_utf8(message_text(m));
            &&& parsed(text + tail) == Parsed::Done(announced(m), text.len() as int)
            &&& announced(m).cseq() == Some(cseq as nat)
            &&& announced(m).body == body
            &&& announced(m).start == m.start
        }),
{
    let m = response_view(status, cseq, body);
    lemma_cseq_header(m, cseq);
    reveal_strlit("OK");
    reveal_strlit("Bad Request");
    reveal_strlit("Not Found");
    reveal_strlit("Session Not Found");
    reveal_strlit("Service Unavailable");
    reveal_strlit("Error");
    law_message_reads_back(m, tail);
}

/// A request that was built here is read back with its method, its address,
/// its sequence number and its body. The method and the address must be single
/// words, the method not the protocol's own name.
pub proof fn law_request_reads_back(
    method: Seq<char>,
    uri: Seq<char>,
    cseq: u32,
    body: Seq<char>,
    tail: Seq<u8>,
)
    requires
        writable_start(StartLineView::Request { method, uri }),
        encode_utf8(body).len() <= usize::MAX,
    ensures
        ({
            let m = request_view(method, uri, cseq, body);
            let text = encode_utf8(message_text(m));
            &&& parsed(text + tail) == Parsed::Done(announced(m), text.len() as int)
            &&& announced(m).cseq() == Some(cseq as nat)
            &&& announced(m).body == body
            &&& announced(m).start == m.start
        }),
{
    let m = request_view(method, uri, cseq, body);
    lemma_cseq_header(m, cseq);
    law_message_reads_back(m, tail);
}

/// A sequence number as the only header is writable, and is found.
proof fn lemma_cseq_header(m: MessageView, cseq: u32)
    requires
        m.headers == seq![("CSeq"@, dec(cseq as nat))],
    ensures
        writable_header(m.headers[0]),
        m.header("content-length"@) is None,
        announced(m).cseq() == Some(cseq as nat),
{
    reveal_strlit("CSeq");
    reveal_strlit("cseq");
    reveal_strlit("content-length");
    let d = dec(cseq as nat);
    law_dec_reads_back(cseq as nat);
    law_parse_dec_of_dec(cseq as nat, u32::MAX as nat);
    assert forall|j: int| 0 <= j < d.len() implies crate::number::is_digit(#[trigger] d[j]) by {
    }
    lemma_trim_of_tight(d);
    reveal_with_fuel(header_from, 2);
    assert(lowered("CSeq"@) =~= lowered("cseq"@));
    assert(lowered("CSeq"@).len() == 4);
    assert(lowered("content-length"@).len() == 14);
    assert(announced(m).headers[0] == m.headers[0]);
}

// ---- a buffer that grows ----

proof fn lemma_head_end_of_longer(a: Seq<u8>, b: Seq<u8>, i: int)
    requires
        0 <= i,
        head_end_from(a, i) < a.len(),
    ensures
        head_end_from(a + b, i) == head_end_from(a, i),
        i <= head_end_from(a, i),
        ends_head(a, head_end_from(a, i)),
    decreases a.len() - i,
{
    let c = a + b;
    if i < a.len() {
        if ends_head(a, i) {
            assert(ends_head(c, i));
        } else {
            lemma_head_end_of_longer(a, b, i + 1);
            let h = head_end_from(a, i + 1);
            assert(ends_head(a, h));
            if ends_head(c, i) {
                // The match would lie inside `a`, before the one found.
                assert(i + 4 <= a.len()) by {
                    if i + 4 > a.len() {
                        assert(h + 4 <= a.len() && i < h);
                    }
                }
                assert(a[i] == c[i] && a[i + 1] == c[i + 1] && a[i + 2] == c[i + 2] && a[i + 3]
                    == c[i + 3]);
            }
        }
    }
}

/// What has been read of a buffer does not depend on what arrives after it: a
/// whole message stays the same message, and a malformed one stays malformed.
pub proof fn law_later_bytes_change_nothing(a: Seq<u8>, b: Seq<u8>)
    requires
        parsed(a) !is More,
    ensures
        parsed(a + b) == parsed(a),
{
    let h = head_end_from(a, 0);
    lemma_head_end_of_longer(a, b, 0);
    let c = a + b;
    assert(c.subrange(0, h) =~= a.subrange(0, h));
    if valid_utf8(a.subrange(0, h)) {
        if let Ok((start, hs)) = head_of(decode_utf8(a.subrange(0, h))) {
            if let Ok(n) = body_len(hs) {
                assert(c.subrange(h + 4, h + 4 + n) =~= a.subrange(h + 4, h + 4 + n));
            }
        }
    }
}

/// A message that was read took at least the four bytes that end its head, and
/// no more than there are.
pub proof fn law_a_message_takes_bytes(b: Seq<u8>)
    ensures
        parsed(b) matches Parsed::Done(m, n) ==> 4 <= n <= b.len(),
{
    if head_end_from(b, 0) < b.len() {
        lemma_head_end_of_longer(b, Seq::empty(), 0);
    }
}


// ---- the exchange ----

/// Every request is answered, first of all, under its own sequence number.
pub proof fn law_every_request_is_answered(s: NegotiationState, m: MessageView, now: Instant)
    requires
        m.start is Request,
    ensures
        handled(s, m, now).1.len() > 0,
        handled(s, m, now).1[0] matches ActionView::Send(r) && r.start is Response && r.headers[0]
            == ("CSeq"@, dec(m.cseq_or_zero() as nat)),
{
}

proof fn lemma_applied_chooses(
    s: NegotiationState,
    trigger: Option<Seq<char>>,
    params: Seq<Pair>,
    i: int,
)
    requires
        0 <= i,
    ensures
        applied(s, trigger, params, i).state.chosen == s.chosen || applied(
            s,
            trigger,
            params,
            i,
        ).state.chosen == Some(mode_720p30()),
        applied(s, trigger, params, i).state.state == s.state,
        applied(s, trigger, params, i).state.peer_session == s.peer_session,
        applied(s, trigger, params, i).state.caps == s.caps,
        forall|k: int|
            i <= k < params.len() && #[trigger] params[k].0 == "wfd_video_formats"@ && chosen_mode(
                params[k].1,
            ) is None ==> !applied(s, trigger, params, i).ok,
    decreases params.len() - i,
{
    if i >= params.len() {
    } else if params[i].0 == "wfd_video_formats"@ {
        if let Some(mode) = chosen_mode(params[i].1) {
            lemma_applied_chooses(
                NegotiationState { chosen: Some(mode), ..s },
                trigger,
                params,
                i + 1,
            );
        }
    } else if params[i].0 == "wfd_presentation_URL"@ {
        lemma_applied_chooses(
            NegotiationState { presentation_url: first_word(params[i].1), ..s },
            trigger,
            params,
            i + 1,
        );
    } else if params[i].0 == "wfd_trigger_method"@ {
        lemma_applied_chooses(s, Some(trim(params[i].1)), params, i + 1);
    } else {
        lemma_applied_chooses(s, trigger, params, i + 1);
    }
}

/// No message makes the sink record any mode but the one it offered, or change
/// what it offers.
pub proof fn law_only_the_offered_mode_is_chosen(s: NegotiationState, m: MessageView, now: Instant)
    ensures
        handled(s, m, now).0.chosen == s.chosen || handled(s, m, now).0.chosen == Some(
            mode_720p30(),
        ),
        handled(s, m, now).0.caps == s.caps,
{
    let t = NegotiationState { last_heard: Some(now), ..s };
    lemma_applied_chooses(t, None, parameters(m.body), 0);
}

/// A source that picks a mode that was never offered is refused, and nothing
/// else happens: no session is set up and none ends.
pub proof fn law_an_unoffered_mode_is_refused(
    s: NegotiationState,
    m: MessageView,
    now: Instant,
    k: int,
)
    requires
        m.start matches StartLineView::Request { method, .. } && method == "SET_PARAMETER"@,
        0 <= k < parameters(m.body).len(),
        parameters(m.body)[k].0 == "wfd_video_formats"@,
        chosen_mode(parameters(m.body)[k].1) is None,
    ensures
        handled(s, m, now).1 == seq![reply(400, m)],
        handled(s, m, now).0.state == s.state,
{
    let t = NegotiationState { last_heard: Some(now), ..s };
    let ps = parameters(m.body);
    lemma_applied_chooses(t, None, ps, 0);
    assert(ps[k].0 == "wfd_video_formats"@);
    reveal_strlit("SET_PARAMETER");
    reveal_strlit("GET_PARAMETER");
    reveal_strlit("OPTIONS");
    assert("SET_PARAMETER"@[0] == 'S');
    assert("GET_PARAMETER"@[0] == 'G');
    assert("OPTIONS"@[0] == 'O');
}

/// Media starts only when the answer to `SETUP` names a session, and from then
/// on the sink is playing under that name.
pub proof fn law_media_starts_only_with_a_session(s: NegotiationState, m: MessageView, now: Instant)
    requires
        handled(s, m, now).1.contains(ActionView::Play),
    ensures
        s.state == NegState::Ready,
        s.peer_session is None,
        m.start is Response,
        m.header("session"@) is Some,
        handled(s, m, now).0.state == NegState::Playing,
        handled(s, m, now).0.peer_session is Some,
{
    let acts = handled(s, m, now).1;
    let i = choose|i: int| 0 <= i < acts.len() && acts[i] == ActionView::Play;
    assert(acts[i] == ActionView::Play);
}

/// However often a keyframe is wished for, two requests are never less than
/// half a second apart; and after half a second the next one goes out.
pub proof fn law_idr_requests_are_spaced(s: NegotiationState, first: Instant, later: Instant)
    requires
        idr_asked(s, first).1.len() > 0,
    ensures
        since(later, first) < IDR_MIN_INTERVAL ==> idr_asked(idr_asked(s, first).0, later).1.len()
            == 0,
        since(later, first) >= IDR_MIN_INTERVAL ==> idr_asked(idr_asked(s, first).0, later).1.len()
            == 1,
{
}

/// A source that has been silent for more than ten seconds is given up on, once.
pub proof fn law_a_silent_source_is_given_up_on(
    s: NegotiationState,
    heard: Instant,
    now: Instant,
    later: Instant,
)
    requires
        s.state != NegState::Done,
        s.last_heard == Some(heard),
    ensures
        since(now, heard) > 10_000_000_000 ==> ticked(s, now).0.state == NegState::Done && ticked(
            s,
            now,
        ).1 == seq![ActionView::Teardown("no keep-alive reply for 10 s"@)] && ticked(
            ticked(s, now).0,
            later,
        ).1.len() == 0,
        since(now, heard) <= 10_000_000_000 ==> ticked(s, now).0.state == s.state && !ticked(
            s,
            now,
        ).1.contains(ActionView::Teardown("no keep-alive reply for 10 s"@)),
{
}

/// Keep-alives go out five seconds apart: none sooner, and one when the time
/// has come, as long as the source is heard from.
pub proof fn law_keepalives_are_spaced(s: NegotiationState, sent: Instant, now: Instant)
    requires
        s.state != NegState::Done,
        s.last_keepalive == Some(sent),
        s.last_heard matches Some(heard) ==> since(now, heard) <= 10_000_000_000,
    ensures
        ticked(s, now).1.len() == if since(now, sent) >= 5_000_000_000 {
            1nat
        } else {
            0nat
        },
{
}

} // verus!
