//! What the bytes of a message mean, part by part.
use vstd::prelude::*;
use vstd::utf8::*;
use crate::miracast::rtsp::{
    body_len, ends_head, head_end_from, head_of, header_lines, headers_of, message_text,
    next_number, parsed, reason_text, start_of, start_text, MessageView, Parsed, ParseErrorView,
    StartLineView,
};
use crate::miracast::wfd::Pair;
use crate::number::{dec, parse_dec};
use crate::text::{crlf_pieces, has_prefix, pieces, rest, trim};

verus! {

/// The first line of a response is the protocol, a number and whatever follows it.
pub proof fn law_the_first_line_of_a_response(code: Seq<char>, reason: Seq<char>)
    requires
        !code.contains(' '),
    ensures
        ({
            let n = parse_dec(code, 65535);
            let said = start_of("RTSP/1.0 "@ + code + seq![' '] + reason);
            let bare = start_of("RTSP/1.0 "@ + code);
            &&& n is None ==> said is None && bare is None
            &&& n matches Some(k) ==> said == Some(
                StartLineView::Response { status: k as u16, reason },
            ) && bare == Some(
                StartLineView::Response { status: k as u16, reason: Seq::<char>::empty() },
            )
        }),
{
    let p = "RTSP/1.0 "@;
    let line = p + code + seq![' '] + reason;
    assert(line.subrange(0, p.len() as int) =~= p);
    assert(rest(line, p.len() as int) =~= code + seq![' '] + reason);
    assert((p + code).subrange(0, p.len() as int) =~= p);
    assert(rest(p + code, p.len() as int) =~= code);
    crate::text_laws::law_a_text_is_split_at_the_first_mark(code, ' ', reason);
}

/// The first line of a request is a method, an address and a protocol whose name
/// begins with `RTSP/`, with a space between each two.
pub proof fn law_the_first_line_of_a_request(
    method: Seq<char>,
    uri: Seq<char>,
    protocol: Seq<char>,
)
    requires
        !method.contains(' '),
        !uri.contains(' '),
        !protocol.contains(' '),
    ensures
        ({
            let line = method + seq![' '] + uri + seq![' '] + protocol;
            !has_prefix(line, "RTSP/1.0 "@) ==> {
                &&& start_of(line) is Some <==> method.len() > 0 && has_prefix(protocol, "RTSP/"@)
                &&& start_of(line) is Some ==> start_of(line) == Some(
                    StartLineView::Request { method, uri },
                )
            }
        }),
{
    let tail = uri + seq![' '] + protocol;
    let line = method + seq![' '] + uri + seq![' '] + protocol;
    assert(line =~= method + seq![' '] + tail);
    crate::text_laws::law_pieces_lie_between_the_marks(method, ' ', tail);
    crate::text_laws::law_pieces_lie_between_the_marks(uri, ' ', protocol);
    crate::text_laws::law_pieces_lie_between_the_marks(protocol, ' ', Seq::empty());
    let ps = pieces(line, ' ');
    assert(ps == seq![method] + (seq![uri] + seq![protocol]));
    assert(ps.len() == 3 && ps[0] == method && ps[1] == uri && ps[2] == protocol);
}

proof fn lemma_cons(l: Seq<char>, ls: Seq<Seq<char>>, i: int)
    requires
        0 <= i <= ls.len(),
    ensures
        headers_of(seq![l] + ls, i + 1) == headers_of(ls, i),
    decreases ls.len() - i,
{
    if i < ls.len() {
        assert((seq![l] + ls)[i + 1] == ls[i]);
        lemma_cons(l, ls, i + 1);
    }
}

/// A header is a name and a value on either side of the first colon, without white
/// space around them. Empty lines are passed over, and a line without a colon spoils
/// the head.
pub proof fn law_each_line_is_a_header(
    k: Seq<char>,
    v: Seq<char>,
    l: Seq<char>,
    ls: Seq<Seq<char>>,
)
    requires
        !k.contains(':'),
    ensures
        headers_of(ls, 0) matches Ok(hs) ==> headers_of(seq![k + seq![':'] + v] + ls, 0) == Ok::<
            Seq<Pair>,
            Seq<char>,
        >(seq![(trim(k), trim(v))] + hs),
        headers_of(ls, 0) matches Err(e) ==> headers_of(seq![k + seq![':'] + v] + ls, 0) == Err::<
            Seq<Pair>,
            Seq<char>,
        >(e),
        headers_of(seq![Seq::<char>::empty()] + ls, 0) == headers_of(ls, 0),
        l.len() > 0 && !l.contains(':') ==> headers_of(seq![l] + ls, 0) == Err::<
            Seq<Pair>,
            Seq<char>,
        >(l),
{
    let kv = k + seq![':'] + v;
    crate::text_laws::law_a_text_is_split_at_the_first_mark(k, ':', v);
    lemma_cons(kv, ls, 0);
    lemma_cons(Seq::empty(), ls, 0);
    lemma_cons(l, ls, 0);
    assert((seq![kv] + ls)[0] == kv);
    assert((seq![Seq::<char>::empty()] + ls)[0].len() == 0);
    assert((seq![l] + ls)[0] == l);
    if !l.contains(':') {
        crate::text_laws::law_a_text_is_split_at_the_first_mark(l, ':', v);
    }
}

proof fn lemma_head_end(b: Seq<u8>, h: int, i: int)
    requires
        0 <= i <= h <= b.len(),
        forall|j: int| 0 <= j < h ==> !#[trigger] ends_head(b, j),
        h < b.len() ==> ends_head(b, h),
    ensures
        head_end_from(b, i) == h,
    decreases h - i,
{
    if i < h {
        assert(!ends_head(b, i));
        lemma_head_end(b, h, i + 1);
    }
}

/// The first two line endings in a row end the head. The body is as long as the head
/// says and follows at once, and what was taken ends with it; until it has all
/// arrived, more is waited for. Without two line endings in a row nothing is decided.
pub proof fn law_where_a_message_ends(b: Seq<u8>, h: int)
    requires
        0 <= h <= b.len(),
        forall|j: int| 0 <= j < h ==> !#[trigger] ends_head(b, j),
        h < b.len() ==> ends_head(b, h),
    ensures
        h == b.len() ==> parsed(b) is More,
        h < b.len() && !valid_utf8(b.take(h)) ==> parsed(b) == Parsed::Bad(ParseErrorView::NotUtf8),
        h < b.len() && valid_utf8(b.take(h)) ==> {
            let head = head_of(decode_utf8(b.take(h)));
            &&& head matches Err(e) ==> parsed(b) == Parsed::Bad(e)
            &&& head matches Ok(sh) ==> {
                let len = body_len(sh.1);
                &&& len matches Err(v) ==> parsed(b) == Parsed::Bad(
                    ParseErrorView::BadContentLength(v),
                )
                &&& len matches Ok(n) ==> b.len() < h + 4 + n ==> parsed(b) is More
                &&& len matches Ok(n) ==> b.len() >= h + 4 + n ==> {
                    let body = b.skip(h + 4).take(n as int);
                    &&& !valid_utf8(body) ==> parsed(b) == Parsed::Bad(ParseErrorView::NotUtf8)
                    &&& valid_utf8(body) ==> parsed(b) == Parsed::Done(
                        MessageView { start: sh.0, headers: sh.1, body: decode_utf8(body) },
                        h + 4 + n,
                    )
                }
            }
        },
        h < b.len() ==> b[h] == '\r' as u8 && b[h + 1] == '\n' as u8 && b[h + 2] == '\r' as u8
            && b[h + 3] == '\n' as u8,
{
    lemma_head_end(b, h, 0);
    assert(b.take(h) =~= b.subrange(0, h));
    if h < b.len() && valid_utf8(b.take(h)) {
        if let Ok(sh) = head_of(decode_utf8(b.take(h))) {
            if let Ok(n) = body_len(sh.1) {
                if b.len() >= h + 4 + n {
                    assert(b.skip(h + 4).take(n as int) =~= b.subrange(h + 4, h + 4 + n));
                }
            }
        }
    }
}

/// The lines of a head end in carriage return and line feed; the first is the start
/// line, the others are headers.
pub proof fn law_the_lines_of_a_head(a: Seq<char>, b: Seq<char>)
    requires
        forall|j: int| !#[trigger] crate::text_laws::ends_at(a, j),
    ensures
        ({
            let r = head_of(a + seq!['\r', '\n'] + b);
            let hs = headers_of(crlf_pieces(b), 0);
            &&& start_of(a) is None ==> r == Err::<(StartLineView, Seq<Pair>), ParseErrorView>(
                ParseErrorView::MalformedStartLine(a),
            )
            &&& start_of(a) matches Some(s) ==> {
                &&& hs matches Ok(v) ==> r == Ok::<(StartLineView, Seq<Pair>), ParseErrorView>((s, v))
                &&& hs matches Err(l) ==> r == Err::<(StartLineView, Seq<Pair>), ParseErrorView>(
                    ParseErrorView::MalformedHeader(l),
                )
            }
        }),
{
    crate::text_laws::law_pieces_lie_between_the_ends(a, b);
    let ls = crlf_pieces(b);
    lemma_cons(a, ls, 0);
    assert((seq![a] + ls)[0] == a);
}

/// Headers are written one to a line, with a colon and a space between name and
/// value; the start line is a method, an address and the protocol, or the protocol, a
/// number and its reason.
pub proof fn law_how_messages_are_written(
    hs: Seq<Pair>,
    i: int,
    method: Seq<char>,
    uri: Seq<char>,
    status: u16,
    reason: Seq<char>,
)
    ensures
        0 <= i < hs.len() ==> header_lines(hs, i) == hs[i].0 + seq![':', ' '] + hs[i].1
            + seq!['\r', '\n'] + header_lines(hs, i + 1),
        header_lines(hs, hs.len() as int) == Seq::<char>::empty(),
        start_text(StartLineView::Request { method, uri }) == method + seq![' '] + uri + seq![
            ' ',
            'R',
            'T',
            'S',
            'P',
            '/',
            '1',
            '.',
            '0',
        ],
        start_text(StartLineView::Response { status, reason }) == seq![
            'R',
            'T',
            'S',
            'P',
            '/',
            '1',
            '.',
            '0',
            ' ',
        ] + dec(status as nat) + seq![' '] + reason,
{
    reveal_strlit(": ");
    reveal_strlit("\r\n");
    reveal_strlit(" ");
    reveal_strlit(" RTSP/1.0");
    reveal_strlit("RTSP/1.0 ");
    assert(": "@ =~= seq![':', ' ']);
    assert("\r\n"@ =~= seq!['\r', '\n']);
    assert(" "@ =~= seq![' ']);
    assert(" RTSP/1.0"@ =~= seq![' ', 'R', 'T', 'S', 'P', '/', '1', '.', '0']);
    assert("RTSP/1.0 "@ =~= seq!['R', 'T', 'S', 'P', '/', '1', '.', '0', ' ']);
}

/// The body of a message stands behind an empty line, and is announced with its
/// length in bytes unless there is none.
pub proof fn law_where_the_body_stands(m: MessageView)
    ensures
        m.body.len() == 0 ==> message_text(m) == start_text(m.start) + "\r\n"@ + header_lines(
            m.headers,
            0,
        ) + "\r\n"@,
        m.body.len() > 0 ==> message_text(m) == start_text(m.start) + "\r\n"@ + header_lines(
            m.headers,
            0,
        ) + "Content-Type: text/parameters\r\nContent-Length: "@ + dec(encode_utf8(m.body).len())
            + "\r\n\r\n"@ + m.body,
{
    reveal_strlit("\r\n");
    reveal_strlit("\r\n\r\n");
    reveal_strlit(": ");
    reveal_strlit("Content-Type");
    reveal_strlit("text/parameters");
    reveal_strlit("Content-Length");
    reveal_strlit("Content-Type: text/parameters\r\nContent-Length: ");
    let hs = crate::miracast::rtsp::body_headers(m.body);
    reveal_with_fuel(header_lines, 3);
    if m.body.len() == 0 {
        assert(message_text(m) =~= start_text(m.start) + "\r\n"@ + header_lines(m.headers, 0)
            + "\r\n"@);
    } else {
        let n = dec(encode_utf8(m.body).len());
        assert(header_lines(hs, 0) =~= "Content-Type: text/parameters\r\nContent-Length: "@ + n
            + "\r\n"@);
        assert("\r\n\r\n"@ =~= "\r\n"@ + "\r\n"@);
        assert(message_text(m) =~= start_text(m.start) + "\r\n"@ + header_lines(m.headers, 0)
            + "Content-Type: text/parameters\r\nContent-Length: "@ + n + "\r\n\r\n"@ + m.body);
    }
}

/// Each status that is answered has a reason of its own, and any other is an error.
pub proof fn law_the_reasons(status: u16)
    ensures
        status == 200 ==> reason_text(status) == "OK"@,
        status == 400 ==> reason_text(status) == "Bad Request"@,
        status == 404 ==> reason_text(status) == "Not Found"@,
        status == 454 ==> reason_text(status) == "Session Not Found"@,
        status == 503 ==> reason_text(status) == "Service Unavailable"@,
        ![200u16, 400, 404, 454, 503]@.contains(status) ==> reason_text(status) == "Error"@,
{
    let known = [200u16, 400, 404, 454, 503]@;
    assert(known[0] == 200 && known[1] == 400 && known[2] == 404 && known[3] == 454 && known[4]
        == 503);
}

/// Each number is one more than the last, and zero follows the largest.
pub proof fn law_numbers_count_up(n: u32)
    ensures
        n < u32::MAX ==> next_number(n) == n + 1,
        n == u32::MAX ==> next_number(n) == 0,
{
}

} // verus!
