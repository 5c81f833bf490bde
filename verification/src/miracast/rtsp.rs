//! RTSP/1.0 messages, enough for the Wi-Fi Display exchange, and the sink's
//! half of that exchange. Pure parsing and formatting over byte slices: the
//! caller owns the socket and the buffer.
use vstd::prelude::*;
use vstd::utf8::*;
use crate::number::{dec, dec_of, parse_dec, parse_hex, push_dec, read_dec, read_hex};
use crate::text::{
    crlf_pieces, crlf_pieces_of, has_prefix, is_str, lowered, pieces, pieces_of, push_chars,
    push_str, quote, quoted, rest, same, same_but_case, split_once, split_once_of, starts_with,
    strip_prefix, texts, to_chars, to_string, trim, trim_of, utf8_text, words, words_of,
};
use crate::wire::part;
use crate::miracast::wfd::{
    capabilities_body, capabilities_text, pairs, parameters, parse_parameter_body, Capabilities,
    Pair,
};
use crate::time::{since, Clock, Instant};

verus! {

#[derive(Debug, Clone, PartialEq, Eq)]
pub enum StartLine {
    Request { method: String, uri: String },
    Response { status: u16, reason: String },
}

#[derive(Debug, Clone, PartialEq, Eq)]
pub struct Message {
    pub start: StartLine,
    pub headers: Vec<(String, String)>,
    pub body: String,
}

#[derive(Debug, Clone, PartialEq, Eq)]
pub enum ParseError {
    MalformedStartLine(String),
    MalformedHeader(String),
    BadContentLength(String),
    NotUtf8,
}

// ---- what they say ----

#[verifier::ext_equal]
pub enum StartLineView {
    Request { method: Seq<char>, uri: Seq<char> },
    Response { status: u16, reason: Seq<char> },
}

#[verifier::ext_equal]
pub struct MessageView {
    pub start: StartLineView,
    pub headers: Seq<Pair>,
    pub body: Seq<char>,
}

#[verifier::ext_equal]
pub enum ParseErrorView {
    MalformedStartLine(Seq<char>),
    MalformedHeader(Seq<char>),
    BadContentLength(Seq<char>),
    NotUtf8,
}

impl View for StartLine {
    type V = StartLineView;

    open spec fn view(&self) -> StartLineView {
        match self {
            StartLine::Request { method, uri } => StartLineView::Request {
                method: method@,
                uri: uri@,
            },
            StartLine::Response { status, reason } => StartLineView::Response {
                status: *status,
                reason: reason@,
            },
        }
    }
}

impl View for Message {
    type V = MessageView;

    open spec fn view(&self) -> MessageView {
        MessageView { start: self.start@, headers: pairs(self.headers@), body: self.body@ }
    }
}

impl View for ParseError {
    type V = ParseErrorView;

    open spec fn view(&self) -> ParseErrorView {
        match self {
            ParseError::MalformedStartLine(s) => ParseErrorView::MalformedStartLine(s@),
            ParseError::MalformedHeader(s) => ParseErrorView::MalformedHeader(s@),
            ParseError::BadContentLength(s) => ParseErrorView::BadContentLength(s@),
            ParseError::NotUtf8 => ParseErrorView::NotUtf8,
        }
    }
}

impl ParseErrorView {
    /// The error in words.
    pub open spec fn words(self) -> Seq<char> {
        match self {
            ParseErrorView::MalformedStartLine(s) => "malformed start line: "@ + quoted(s),
            ParseErrorView::MalformedHeader(s) => "malformed header: "@ + quoted(s),
            ParseErrorView::BadContentLength(s) => "bad Content-Length: "@ + quoted(s),
            ParseErrorView::NotUtf8 => "message is not UTF-8"@,
        }
    }
}

impl ParseError {
    /// The error in words.
    pub fn message(&self) -> (r: String)
        ensures
            r@ == self@.words(),
    {
        let mut s: Vec<char> = Vec::new();
        match self {
            ParseError::MalformedStartLine(t) => {
                push_str(&mut s, "malformed start line: ");
                push_str(&mut s, &quote(t));
            },
            ParseError::MalformedHeader(t) => {
                push_str(&mut s, "malformed header: ");
                push_str(&mut s, &quote(t));
            },
            ParseError::BadContentLength(t) => {
                push_str(&mut s, "bad Content-Length: ");
                push_str(&mut s, &quote(t));
            },
            ParseError::NotUtf8 => {
                push_str(&mut s, "message is not UTF-8");
            },
        }
        assert(s@ =~= self@.words());
        to_string(&s)
    }
}

// ---- headers ----

/// The value of the first header from `i` on whose name is `name` but for
/// case.
pub open spec fn header_from(hs: Seq<Pair>, name: Seq<char>, i: int) -> Option<Seq<char>>
    decreases hs.len() - i,
{
    if i >= hs.len() {
        None
    } else if lowered(hs[i].0) == lowered(name) {
        Some(hs[i].1)
    } else {
        header_from(hs, name, i + 1)
    }
}

impl MessageView {
    /// The value of the first header of that name, whatever its case.
    pub open spec fn header(self, name: Seq<char>) -> Option<Seq<char>> {
        header_from(self.headers, name, 0)
    }

    /// The sequence number, if there is a readable one.
    pub open spec fn cseq(self) -> Option<nat> {
        match self.header("cseq"@) {
            Some(v) => parse_dec(trim(v), u32::MAX as nat),
            None => None,
        }
    }

    /// The sequence number to answer with: zero when there is no readable one.
    pub open spec fn cseq_or_zero(self) -> u32 {
        match self.cseq() {
            Some(n) => n as u32,
            None => 0,
        }
    }

    /// The message with one more header at the end.
    pub open spec fn with(self, k: Seq<char>, v: Seq<char>) -> MessageView {
        MessageView { headers: self.headers.push((k, v)), ..self }
    }
}

/// The header lines from `i` on.
pub open spec fn header_lines(hs: Seq<Pair>, i: int) -> Seq<char>
    decreases hs.len() - i,
{
    if i >= hs.len() {
        Seq::empty()
    } else {
        hs[i].0 + ": "@ + hs[i].1 + "\r\n"@ + header_lines(hs, i + 1)
    }
}

/// The first line of a message, without its ending.
pub open spec fn start_text(s: StartLineView) -> Seq<char> {
    match s {
        StartLineView::Request { method, uri } => method + " "@ + uri + " RTSP/1.0"@,
        StartLineView::Response { status, reason } => "RTSP/1.0 "@ + dec(status as nat) + " "@
            + reason,
    }
}

/// The headers that announce a body; an empty body is not announced.
pub open spec fn body_headers(body: Seq<char>) -> Seq<Pair> {
    if body.len() == 0 {
        Seq::empty()
    } else {
        seq![
            ("Content-Type"@, "text/parameters"@),
            ("Content-Length"@, dec(encode_utf8(body).len())),
        ]
    }
}

/// The message as text: start line, headers, the headers that announce the
/// body, an empty line, the body.
pub open spec fn message_text(m: MessageView) -> Seq<char> {
    start_text(m.start) + "\r\n"@ + header_lines(m.headers, 0) + header_lines(
        body_headers(m.body),
        0,
    ) + "\r\n"@ + m.body
}

fn push_header(s: &mut Vec<char>, k: &str, v: &str)
    ensures
        final(s)@ == old(s)@ + (k@ + ": "@ + v@ + "\r\n"@),
{
    push_str(s, k);
    push_str(s, ": ");
    push_str(s, v);
    push_str(s, "\r\n");
    assert(s@ =~= old(s)@ + (k@ + ": "@ + v@ + "\r\n"@));
}

impl Message {
    /// Case-insensitive header lookup, as RTSP requires.
    pub fn header(&self, name: &str) -> (r: Option<&str>)
        ensures
            r is Some <==> self@.header(name@) is Some,
            r matches Some(v) ==> self@.header(name@) == Some(v@),
    {
        let wanted = to_chars(name);
        let mut i: usize = 0;
        while i < self.headers.len()
            invariant
                i <= self.headers@.len(),
                wanted@ == name@,
                self@.header(name@) == header_from(self@.headers, name@, i as int),
            decreases self.headers@.len() - i,
        {
            let k = to_chars(&self.headers[i].0);
            if same_but_case(&k, &wanted) {
                return Some(self.headers[i].1.as_str());
            }
            i = i + 1;
        }
        None
    }

    pub fn cseq(&self) -> (r: Option<u32>)
        ensures
            r is Some <==> self@.cseq() is Some,
            r matches Some(n) ==> self@.cseq() == Some(n as nat),
    {
        match self.header("cseq") {
            Some(v) => {
                let a = to_chars(v);
                match read_dec(trim_of(&a), u32::MAX as u64) {
                    Some(n) => Some(n as u32),
                    None => None,
                }
            },
            None => None,
        }
    }

    pub(crate) fn cseq_or_zero(&self) -> (n: u32)
        ensures
            n == self@.cseq_or_zero(),
    {
        match self.cseq() {
            Some(n) => n,
            None => 0,
        }
    }

    /// Adds a header at the end.
    pub(crate) fn add_header(&mut self, k: &str, v: String)
        ensures
            final(self)@ == old(self)@.with(k@, v@),
    {
        self.headers.push((k.to_owned(), v));
        assert(self@ =~= old(self)@.with(k@, v@));
    }

    pub fn format(&self) -> (r: String)
        ensures
            r@ == message_text(self@),
    {
        let mut s: Vec<char> = Vec::new();
        match &self.start {
            StartLine::Request { method, uri } => {
                push_str(&mut s, method);
                push_str(&mut s, " ");
                push_str(&mut s, uri);
                push_str(&mut s, " RTSP/1.0");
            },
            StartLine::Response { status, reason } => {
                push_str(&mut s, "RTSP/1.0 ");
                push_dec(&mut s, *status as u64);
                push_str(&mut s, " ");
                push_str(&mut s, reason);
            },
        }
        assert(s@ =~= start_text(self@.start));
        push_str(&mut s, "\r\n");
        let ghost base = s@;
        let mut i: usize = 0;
        assert(s@ + header_lines(self@.headers, 0) =~= base + header_lines(self@.headers, 0));
        while i < self.headers.len()
            invariant
                i <= self.headers@.len(),
                s@ + header_lines(self@.headers, i as int) == base + header_lines(
                    self@.headers,
                    0,
                ),
            decreases self.headers@.len() - i,
        {
            let ghost before = s@;
            push_header(&mut s, &self.headers[i].0, &self.headers[i].1);
            assert(s@ + header_lines(self@.headers, i + 1) =~= before + header_lines(
                self@.headers,
                i as int,
            ));
            i = i + 1;
        }
        assert(s@ =~= base + header_lines(self@.headers, 0));
        let ghost headed = s@;
        if !self.body.as_str().is_empty() {
            let n: usize = self.body.as_str().as_bytes().len();
            push_header(&mut s, "Content-Type", "text/parameters");
            push_header(&mut s, "Content-Length", &to_string(&dec_of(n as u64)));
            proof {
                reveal_with_fuel(header_lines, 3);
            }
            assert(s@ =~= headed + header_lines(body_headers(self@.body), 0));
        } else {
            assert(s@ =~= headed + header_lines(body_headers(self@.body), 0));
        }
        push_str(&mut s, "\r\n");
        push_str(&mut s, &self.body);
        assert(s@ =~= message_text(self@));
        to_string(&s)
    }
}

// ---- reading ----

/// What the front of a buffer holds.
#[verifier::ext_equal]
pub enum Parsed {
    /// Not yet a whole message.
    More,
    /// Something that is no message.
    Bad(ParseErrorView),
    /// A message, and how many bytes it took.
    Done(MessageView, int),
}

/// Whether an empty line begins at `i`.
pub open spec fn ends_head(b: Seq<u8>, i: int) -> bool {
    i + 4 <= b.len() && b[i] == 13 && b[i + 1] == 10 && b[i + 2] == 13 && b[i + 3] == 10
}

/// The first position at or after `i` where the head of a message ends, or the
/// length.
pub open spec fn head_end_from(b: Seq<u8>, i: int) -> int
    decreases b.len() - i,
{
    if i >= b.len() {
        b.len() as int
    } else if ends_head(b, i) {
        i
    } else {
        head_end_from(b, i + 1)
    }
}

/// What the first line of a message says.
pub open spec fn start_of(line: Seq<char>) -> Option<StartLineView> {
    if has_prefix(line, "RTSP/1.0 "@) {
        let t = rest(line, "RTSP/1.0 "@.len() as int);
        let (code, reason) = match split_once(t, ' ') {
            Some(cr) => cr,
            None => (t, Seq::empty()),
        };
        match parse_dec(code, u16::MAX as nat) {
            Some(n) => Some(StartLineView::Response { status: n as u16, reason }),
            None => None,
        }
    } else {
        let ps = pieces(line, ' ');
        if ps.len() >= 3 && ps[0].len() > 0 && has_prefix(ps[2], "RTSP/"@) {
            Some(StartLineView::Request { method: ps[0], uri: ps[1] })
        } else {
            None
        }
    }
}

/// The headers that the lines from `i` on hold, or the first line that is no
/// header. Empty lines hold none.
pub open spec fn headers_of(ls: Seq<Seq<char>>, i: int) -> Result<Seq<Pair>, Seq<char>>
    decreases ls.len() - i,
{
    if i >= ls.len() {
        Ok(Seq::empty())
    } else if ls[i].len() == 0 {
        headers_of(ls, i + 1)
    } else {
        match split_once(ls[i], ':') {
            None => Err(ls[i]),
            Some(kv) => match headers_of(ls, i + 1) {
                Ok(hs) => Ok(seq![(trim(kv.0), trim(kv.1))] + hs),
                Err(l) => Err(l),
            },
        }
    }
}

/// The length that the headers announce for the body, or the text that should
/// have been one.
pub open spec fn body_len(hs: Seq<Pair>) -> Result<nat, Seq<char>> {
    match header_from(hs, "content-length"@, 0) {
        None => Ok(0),
        Some(v) => match parse_dec(trim(v), usize::MAX as nat) {
            Some(n) => Ok(n),
            None => Err(v),
        },
    }
}

/// The start line and the headers that the text of a head holds.
pub open spec fn head_of(head: Seq<char>) -> Result<(StartLineView, Seq<Pair>), ParseErrorView> {
    let ls = crlf_pieces(head);
    match start_of(ls[0]) {
        None => Err(ParseErrorView::MalformedStartLine(ls[0])),
        Some(start) => match headers_of(ls, 1) {
            Err(l) => Err(ParseErrorView::MalformedHeader(l)),
            Ok(hs) => Ok((start, hs)),
        },
    }
}

/// What the front of `b` holds.
pub open spec fn parsed(b: Seq<u8>) -> Parsed {
    let h = head_end_from(b, 0);
    if h >= b.len() {
        Parsed::More
    } else if !valid_utf8(b.subrange(0, h)) {
        Parsed::Bad(ParseErrorView::NotUtf8)
    } else {
        match head_of(decode_utf8(b.subrange(0, h))) {
            Err(e) => Parsed::Bad(e),
            Ok((start, headers)) => match body_len(headers) {
                Err(v) => Parsed::Bad(ParseErrorView::BadContentLength(v)),
                Ok(n) => if b.len() < h + 4 + n {
                    Parsed::More
                } else if !valid_utf8(b.subrange(h + 4, h + 4 + n)) {
                    Parsed::Bad(ParseErrorView::NotUtf8)
                } else {
                    Parsed::Done(
                        MessageView {
                            start,
                            headers,
                            body: decode_utf8(b.subrange(h + 4, h + 4 + n)),
                        },
                        h + 4 + n,
                    )
                },
            },
        }
    }
}

/// What a result of `parse` says.
pub open spec fn outcome(r: Result<Option<(Message, usize)>, ParseError>) -> Parsed {
    match r {
        Ok(None) => Parsed::More,
        Ok(Some(mn)) => Parsed::Done(mn.0@, mn.1 as int),
        Err(e) => Parsed::Bad(e@),
    }
}

fn find_double_crlf(buf: &[u8]) -> (r: Option<usize>)
    ensures
        r is Some <==> head_end_from(buf@, 0) < buf@.len(),
        r matches Some(i) ==> i == head_end_from(buf@, 0) && ends_head(buf@, i as int),
{
    let mut i: usize = 0;
    while i < buf.len()
        invariant
            i <= buf@.len(),
            head_end_from(buf@, 0) == head_end_from(buf@, i as int),
        decreases buf@.len() - i,
    {
        if buf.len() - i >= 4 && buf[i] == 13 && buf[i + 1] == 10 && buf[i + 2] == 13 && buf[i + 3]
            == 10 {
            assert(ends_head(buf@, i as int));
            return Some(i);
        }
        i = i + 1;
    }
    None
}

fn parse_start_line(line: &[char]) -> (r: Result<StartLine, ParseError>)
    ensures
        r is Ok <==> start_of(line@) is Some,
        r matches Ok(s) ==> start_of(line@) == Some(s@),
        r matches Err(e) ==> e@ == ParseErrorView::MalformedStartLine(line@),
{
    if let Some(t) = strip_prefix(line, "RTSP/1.0 ") {
        return match split_once_of(t, ' ') {
            Some((code, reason)) => match read_dec(code, u16::MAX as u64) {
                Some(n) => Ok(
                    StartLine::Response { status: n as u16, reason: to_string(reason) },
                ),
                None => Err(ParseError::MalformedStartLine(to_string(line))),
            },
            None => match read_dec(t, u16::MAX as u64) {
                Some(n) => Ok(StartLine::Response { status: n as u16, reason: String::new() }),
                None => Err(ParseError::MalformedStartLine(to_string(line))),
            },
        };
    }
    let ps = pieces_of(line, ' ');
    proof {
        assert(texts(ps@) == pieces(line@, ' '));
    }
    if ps.len() >= 3 && ps[0].len() > 0 && starts_with(&ps[2], "RTSP/") {
        assert(texts(ps@)[0] == ps@[0]@ && texts(ps@)[1] == ps@[1]@ && texts(ps@)[2] == ps@[2]@);
        Ok(StartLine::Request { method: to_string(&ps[0]), uri: to_string(&ps[1]) })
    } else {
        assert(ps@.len() >= 3 ==> texts(ps@)[0] == ps@[0]@ && texts(ps@)[2] == ps@[2]@);
        Err(ParseError::MalformedStartLine(to_string(line)))
    }
}

fn parse_headers(ls: &Vec<Vec<char>>) -> (r: Result<Vec<(String, String)>, ParseError>)
    requires
        ls@.len() > 0,
    ensures
        r is Ok <==> headers_of(texts(ls@), 1) is Ok,
        r matches Ok(hs) ==> headers_of(texts(ls@), 1) == Ok::<Seq<Pair>, Seq<char>>(pairs(hs@)),
        r matches Err(e) ==> headers_of(texts(ls@), 1) matches Err(l) && e@
            == ParseErrorView::MalformedHeader(l),
{
    let ghost all = texts(ls@);
    let mut headers: Vec<(String, String)> = Vec::new();
    let mut i: usize = 1;
    assert(pairs(headers@) =~= Seq::empty());
    assert(headers_of(all, 1) matches Ok(hs) ==> pairs(headers@) + hs =~= hs);
    while i < ls.len()
        invariant
            1 <= i <= ls@.len(),
            all == texts(ls@),
            match headers_of(all, i as int) {
                Ok(hs) => headers_of(all, 1) == Ok::<Seq<Pair>, Seq<char>>(pairs(headers@) + hs),
                Err(l) => headers_of(all, 1) == Err::<Seq<Pair>, Seq<char>>(l),
            },
        decreases ls@.len() - i,
    {
        assert(all[i as int] == ls@[i as int]@);
        if ls[i].len() > 0 {
            match split_once_of(&ls[i], ':') {
                None => {
                    return Err(ParseError::MalformedHeader(to_string(&ls[i])));
                },
                Some((k, v)) => {
                    let ghost before = pairs(headers@);
                    headers.push((to_string(trim_of(k)), to_string(trim_of(v))));
                    assert(pairs(headers@) =~= before.push((trim(k@), trim(v@))));
                    assert(headers_of(all, i + 1) matches Ok(hs) ==> pairs(headers@) + hs =~= before
                        + (seq![(trim(k@), trim(v@))] + hs));
                },
            }
        }
        i = i + 1;
    }
    assert(pairs(headers@) + Seq::empty() =~= pairs(headers@));
    Ok(headers)
}

fn announced_len(headers: &Vec<(String, String)>) -> (r: Result<usize, ParseError>)
    ensures
        r is Ok <==> body_len(pairs(headers@)) is Ok,
        r matches Ok(n) ==> body_len(pairs(headers@)) == Ok::<nat, Seq<char>>(n as nat),
        r matches Err(e) ==> body_len(pairs(headers@)) matches Err(v) && e@
            == ParseErrorView::BadContentLength(v),
{
    let ghost hs = pairs(headers@);
    let name = to_chars("content-length");
    let mut i: usize = 0;
    while i < headers.len()
        invariant
            i <= headers@.len(),
            hs == pairs(headers@),
            name@ == "content-length"@,
            header_from(hs, "content-length"@, 0) == header_from(hs, "content-length"@, i as int),
        decreases headers@.len() - i,
    {
        let k = to_chars(&headers[i].0);
        if same_but_case(&k, &name) {
            let v = to_chars(&headers[i].1);
            return match read_dec(trim_of(&v), usize::MAX as u64) {
                Some(n) => Ok(n as usize),
                None => Err(ParseError::BadContentLength(to_string(&v))),
            };
        }
        i = i + 1;
    }
    Ok(0)
}

/// Parses one message from the front of `buf`.
///
/// `Ok(None)` means the buffer does not yet hold a complete message and the
/// caller should read more. `Ok(Some((msg, used)))` returns the message and
/// how many bytes it consumed, so the caller can drain exactly that much.
pub fn parse(buf: &[u8]) -> (r: Result<Option<(Message, usize)>, ParseError>)
    ensures
        outcome(r) == parsed(buf@),
{
    let total: usize = buf.len();
    let head_end: usize = match find_double_crlf(buf) {
        None => {
            return Ok(None);
        },
        Some(i) => i,
    };
    let head = match utf8_text(part(buf, 0, head_end)) {
        None => {
            return Err(ParseError::NotUtf8);
        },
        Some(s) => s,
    };
    let chars = to_chars(&head);
    let ls = crlf_pieces_of(&chars);
    assert(crlf_pieces(head@).len() >= 1);
    assert(texts(ls@)[0] == ls@[0]@);
    let start = match parse_start_line(&ls[0]) {
        Err(e) => {
            return Err(e);
        },
        Ok(s) => s,
    };
    let headers = match parse_headers(&ls) {
        Err(e) => {
            return Err(e);
        },
        Ok(h) => h,
    };
    let body_len: usize = match announced_len(&headers) {
        Err(e) => {
            return Err(e);
        },
        Ok(n) => n,
    };
    let body_start: usize = head_end + 4;
    if total - body_start < body_len {
        return Ok(None);
    }
    let body = match utf8_text(part(buf, body_start, body_start + body_len)) {
        None => {
            return Err(ParseError::NotUtf8);
        },
        Some(s) => s,
    };
    let m = Message { start, headers, body };
    Ok(Some((m, body_start + body_len)))
}

// ---- building ----

/// The phrase for a status.
pub open spec fn reason_text(status: u16) -> Seq<char> {
    if status == 200 {
        "OK"@
    } else if status == 400 {
        "Bad Request"@
    } else if status == 404 {
        "Not Found"@
    } else if status == 454 {
        "Session Not Found"@
    } else if status == 503 {
        "Service Unavailable"@
    } else {
        "Error"@
    }
}

fn reason_for(status: u16) -> (r: &'static str)
    ensures
        r@ == reason_text(status),
{
    if status == 200 {
        "OK"
    } else if status == 400 {
        "Bad Request"
    } else if status == 404 {
        "Not Found"
    } else if status == 454 {
        "Session Not Found"
    } else if status == 503 {
        "Service Unavailable"
    } else {
        "Error"
    }
}

pub open spec fn response_view(status: u16, cseq: u32, body: Seq<char>) -> MessageView {
    MessageView {
        start: StartLineView::Response { status, reason: reason_text(status) },
        headers: seq![("CSeq"@, dec(cseq as nat))],
        body,
    }
}

pub open spec fn request_view(
    method: Seq<char>,
    uri: Seq<char>,
    cseq: u32,
    body: Seq<char>,
) -> MessageView {
    MessageView {
        start: StartLineView::Request { method, uri },
        headers: seq![("CSeq"@, dec(cseq as nat))],
        body,
    }
}

fn cseq_header(cseq: u32) -> (h: Vec<(String, String)>)
    ensures
        pairs(h@) == seq![("CSeq"@, dec(cseq as nat))],
{
    let mut h: Vec<(String, String)> = Vec::new();
    h.push(("CSeq".to_owned(), to_string(&dec_of(cseq as u64))));
    assert(pairs(h@) =~= seq![("CSeq"@, dec(cseq as nat))]);
    h
}

pub fn response(status: u16, cseq: u32, body: &str) -> (m: Message)
    ensures
        m@ == response_view(status, cseq, body@),
{
    Message {
        start: StartLine::Response { status, reason: reason_for(status).to_owned() },
        headers: cseq_header(cseq),
        body: body.to_owned(),
    }
}

pub fn request(method: &str, uri: &str, cseq: u32, body: &str) -> (m: Message)
    ensures
        m@ == request_view(method@, uri@, cseq, body@),
{
    Message {
        start: StartLine::Request { method: method.to_owned(), uri: uri.to_owned() },
        headers: cseq_header(cseq),
        body: body.to_owned(),
    }
}

// ---- negotiation ----

/// A dead radio is invisible to TCP for minutes, so the keep-alive is the
/// fastest signal the control channel has. Five seconds, in nanoseconds, costs
/// nothing on a link carrying 8 Mbps of video.
pub const KEEPALIVE_EVERY: u64 = 5_000_000_000;

/// Two missed keep-alives, not one: a single loss on a busy link must not end
/// a healthy session. Nanoseconds.
pub const KEEPALIVE_TIMEOUT: u64 = 10_000_000_000;

/// One IDR request per this interval, however often the decoder asks.
/// Nanoseconds.
pub const IDR_MIN_INTERVAL: u64 = 500_000_000;

#[derive(Debug, Clone, Copy, PartialEq, Eq, Structural)]
pub struct VideoMode {
    pub width: u32,
    pub height: u32,
    pub fps: u32,
}

#[derive(Debug, Clone, Copy, PartialEq, Eq, Structural)]
pub enum NegState {
    Init,
    Capabilities,
    Ready,
    Playing,
    Done,
}

#[derive(Debug)]
pub enum Action {
    Send(Message),
    /// Media may start flowing; the caller opens its RTP socket.
    Play,
    /// The display asked the source to send at most this many kbps.
    ///
    /// A sink watching its own loss asks for less. Ignoring it means sending
    /// the same rate into a link that is already failing, until the session
    /// drops - which is the difference between degrading and disconnecting.
    Bitrate(u32),
    /// The display asked for a keyframe and the encoder must produce one.
    ///
    /// A sink that joins a stream part-way through a group of pictures has
    /// nothing to decode from and shows black until an IDR arrives. Answering
    /// `wfd_idr_request` with `200 OK` and doing nothing is how a session runs
    /// to completion, exchanging keep-alives, with no picture ever appearing.
    Keyframe,
    Teardown(&'static str),
}

#[verifier::ext_equal]
pub enum ActionView {
    Send(MessageView),
    Play,
    Bitrate(u32),
    Keyframe,
    Teardown(Seq<char>),
}

impl View for Action {
    type V = ActionView;

    open spec fn view(&self) -> ActionView {
        match self {
            Action::Send(m) => ActionView::Send(m@),
            Action::Play => ActionView::Play,
            Action::Bitrate(k) => ActionView::Bitrate(*k),
            Action::Keyframe => ActionView::Keyframe,
            Action::Teardown(r) => ActionView::Teardown(r@),
        }
    }
}

/// What a list of actions says.
pub open spec fn actions(v: Seq<Action>) -> Seq<ActionView> {
    Seq::new(v.len(), |i: int| v[i]@)
}

/// No action.
pub(crate) fn none() -> (v: Vec<Action>)
    ensures
        actions(v@) == Seq::<ActionView>::empty(),
{
    let v: Vec<Action> = Vec::new();
    assert(actions(v@) =~= Seq::empty());
    v
}

/// One action.
pub(crate) fn one(a: Action) -> (v: Vec<Action>)
    ensures
        actions(v@) == seq![a@],
{
    let mut v: Vec<Action> = Vec::new();
    v.push(a);
    assert(actions(v@) =~= seq![a@]);
    v
}

/// Two actions.
pub(crate) fn two(a: Action, b: Action) -> (v: Vec<Action>)
    ensures
        actions(v@) == seq![a@, b@],
{
    let mut v: Vec<Action> = Vec::new();
    v.push(a);
    v.push(b);
    assert(actions(v@) =~= seq![a@, b@]);
    v
}

/// The sink's half of the exchange.
pub struct Negotiation {
    caps: Capabilities,
    session_id: String,
    state: NegState,
    next_cseq: u32,
    presentation_url: String,
    chosen: Option<VideoMode>,
    peer_session: Option<String>,
    last_heard: Option<Instant>,
    last_keepalive: Option<Instant>,
    last_idr: Option<Instant>,
}

#[verifier::ext_equal]
pub struct NegotiationState {
    pub caps: Capabilities,
    pub session_id: Seq<char>,
    pub state: NegState,
    pub next_cseq: u32,
    pub presentation_url: Seq<char>,
    pub chosen: Option<VideoMode>,
    pub peer_session: Option<Seq<char>>,
    pub last_heard: Option<Instant>,
    pub last_keepalive: Option<Instant>,
    pub last_idr: Option<Instant>,
}

/// The text in an optional string.
pub open spec fn text_of(s: Option<String>) -> Option<Seq<char>> {
    match s {
        Some(t) => Some(t@),
        None => None,
    }
}

impl View for Negotiation {
    type V = NegotiationState;

    closed spec fn view(&self) -> NegotiationState {
        NegotiationState {
            caps: self.caps,
            session_id: self.session_id@,
            state: self.state,
            next_cseq: self.next_cseq,
            presentation_url: self.presentation_url@,
            chosen: self.chosen,
            peer_session: text_of(self.peer_session),
            last_heard: self.last_heard,
            last_keepalive: self.last_keepalive,
            last_idr: self.last_idr,
        }
    }
}

/// The number after a sequence number; they wrap.
pub open spec fn next_number(n: u32) -> u32 {
    if n == u32::MAX {
        0
    } else {
        (n + 1) as u32
    }
}

/// The one mode this sink offers.
pub open spec fn mode_720p30() -> VideoMode {
    VideoMode { width: 1280, height: 720, fps: 30 }
}

/// The mode that a chosen-format line names. The line repeats the capability
/// layout with exactly one bit set in one table; only the one that was
/// offered, CEA bit 5, is accepted.
pub open spec fn chosen_mode(value: Seq<char>) -> Option<VideoMode> {
    let f = words(value);
    if f.len() >= 7 && parse_hex(f[4], u32::MAX as nat) == Some(0x20nat) && parse_hex(
        f[5],
        u32::MAX as nat,
    ) == Some(0nat) && parse_hex(f[6], u32::MAX as nat) == Some(0nat) {
        Some(mode_720p30())
    } else {
        None
    }
}

/// The first word of a text, or nothing.
pub open spec fn first_word(s: Seq<char>) -> Seq<char> {
    if words(s).len() > 0 {
        words(s)[0]
    } else {
        Seq::empty()
    }
}

/// What a run through parameters came to: the state, the last trigger seen,
/// and whether every chosen format was acceptable.
#[verifier::ext_equal]
pub struct Applied {
    pub state: NegotiationState,
    pub trigger: Option<Seq<char>>,
    pub ok: bool,
}

/// The parameters from `i` on, applied one after the other until one chooses a
/// format that was never offered.
pub open spec fn applied(
    s: NegotiationState,
    trigger: Option<Seq<char>>,
    params: Seq<Pair>,
    i: int,
) -> Applied
    decreases params.len() - i,
{
    if i >= params.len() {
        Applied { state: s, trigger, ok: true }
    } else if params[i].0 == "wfd_video_formats"@ {
        match chosen_mode(params[i].1) {
            Some(mode) => applied(
                NegotiationState { chosen: Some(mode), ..s },
                trigger,
                params,
                i + 1,
            ),
            None => Applied { state: s, trigger, ok: false },
        }
    } else if params[i].0 == "wfd_presentation_URL"@ {
        applied(
            NegotiationState { presentation_url: first_word(params[i].1), ..s },
            trigger,
            params,
            i + 1,
        )
    } else if params[i].0 == "wfd_trigger_method"@ {
        applied(s, Some(trim(params[i].1)), params, i + 1)
    } else {
        applied(s, trigger, params, i + 1)
    }
}

impl NegotiationState {
    pub open spec fn init(caps: Capabilities, session_id: Seq<char>) -> NegotiationState {
        NegotiationState {
            caps,
            session_id,
            state: NegState::Init,
            next_cseq: 100,
            presentation_url: Seq::empty(),
            chosen: None,
            peer_session: None,
            last_heard: None,
            last_keepalive: None,
            last_idr: None,
        }
    }

    /// The address requests are made to.
    pub open spec fn uri(self) -> Seq<char> {
        if self.presentation_url.len() == 0 {
            "rtsp://localhost/wfd1.0/"@ + self.session_id
        } else {
            self.presentation_url
        }
    }

    /// The state once a sequence number has been used.
    pub open spec fn numbered(self) -> NegotiationState {
        NegotiationState { next_cseq: next_number(self.next_cseq), ..self }
    }

    /// A request that names the session, once there is one.
    pub open spec fn ask(self, method: Seq<char>, body: Seq<char>) -> MessageView {
        let m = request_view(method, self.uri(), self.next_cseq, body);
        match self.peer_session {
            Some(session) => m.with("Session"@, session),
            None => m,
        }
    }
}

/// A reply of this status and no body.
pub open spec fn reply(status: u16, m: MessageView) -> ActionView {
    ActionView::Send(response_view(status, m.cseq_or_zero(), ""@))
}

/// What `SET_PARAMETER` comes to.
pub open spec fn parameters_set(s: NegotiationState, m: MessageView) -> (
    NegotiationState,
    Seq<ActionView>,
) {
    let a = applied(s, None, parameters(m.body), 0);
    if !a.ok {
        // The source picked something never advertised.
        (a.state, seq![reply(400, m)])
    } else if a.trigger == Some("SETUP"@) {
        let setup = request_view("SETUP"@, a.state.uri(), a.state.next_cseq, ""@).with(
            "Transport"@,
            "RTP/AVP/UDP;unicast;client_port="@ + dec(s.caps.ports.rtp_port as nat),
        );
        (
            NegotiationState { state: NegState::Ready, ..a.state.numbered() },
            seq![reply(200, m), ActionView::Send(setup)],
        )
    } else {
        (a.state, seq![reply(200, m)])
    }
}

/// What a request of the source comes to.
pub open spec fn requested(s: NegotiationState, method: Seq<char>, m: MessageView) -> (
    NegotiationState,
    Seq<ActionView>,
) {
    if method == "OPTIONS"@ {
        let ok = response_view(200, m.cseq_or_zero(), ""@).with(
            "Public"@,
            "org.wfa.wfd1.0, SETUP, TEARDOWN, PLAY, PAUSE, GET_PARAMETER, SET_PARAMETER"@,
        );
        // M2: ask what the source supports, as the exchange requires.
        let m2 = request_view("OPTIONS"@, "*"@, s.next_cseq, ""@).with(
            "Require"@,
            "org.wfa.wfd1.0"@,
        );
        (s.numbered(), seq![ActionView::Send(ok), ActionView::Send(m2)])
    } else if method == "GET_PARAMETER"@ {
        // M3, or a keep-alive with an empty body.
        if trim(m.body).len() == 0 {
            (s, seq![reply(200, m)])
        } else {
            (
                NegotiationState { state: NegState::Capabilities, ..s },
                seq![
                    ActionView::Send(
                        response_view(200, m.cseq_or_zero(), capabilities_text(s.caps)),
                    ),
                ],
            )
        }
    } else if method == "SET_PARAMETER"@ {
        parameters_set(s, m)
    } else if method == "TEARDOWN"@ {
        (
            NegotiationState { state: NegState::Done, ..s },
            seq![reply(200, m), ActionView::Teardown("source sent TEARDOWN"@)],
        )
    } else {
        (s, seq![reply(400, m)])
    }
}

/// The text before the first semicolon, trimmed.
pub open spec fn session_name(s: Seq<char>) -> Seq<char> {
    trim(pieces(s, ';')[0])
}

/// What an answer of the source comes to.
pub open spec fn answered(s: NegotiationState, status: u16, m: MessageView) -> (
    NegotiationState,
    Seq<ActionView>,
) {
    if status != 200 {
        (s, seq![ActionView::Teardown("source refused a request"@)])
    } else if s.state == NegState::Ready && s.peer_session is None {
        // M6 answered: take the session id and send M7 PLAY.
        match m.header("session"@) {
            None => (s, seq![ActionView::Teardown("SETUP response carried no Session"@)]),
            Some(v) => {
                let t = NegotiationState { peer_session: Some(session_name(v)), ..s };
                (
                    NegotiationState { state: NegState::Playing, ..t.numbered() },
                    seq![ActionView::Send(t.ask("PLAY"@, ""@)), ActionView::Play],
                )
            },
        }
    } else {
        (s, Seq::empty())
    }
}

/// What a message that arrives at `now` comes to.
pub open spec fn handled(s: NegotiationState, m: MessageView, now: Instant) -> (
    NegotiationState,
    Seq<ActionView>,
) {
    let t = NegotiationState { last_heard: Some(now), ..s };
    match m.start {
        StartLineView::Request { method, .. } => requested(t, method, m),
        StartLineView::Response { status, .. } => answered(t, status, m),
    }
}

/// Whether the source has been silent for more than `KEEPALIVE_TIMEOUT`.
pub open spec fn silent(last_heard: Option<Instant>, now: Instant) -> bool {
    match last_heard {
        Some(t) => since(now, t) > KEEPALIVE_TIMEOUT,
        None => false,
    }
}

/// Whether a keep-alive is due: five seconds after the last one, or after the
/// first word from the source when there has been none.
pub open spec fn keepalive_due(s: NegotiationState, now: Instant) -> bool {
    match s.last_keepalive {
        Some(t) => since(now, t) >= KEEPALIVE_EVERY,
        None => match s.last_heard {
            Some(t) => since(now, t) >= KEEPALIVE_EVERY,
            None => false,
        },
    }
}

/// What the passing of time comes to.
pub open spec fn ticked(s: NegotiationState, now: Instant) -> (NegotiationState, Seq<ActionView>) {
    if s.state == NegState::Done {
        (s, Seq::empty())
    } else if silent(s.last_heard, now) {
        (
            NegotiationState { state: NegState::Done, ..s },
            seq![ActionView::Teardown("no keep-alive reply for 10 s"@)],
        )
    } else if keepalive_due(s, now) {
        (
            NegotiationState { last_keepalive: Some(now), ..s.numbered() },
            seq![ActionView::Send(s.ask("GET_PARAMETER"@, ""@))],
        )
    } else {
        (s, Seq::empty())
    }
}

/// What a wish for another bitrate comes to.
pub open spec fn bitrate_asked(s: NegotiationState, kbps: u32) -> (
    NegotiationState,
    Seq<ActionView>,
) {
    if s.state == NegState::Playing {
        (
            s.numbered(),
            seq![
                ActionView::Send(
                    s.ask(
                        "SET_PARAMETER"@,
                        "microsoft_max_bitrate: "@ + dec(kbps as nat) + "\r\n"@,
                    ),
                ),
            ],
        )
    } else {
        (s, Seq::empty())
    }
}

/// What a wish for a keyframe comes to: one request per `IDR_MIN_INTERVAL`.
pub open spec fn idr_asked(s: NegotiationState, now: Instant) -> (
    NegotiationState,
    Seq<ActionView>,
) {
    if s.last_idr matches Some(t) && since(now, t) < IDR_MIN_INTERVAL {
        (s, Seq::empty())
    } else {
        (
            NegotiationState { last_idr: Some(now), ..s.numbered() },
            seq![ActionView::Send(s.ask("SET_PARAMETER"@, "wfd_idr_request\r\n"@))],
        )
    }
}

impl Negotiation {
    pub fn new(caps: Capabilities, session_id: String) -> (n: Self)
        ensures
            n@ == NegotiationState::init(caps, session_id@),
    {
        let n = Negotiation {
            caps,
            session_id,
            state: NegState::Init,
            next_cseq: 100,
            presentation_url: String::new(),
            chosen: None,
            peer_session: None,
            last_heard: None,
            last_keepalive: None,
            last_idr: None,
        };
        assert(n@ =~= NegotiationState::init(caps, session_id@));
        n
    }

    pub fn state(&self) -> (s: NegState)
        ensures
            s == self@.state,
    {
        self.state
    }

    pub fn chosen_video(&self) -> (m: Option<VideoMode>)
        ensures
            m == self@.chosen,
    {
        self.chosen
    }

    fn cseq(&mut self) -> (c: u32)
        ensures
            c == old(self)@.next_cseq,
            final(self)@ == old(self)@.numbered(),
    {
        let c: u32 = self.next_cseq;
        self.next_cseq = c.wrapping_add(1);
        c
    }

    fn uri(&self) -> (u: String)
        ensures
            u@ == self@.uri(),
    {
        if self.presentation_url.as_str().is_empty() {
            let mut s: Vec<char> = Vec::new();
            push_str(&mut s, "rtsp://localhost/wfd1.0/");
            push_str(&mut s, &self.session_id);
            assert(s@ =~= self@.uri());
            to_string(&s)
        } else {
            self.presentation_url.clone()
        }
    }

    /// A request that names the session, once there is one.
    fn ask(&mut self, method: &str, body: &str) -> (m: Message)
        ensures
            m@ == old(self)@.ask(method@, body@),
            final(self)@ == old(self)@.numbered(),
    {
        let url = self.uri();
        let c: u32 = self.cseq();
        let mut m = request(method, &url, c, body);
        if let Some(s) = &self.peer_session {
            m.add_header("Session", s.clone());
        }
        m
    }

    /// Handles a message that arrives now.
    pub fn on_message(&mut self, m: &Message, clock: &Clock) -> (r: Vec<Action>)
        ensures
            exists|now: Instant|
                (final(self)@, actions(r@)) == #[trigger] handled(old(self)@, m@, now),
    {
        let now = clock.now();
        let r = self.on_message_at(m, now);
        assert((self@, actions(r@)) == handled(old(self)@, m@, now));
        r
    }

    /// The time is handed in, so the keep-alive and IDR rules do not depend on
    /// a clock.
    pub fn on_message_at(&mut self, m: &Message, now: Instant) -> (r: Vec<Action>)
        ensures
            (final(self)@, actions(r@)) == handled(old(self)@, m@, now),
    {
        self.last_heard = Some(now);
        match &m.start {
            StartLine::Request { method, .. } => self.on_request(method, m),
            StartLine::Response { status, .. } => self.on_response(*status, m),
        }
    }

    fn on_request(&mut self, method: &str, m: &Message) -> (r: Vec<Action>)
        ensures
            (final(self)@, actions(r@)) == requested(old(self)@, method@, m@),
    {
        let cseq: u32 = m.cseq_or_zero();
        let name = to_chars(method);
        if is_str(&name, "OPTIONS") {
            let mut ok = response(200, cseq, "");
            ok.add_header(
                "Public",
                "org.wfa.wfd1.0, SETUP, TEARDOWN, PLAY, PAUSE, GET_PARAMETER, SET_PARAMETER".to_owned(),
            );
            let c: u32 = self.cseq();
            let mut m2 = request("OPTIONS", "*", c, "");
            m2.add_header("Require", "org.wfa.wfd1.0".to_owned());
            two(Action::Send(ok), Action::Send(m2))
        } else if is_str(&name, "GET_PARAMETER") {
            let body = to_chars(&m.body);
            if trim_of(&body).len() == 0 {
                return one(Action::Send(response(200, cseq, "")));
            }
            self.state = NegState::Capabilities;
            one(Action::Send(response(200, cseq, &capabilities_body(&self.caps))))
        } else if is_str(&name, "SET_PARAMETER") {
            self.on_set_parameter(cseq, m)
        } else if is_str(&name, "TEARDOWN") {
            self.state = NegState::Done;
            two(
                Action::Send(response(200, cseq, "")),
                Action::Teardown("source sent TEARDOWN"),
            )
        } else {
            one(Action::Send(response(400, cseq, "")))
        }
    }

    fn on_set_parameter(&mut self, cseq: u32, m: &Message) -> (r: Vec<Action>)
        requires
            cseq == m@.cseq_or_zero(),
        ensures
            (final(self)@, actions(r@)) == parameters_set(old(self)@, m@),
    {
        let params = parse_parameter_body(&m.body);
        let ghost ps = parameters(m@.body);
        let ghost start = self@;
        let mut trigger: Option<String> = None;
        let mut i: usize = 0;
        while i < params.len()
            invariant
                i <= params@.len(),
                pairs(params@) == ps,
                ps == parameters(m@.body),
                cseq == m@.cseq_or_zero(),
                start == old(self)@,
                applied(start, None, ps, 0) == applied(self@, text_of(trigger), ps, i as int),
            decreases params@.len() - i,
        {
            assert(ps[i as int] == (params@[i as int].0@, params@[i as int].1@));
            let name = to_chars(&params[i].0);
            let value = to_chars(&params[i].1);
            if is_str(&name, "wfd_video_formats") {
                match parse_chosen_video(&value) {
                    Some(mode) => {
                        self.chosen = Some(mode);
                    },
                    None => {
                        return one(Action::Send(response(400, cseq, "")));
                    },
                }
            } else if is_str(&name, "wfd_presentation_URL") {
                self.presentation_url = first_word_of(&value);
            } else if is_str(&name, "wfd_trigger_method") {
                trigger = Some(to_string(trim_of(&value)));
            }
            i = i + 1;
        }
        let ok = Action::Send(response(200, cseq, ""));
        let set_up = match &trigger {
            Some(t) => is_str(&to_chars(t), "SETUP"),
            None => false,
        };
        if set_up {
            let url = self.uri();
            let c: u32 = self.cseq();
            let mut setup = request("SETUP", &url, c, "");
            let mut transport: Vec<char> = Vec::new();
            push_str(&mut transport, "RTP/AVP/UDP;unicast;client_port=");
            push_dec(&mut transport, self.caps.ports.rtp_port as u64);
            proof {
                lemma_applied_keeps_caps(start, None, ps, 0);
            }
            assert(transport@ =~= "RTP/AVP/UDP;unicast;client_port="@ + dec(
                start.caps.ports.rtp_port as nat,
            ));
            setup.add_header("Transport", to_string(&transport));
            self.state = NegState::Ready;
            two(ok, Action::Send(setup))
        } else {
            one(ok)
        }
    }

    fn on_response(&mut self, status: u16, m: &Message) -> (r: Vec<Action>)
        ensures
            (final(self)@, actions(r@)) == answered(old(self)@, status, m@),
    {
        if status != 200 {
            return one(Action::Teardown("source refused a request"));
        }
        if self.state == NegState::Ready && self.peer_session.is_none() {
            let session = match m.header("session") {
                None => {
                    return one(Action::Teardown("SETUP response carried no Session"));
                },
                Some(v) => session_name_of(v),
            };
            self.peer_session = Some(session);
            let play = self.ask("PLAY", "");
            self.state = NegState::Playing;
            return two(Action::Send(play), Action::Play);
        }
        none()
    }

    /// Time-driven work: keep-alive out, and give up on a silent source.
    pub fn tick(&mut self, now: Instant) -> (r: Vec<Action>)
        ensures
            (final(self)@, actions(r@)) == ticked(old(self)@, now),
    {
        if self.state == NegState::Done {
            return none();
        }
        if is_silent(self.last_heard, now) {
            self.state = NegState::Done;
            return one(Action::Teardown("no keep-alive reply for 10 s"));
        }
        let due = match self.last_keepalive {
            Some(t) => now.saturating_duration_since(t).nanos >= KEEPALIVE_EVERY,
            None => match self.last_heard {
                Some(t) => now.saturating_duration_since(t).nanos >= KEEPALIVE_EVERY,
                None => false,
            },
        };
        if due {
            let ka = self.ask("GET_PARAMETER", "");
            self.last_keepalive = Some(now);
            one(Action::Send(ka))
        } else {
            none()
        }
    }

    /// Asks the source to cap its bitrate. This is a request: the source may
    /// ignore it, which is why the sink never assumes the rate actually fell.
    pub fn request_bitrate(&mut self, kbps: u32, _now: Instant) -> (r: Vec<Action>)
        ensures
            (final(self)@, actions(r@)) == bitrate_asked(old(self)@, kbps),
    {
        if self.state != NegState::Playing {
            return none();
        }
        let mut body: Vec<char> = Vec::new();
        push_str(&mut body, "microsoft_max_bitrate: ");
        push_dec(&mut body, kbps as u64);
        push_str(&mut body, "\r\n");
        assert(body@ =~= "microsoft_max_bitrate: "@ + dec(kbps as nat) + "\r\n"@);
        let m = self.ask("SET_PARAMETER", &to_string(&body));
        one(Action::Send(m))
    }

    /// Asks the source for a fresh keyframe, at most once per 500 ms.
    pub fn request_idr(&mut self, now: Instant) -> (r: Vec<Action>)
        ensures
            (final(self)@, actions(r@)) == idr_asked(old(self)@, now),
    {
        if let Some(t) = self.last_idr {
            if now.saturating_duration_since(t).nanos < IDR_MIN_INTERVAL {
                return none();
            }
        }
        let m = self.ask("SET_PARAMETER", "wfd_idr_request\r\n");
        self.last_idr = Some(now);
        one(Action::Send(m))
    }
}

/// Whether the peer has been silent for more than `KEEPALIVE_TIMEOUT`.
fn is_silent(last_heard: Option<Instant>, now: Instant) -> (r: bool)
    ensures
        r == silent(last_heard, now),
{
    match last_heard {
        Some(t) => now.saturating_duration_since(t).nanos > KEEPALIVE_TIMEOUT,
        None => false,
    }
}

/// Applying parameters leaves what the sink offers alone.
proof fn lemma_applied_keeps_caps(
    s: NegotiationState,
    trigger: Option<Seq<char>>,
    params: Seq<Pair>,
    i: int,
)
    ensures
        applied(s, trigger, params, i).state.caps == s.caps,
    decreases params.len() - i,
{
    if i >= params.len() {
    } else if params[i].0 == "wfd_video_formats"@ {
        if let Some(mode) = chosen_mode(params[i].1) {
            lemma_applied_keeps_caps(
                NegotiationState { chosen: Some(mode), ..s },
                trigger,
                params,
                i + 1,
            );
        }
    } else if params[i].0 == "wfd_presentation_URL"@ {
        lemma_applied_keeps_caps(
            NegotiationState { presentation_url: first_word(params[i].1), ..s },
            trigger,
            params,
            i + 1,
        );
    } else if params[i].0 == "wfd_trigger_method"@ {
        lemma_applied_keeps_caps(s, Some(trim(params[i].1)), params, i + 1);
    } else {
        lemma_applied_keeps_caps(s, trigger, params, i + 1);
    }
}

/// The chosen-format line repeats the capability layout with exactly one bit
/// set in one table. It is accepted only if it is the mode that was offered.
fn parse_chosen_video(value: &[char]) -> (r: Option<VideoMode>)
    ensures
        r == chosen_mode(value@),
{
    let f = words_of(value);
    assert(texts(f@) == words(value@));
    if f.len() < 7 {
        return None;
    }
    assert(texts(f@)[4] == f@[4]@ && texts(f@)[5] == f@[5]@ && texts(f@)[6] == f@[6]@);
    let cea = read_hex(&f[4], u32::MAX as u64);
    let vesa = read_hex(&f[5], u32::MAX as u64);
    let hh = read_hex(&f[6], u32::MAX as u64);
    match (cea, vesa, hh) {
        (Some(c), Some(v), Some(h)) => if v == 0 && h == 0 && c == 0x20 {
            Some(VideoMode { width: 1280, height: 720, fps: 30 })
        } else {
            None
        },
        _ => None,
    }
}

fn first_word_of(a: &[char]) -> (r: String)
    ensures
        r@ == first_word(a@),
{
    let f = words_of(a);
    assert(texts(f@) == words(a@));
    if f.len() > 0 {
        assert(texts(f@)[0] == f@[0]@);
        to_string(&f[0])
    } else {
        String::new()
    }
}

fn session_name_of(v: &str) -> (r: String)
    ensures
        r@ == session_name(v@),
{
    let a = to_chars(v);
    let ps = pieces_of(&a, ';');
    assert(texts(ps@) == pieces(v@, ';'));
    assert(pieces(v@, ';').len() >= 1);
    assert(texts(ps@)[0] == ps@[0]@);
    to_string(trim_of(&ps[0]))
}

} // verus!
