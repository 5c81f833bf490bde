//! A DHCP server with exactly one address to give away.
//!
//! Miracast leaves addressing to DHCP, and the Pi has no DHCP server
//! installed, so the sink answers on the group interface itself. The range is
//! deliberately far from the Pi's own LAN so the source cannot confuse the two
//! default routes.
use vstd::prelude::*;
use crate::wire::{be32, be32_at, copy_bytes, part, push_be32, push_bytes, push_fill, read_be32};

verus! {

pub const OPT_SUBNET: u8 = 1;

pub const OPT_ROUTER: u8 = 3;

pub const OPT_LEASE_TIME: u8 = 51;

pub const OPT_MESSAGE_TYPE: u8 = 53;

pub const OPT_SERVER_ID: u8 = 54;

pub const OPT_REQUESTED_IP: u8 = 50;

pub const OPT_CLIENT_ID: u8 = 61;

pub const OPT_END: u8 = 255;

/// BOOTP's minimum message length, which some clients still require.
pub const MIN_MESSAGE: usize = 300;

/// Offset of the fixed header's `chaddr` field, of the magic cookie, and of
/// the option area that follows it.
pub const OFF_CHADDR: usize = 28;

pub const OFF_MAGIC: usize = 236;

pub const OFF_OPTIONS: usize = 240;

/// An IPv4 address.
#[derive(Debug, Clone, Copy, PartialEq, Eq, Structural)]
pub struct Ipv4Addr {
    pub a: u8,
    pub b: u8,
    pub c: u8,
    pub d: u8,
}

impl Ipv4Addr {
    /// The four octets in order.
    pub open spec fn bytes(self) -> Seq<u8> {
        seq![self.a, self.b, self.c, self.d]
    }

    pub fn new(a: u8, b: u8, c: u8, d: u8) -> (ip: Self)
        ensures
            ip == (Ipv4Addr { a, b, c, d }),
    {
        Ipv4Addr { a, b, c, d }
    }

    pub fn octets(&self) -> (o: [u8; 4])
        ensures
            o@ == self.bytes(),
    {
        let o: [u8; 4] = [self.a, self.b, self.c, self.d];
        assert(o@ =~= self.bytes());
        o
    }
}

#[derive(Debug, Clone, Copy, PartialEq, Eq, Structural)]
pub enum Kind {
    Discover,
    Request,
    Other,
}

#[derive(Debug, Clone, PartialEq, Eq)]
pub struct Request {
    pub kind: Kind,
    pub xid: u32,
    pub mac: [u8; 6],
    pub requested_ip: Option<Ipv4Addr>,
    /// The client identifier the client sent, if it sent one, kept verbatim.
    /// A reply has to hand it straight back (RFC 6842): Windows sends one in
    /// every message and silently discards any reply that does not echo it,
    /// which reads exactly like a server that is not there.
    pub client_id: Option<Vec<u8>>,
}

#[verifier::ext_equal]
pub struct RequestView {
    pub kind: Kind,
    pub xid: u32,
    pub mac: Seq<u8>,
    pub requested_ip: Option<Ipv4Addr>,
    pub client_id: Option<Seq<u8>>,
}

/// The bytes in an optional buffer.
pub open spec fn bytes_of(v: Option<Vec<u8>>) -> Option<Seq<u8>> {
    match v {
        Some(b) => Some(b@),
        None => None,
    }
}

impl View for Request {
    type V = RequestView;

    open spec fn view(&self) -> RequestView {
        RequestView {
            kind: self.kind,
            xid: self.xid,
            mac: self.mac@,
            requested_ip: self.requested_ip,
            client_id: bytes_of(self.client_id),
        }
    }
}

#[derive(Debug, Clone, Copy, PartialEq, Eq, Structural)]
pub struct Lease {
    pub server: Ipv4Addr,
    pub client: Ipv4Addr,
    pub netmask: Ipv4Addr,
    pub lease_secs: u32,
}

/// The single lease this sink hands out: a /29 far from the usual home ranges.
pub fn default_lease() -> (l: Lease)
    ensures
        l.server == (Ipv4Addr { a: 192, b: 168, c: 173, d: 1 }),
        l.client == (Ipv4Addr { a: 192, b: 168, c: 173, d: 2 }),
        l.netmask == (Ipv4Addr { a: 255, b: 255, c: 255, d: 248 }),
        l.lease_secs == 3600,
{
    Lease {
        server: Ipv4Addr::new(192, 168, 173, 1),
        client: Ipv4Addr::new(192, 168, 173, 2),
        netmask: Ipv4Addr::new(255, 255, 255, 248),
        lease_secs: 3600,
    }
}

// ---- reading ----

/// The cookie that marks a DHCP message.
pub open spec fn magic() -> Seq<u8> {
    seq![99u8, 130u8, 83u8, 99u8]
}

/// What the options of a message say.
#[verifier::ext_equal]
pub struct Options {
    pub kind: Kind,
    pub requested_ip: Option<Ipv4Addr>,
    pub client_id: Option<Seq<u8>>,
}

/// The kind of message that a message type option names.
pub open spec fn kind_of(message_type: u8) -> Kind {
    if message_type == 1 {
        Kind::Discover
    } else if message_type == 3 {
        Kind::Request
    } else {
        Kind::Other
    }
}

/// What is known once one more option has been read.
pub open spec fn with_option(o: Options, code: u8, v: Seq<u8>) -> Options {
    if code == OPT_MESSAGE_TYPE && v.len() == 1 {
        Options { kind: kind_of(v[0]), ..o }
    } else if code == OPT_REQUESTED_IP && v.len() == 4 {
        Options {
            requested_ip: Some(Ipv4Addr { a: v[0], b: v[1], c: v[2], d: v[3] }),
            ..o
        }
    } else if code == OPT_CLIENT_ID && v.len() > 0 {
        Options { client_id: Some(v), ..o }
    } else {
        o
    }
}

/// What the options from `i` on say, up to the end option or the end of the
/// message; nothing when one of them is cut short.
pub open spec fn options_from(b: Seq<u8>, i: int, o: Options) -> Option<Options>
    decreases b.len() - i,
{
    if i < 0 || i + 2 > b.len() || b[i] == OPT_END {
        Some(o)
    } else if b[i] == 0 {
        options_from(b, i + 1, o)
    } else {
        let end = i + 2 + b[i + 1];
        if end > b.len() {
            None
        } else {
            options_from(b, end, with_option(o, b[i], b.subrange(i + 2, end)))
        }
    }
}

/// What a request says.
pub open spec fn parsed(b: Seq<u8>) -> Option<RequestView> {
    if b.len() < OFF_OPTIONS || b[0] != 1 || b.subrange(OFF_MAGIC as int, OFF_OPTIONS as int)
        != magic() {
        None
    } else {
        match options_from(
            b,
            OFF_OPTIONS as int,
            Options { kind: Kind::Other, requested_ip: None, client_id: None },
        ) {
            None => None,
            Some(o) => Some(
                RequestView {
                    kind: o.kind,
                    xid: be32_at(b, 4) as u32,
                    mac: b.subrange(OFF_CHADDR as int, OFF_CHADDR + 6),
                    requested_ip: o.requested_ip,
                    client_id: o.client_id,
                },
            ),
        }
    }
}

pub fn parse(buf: &[u8]) -> (r: Option<Request>)
    ensures
        r is Some <==> parsed(buf@) is Some,
        r matches Some(q) ==> parsed(buf@) == Some(q@),
{
    let total: usize = buf.len();
    if total < OFF_OPTIONS || buf[0] != 1 {
        return None;
    }
    let cookie = buf[236] == 99 && buf[237] == 130 && buf[238] == 83 && buf[239] == 99;
    assert(cookie == (buf@.subrange(236, 240) == magic())) by {
        let m = buf@.subrange(236, 240);
        if cookie {
            assert(m =~= magic());
        } else if m == magic() {
            assert(m[0] == 99 && m[1] == 130 && m[2] == 83 && m[3] == 99);
        }
    }
    if !cookie {
        return None;
    }
    let xid: u32 = read_be32(buf, 4);
    let mac: [u8; 6] = [buf[28], buf[29], buf[30], buf[31], buf[32], buf[33]];
    assert(mac@ =~= buf@.subrange(28, 34));
    let mut kind = Kind::Other;
    let mut requested_ip: Option<Ipv4Addr> = None;
    let mut client_id: Option<Vec<u8>> = None;
    let mut i: usize = OFF_OPTIONS;
    let ghost all = options_from(
        buf@,
        OFF_OPTIONS as int,
        Options { kind: Kind::Other, requested_ip: None, client_id: None },
    );
    while total - i >= 2 && buf[i] != OPT_END
        invariant
            total == buf@.len(),
            OFF_OPTIONS <= i <= total,
            xid == be32_at(buf@, 4),
            mac@ == buf@.subrange(28, 34),
            buf@[0] == 1,
            buf@.subrange(236, 240) == magic(),
            all == options_from(
                buf@,
                OFF_OPTIONS as int,
                Options { kind: Kind::Other, requested_ip: None, client_id: None },
            ),
            all == options_from(
                buf@,
                i as int,
                Options { kind, requested_ip, client_id: bytes_of(client_id) },
            ),
        decreases total - i,
    {
        let code: u8 = buf[i];
        if code == 0 {
            i = i + 1;
        } else {
            let len: usize = buf[i + 1] as usize;
            if total - i - 2 < len {
                return None;
            }
            let value = part(buf, i + 2, i + 2 + len);
            if code == OPT_MESSAGE_TYPE && len == 1 {
                kind = if value[0] == 1 {
                    Kind::Discover
                } else if value[0] == 3 {
                    Kind::Request
                } else {
                    Kind::Other
                };
            } else if code == OPT_REQUESTED_IP && len == 4 {
                requested_ip = Some(Ipv4Addr::new(value[0], value[1], value[2], value[3]));
            } else if code == OPT_CLIENT_ID && len > 0 {
                client_id = Some(copy_bytes(value));
            }
            i = i + 2 + len;
        }
    }
    Some(Request { kind, xid, mac, requested_ip, client_id })
}

// ---- answering ----

/// An offer, an acknowledgement, a refusal, or nothing to say.
pub open spec fn answer_type(r: RequestView, lease: Lease) -> Option<u8> {
    match r.kind {
        Kind::Discover => Some(2),
        Kind::Request => match r.requested_ip {
            // Asking for what we offered, or for nothing in particular.
            None => Some(5),
            Some(ip) => if ip == lease.client {
                Some(5)
            } else {
                Some(6)
            },
        },
        Kind::Other => None,
    }
}

pub open spec fn zeros(n: nat) -> Seq<u8> {
    Seq::new(n, |i: int| 0u8)
}

/// One option: its code, its length, its value.
pub open spec fn option_bytes(code: u8, value: Seq<u8>) -> Seq<u8> {
    seq![code, (value.len() % 256) as u8] + value
}

/// The fixed header of a reply, and the cookie after it.
pub open spec fn header(t: u8, r: RequestView, lease: Lease) -> Seq<u8> {
    seq![2u8, 1u8, 6u8, 0u8] + be32(r.xid as int) + zeros(8) + (if t != 6 {
        lease.client.bytes()
    } else {
        zeros(4)
    }) + lease.server.bytes() + zeros(4) + r.mac + zeros(202) + magic()
}

/// The options of a reply. The client identifier is echoed unchanged, on every
/// message type including a refusal; only a lease names its terms.
pub open spec fn reply_options(t: u8, r: RequestView, lease: Lease) -> Seq<u8> {
    option_bytes(OPT_MESSAGE_TYPE, seq![t]) + option_bytes(OPT_SERVER_ID, lease.server.bytes()) + (
    match r.client_id {
        Some(id) => option_bytes(OPT_CLIENT_ID, id),
        None => Seq::empty(),
    }) + (if t != 6 {
        option_bytes(OPT_SUBNET, lease.netmask.bytes()) + option_bytes(
            OPT_ROUTER,
            lease.server.bytes(),
        ) + option_bytes(OPT_LEASE_TIME, be32(lease.lease_secs as int))
    } else {
        Seq::empty()
    }) + seq![OPT_END]
}

/// A message filled up with zeros to the minimum length.
pub open spec fn padded(p: Seq<u8>) -> Seq<u8> {
    if p.len() < MIN_MESSAGE {
        p + zeros((MIN_MESSAGE - p.len()) as nat)
    } else {
        p
    }
}

/// The reply for a request.
pub open spec fn answered(r: RequestView, lease: Lease) -> Option<Seq<u8>> {
    match answer_type(r, lease) {
        None => None,
        Some(t) => Some(padded(header(t, r, lease) + reply_options(t, r, lease))),
    }
}

/// Builds the reply for a request, or `None` when there is nothing to say.
pub fn reply(r: &Request, lease: &Lease) -> (out: Option<Vec<u8>>)
    ensures
        out is Some <==> answered(r@, *lease) is Some,
        out matches Some(p) ==> answered(r@, *lease) == Some(p@),
{
    let message_type: u8 = match r.kind {
        Kind::Discover => 2,
        Kind::Request => match r.requested_ip {
            // Asking for what we offered, or for nothing in particular.
            None => 5,
            Some(ip) => if ip == lease.client {
                5
            } else {
                6
            },
        },
        Kind::Other => {
            return None;
        },
    };
    let mut p = header_of(message_type, r, lease);
    let options = options_of(message_type, r, lease);
    push_bytes(&mut p, &options);
    // BOOTP's minimum message is 300 octets and some clients still enforce it.
    // Padding after the end option costs nothing and cannot be misread.
    if p.len() < MIN_MESSAGE {
        let n: usize = MIN_MESSAGE - p.len();
        push_zeros(&mut p, n);
    }
    Some(p)
}

fn push_zeros(p: &mut Vec<u8>, n: usize)
    ensures
        final(p)@ == old(p)@ + zeros(n as nat),
{
    push_fill(p, 0, n);
    assert(p@ =~= old(p)@ + zeros(n as nat));
}

fn header_of(t: u8, r: &Request, lease: &Lease) -> (p: Vec<u8>)
    ensures
        p@ == header(t, r@, *lease),
{
    let mut p: Vec<u8> = Vec::new();
    p.push(2);  // BOOTREPLY
    p.push(1);  // ethernet
    p.push(6);  // hardware address length
    p.push(0);
    assert(p@ =~= seq![2u8, 1u8, 6u8, 0u8]);
    push_be32(&mut p, r.xid);
    push_zeros(&mut p, 8);
    if t != 6 {
        push_bytes(&mut p, &lease.client.octets());
    } else {
        push_zeros(&mut p, 4);
    }
    push_bytes(&mut p, &lease.server.octets());
    push_zeros(&mut p, 4);
    push_bytes(&mut p, &r.mac);
    push_zeros(&mut p, 202);
    let cookie: [u8; 4] = [99, 130, 83, 99];
    assert(cookie@ =~= magic());
    push_bytes(&mut p, &cookie);
    p
}

fn options_of(t: u8, r: &Request, lease: &Lease) -> (o: Vec<u8>)
    ensures
        o@ == reply_options(t, r@, *lease),
{
    let mut o: Vec<u8> = Vec::new();
    let kind_value: [u8; 1] = [t];
    assert(kind_value@ =~= seq![t]);
    push_option(&mut o, OPT_MESSAGE_TYPE, &kind_value);
    assert(o@ =~= option_bytes(OPT_MESSAGE_TYPE, seq![t]));
    push_option(&mut o, OPT_SERVER_ID, &lease.server.octets());
    // Echoed unchanged, and on every message type including a NAK: a client
    // that sent one uses it to recognise the reply as its own.
    let ghost named = o@;
    if let Some(id) = &r.client_id {
        push_option(&mut o, OPT_CLIENT_ID, id);
    } else {
        assert(named + Seq::<u8>::empty() =~= named);
    }
    let ghost identified = o@;
    if t != 6 {
        let terms = terms_of(lease);
        push_bytes(&mut o, &terms);
    } else {
        assert(identified + Seq::<u8>::empty() =~= identified);
    }
    let ghost full = o@;
    o.push(OPT_END);
    assert(full.push(OPT_END) =~= full + seq![OPT_END]);
    o
}

/// The terms of the lease, as options.
fn terms_of(lease: &Lease) -> (o: Vec<u8>)
    ensures
        o@ == option_bytes(OPT_SUBNET, lease.netmask.bytes()) + option_bytes(
            OPT_ROUTER,
            lease.server.bytes(),
        ) + option_bytes(OPT_LEASE_TIME, be32(lease.lease_secs as int)),
{
    let mut o: Vec<u8> = Vec::new();
    push_option(&mut o, OPT_SUBNET, &lease.netmask.octets());
    assert(o@ =~= option_bytes(OPT_SUBNET, lease.netmask.bytes()));
    push_option(&mut o, OPT_ROUTER, &lease.server.octets());
    let mut secs: Vec<u8> = Vec::new();
    push_be32(&mut secs, lease.lease_secs);
    assert(secs@ =~= be32(lease.lease_secs as int));
    push_option(&mut o, OPT_LEASE_TIME, &secs);
    o
}

fn push_option(p: &mut Vec<u8>, code: u8, value: &[u8])
    ensures
        final(p)@ == old(p)@ + option_bytes(code, value@),
{
    p.push(code);
    p.push((value.len() % 256) as u8);
    push_bytes(p, value);
    assert(p@ =~= old(p)@ + option_bytes(code, value@));
}

// ---- laws ----

/// The value of the first option of that code from `i` on.
pub open spec fn option_value(b: Seq<u8>, code: u8, i: int) -> Option<Seq<u8>>
    decreases b.len() - i,
{
    if i < 0 || i + 2 > b.len() || b[i] == OPT_END {
        None
    } else {
        let end = i + 2 + b[i + 1];
        if end > b.len() {
            None
        } else if b[i] == code {
            Some(b.subrange(i + 2, end))
        } else {
            option_value(b, code, end)
        }
    }
}

/// One option is stepped over, or found.
pub proof fn lemma_option_step(pre: Seq<u8>, code: u8, value: Seq<u8>, rest: Seq<u8>, wanted: u8)
    requires
        value.len() <= 255,
        code != OPT_END,
    ensures
        option_value(pre + option_bytes(code, value) + rest, wanted, pre.len() as int) == if code
            == wanted {
            Some(value)
        } else {
            option_value(
                pre + option_bytes(code, value) + rest,
                wanted,
                (pre.len() + 2 + value.len()) as int,
            )
        },
{
    let b = pre + option_bytes(code, value) + rest;
    let i = pre.len() as int;
    assert(b[i] == code);
    assert(b[i + 1] == value.len());
    assert(b.subrange(i + 2, i + 2 + value.len()) =~= value);
}

/// The length of the header is where the options begin.
pub proof fn lemma_header_len(t: u8, r: RequestView, lease: Lease)
    requires
        r.mac.len() == 6,
    ensures
        header(t, r, lease).len() == OFF_OPTIONS,
        header(t, r, lease).subrange(4, 8) == be32(r.xid as int),
        header(t, r, lease).subrange(28, 34) == r.mac,
        t != 6 ==> header(t, r, lease).subrange(16, 20) == lease.client.bytes(),
{
    let h = header(t, r, lease);
    assert(h.len() == 240);
    assert(h.subrange(4, 8) =~= be32(r.xid as int));
    assert(h.subrange(28, 34) =~= r.mac);
    if t != 6 {
        assert(h.subrange(16, 20) =~= lease.client.bytes());
    }
}

/// A reply is recognised by the client it is for: it names the message type, it
/// carries the client identifier that was sent, unchanged, on every type, and
/// none when none was sent. It is never shorter than BOOTP's minimum.
pub proof fn law_a_reply_is_recognised(r: RequestView, lease: Lease)
    requires
        r.mac.len() == 6,
        answer_type(r, lease) is Some,
        r.client_id matches Some(id) ==> id.len() <= 255,
    ensures
        ({
            let p = answered(r, lease).unwrap();
            &&& p.len() >= 300
            &&& p[0] == 2
            &&& p.subrange(4, 8) == be32(r.xid as int)
            &&& p.subrange(28, 34) == r.mac
            &&& option_value(p, 53, 240) == Some(seq![answer_type(r, lease).unwrap()])
            &&& option_value(p, 54, 240) == Some(lease.server.bytes())
            &&& option_value(p, 61, 240) == r.client_id
        }),
{
    let t = answer_type(r, lease).unwrap();
    let h = header(t, r, lease);
    let whole = h + reply_options(t, r, lease);
    let p = padded(whole);
    lemma_header_len(t, r, lease);
    let tail = if whole.len() < MIN_MESSAGE {
        zeros((MIN_MESSAGE - whole.len()) as nat)
    } else {
        Seq::empty()
    };
    assert(p =~= whole + tail);
    assert(p.subrange(4, 8) =~= h.subrange(4, 8));
    assert(p.subrange(28, 34) =~= h.subrange(28, 34));
    assert(p[0] == h[0]);
    lemma_options_read_back(h, t, r, lease, tail);
}

/// The options of a reply, read from where they begin.
proof fn lemma_options_read_back(h: Seq<u8>, t: u8, r: RequestView, lease: Lease, tail: Seq<u8>)
    requires
        r.client_id matches Some(id) ==> id.len() <= 255,
    ensures
        ({
            let p = h + reply_options(t, r, lease) + tail;
            let i = h.len() as int;
            &&& option_value(p, 53, i) == Some(seq![t])
            &&& option_value(p, 54, i) == Some(lease.server.bytes())
            &&& option_value(p, 61, i) == r.client_id
        }),
{
    let o1 = option_bytes(OPT_MESSAGE_TYPE, seq![t]);
    let o2 = option_bytes(OPT_SERVER_ID, lease.server.bytes());
    let o3 = match r.client_id {
        Some(id) => option_bytes(OPT_CLIENT_ID, id),
        None => Seq::empty(),
    };
    let o4 = if t != 6 {
        option_bytes(OPT_SUBNET, lease.netmask.bytes()) + option_bytes(
            OPT_ROUTER,
            lease.server.bytes(),
        ) + option_bytes(OPT_LEASE_TIME, be32(lease.lease_secs as int))
    } else {
        Seq::empty()
    };
    let rest4 = o4 + seq![OPT_END] + tail;
    let p = h + reply_options(t, r, lease) + tail;
    lemma_option_parts(h, o1, o2, o3, o4, seq![OPT_END], tail);
    lemma_two_found(h, t, lease.server.bytes(), o3 + rest4);
    assert(p == h + o1 + o2 + (o3 + rest4));
    let p2 = h + o1 + o2;
    match r.client_id {
        Some(id) => {
            lemma_option_step(p2, OPT_CLIENT_ID, id, rest4, 61);
            assert(p2 + (o3 + rest4) =~= p2 + o3 + rest4);
        },
        None => {
            assert(p2 + (o3 + rest4) =~= p2 + rest4);
            lemma_terms_have_no_client_id(t, lease, p2, tail);
        },
    }
}

/// The message type and the server are found; a client identifier is looked for
/// after them.
proof fn lemma_two_found(h: Seq<u8>, t: u8, server: Seq<u8>, rest: Seq<u8>)
    requires
        server.len() == 4,
    ensures
        ({
            let p = h + option_bytes(OPT_MESSAGE_TYPE, seq![t]) + option_bytes(
                OPT_SERVER_ID,
                server,
            ) + rest;
            let i = h.len() as int;
            &&& option_value(p, 53, i) == Some(seq![t])
            &&& option_value(p, 54, i) == Some(server)
            &&& option_value(p, 61, i) == option_value(p, 61, i + 9)
        }),
{
    let o1 = option_bytes(OPT_MESSAGE_TYPE, seq![t]);
    let o2 = option_bytes(OPT_SERVER_ID, server);
    let p = h + o1 + o2 + rest;
    assert(p =~= h + o1 + (o2 + rest));
    assert((h + o1).len() == h.len() + 3);
    lemma_option_step(h, OPT_MESSAGE_TYPE, seq![t], o2 + rest, 53);
    lemma_option_step(h, OPT_MESSAGE_TYPE, seq![t], o2 + rest, 54);
    lemma_option_step(h, OPT_MESSAGE_TYPE, seq![t], o2 + rest, 61);
    lemma_option_step(h + o1, OPT_SERVER_ID, server, rest, 54);
    lemma_option_step(h + o1, OPT_SERVER_ID, server, rest, 61);
}

/// The same bytes, grouped round each option.
pub proof fn lemma_option_parts(
    h: Seq<u8>,
    o1: Seq<u8>,
    o2: Seq<u8>,
    o3: Seq<u8>,
    o4: Seq<u8>,
    end: Seq<u8>,
    tail: Seq<u8>,
)
    ensures
        ({
            let p = h + (o1 + o2 + o3 + o4 + end) + tail;
            let rest4 = o4 + end + tail;
            &&& p == h + o1 + (o2 + o3 + rest4)
            &&& p == h + o1 + o2 + (o3 + rest4)
            &&& p == h + o1 + o2 + o3 + rest4
        }),
{
    let rest4 = o4 + end + tail;
    let p = h + (o1 + o2 + o3 + o4 + end) + tail;
    assert(o1 + o2 + o3 + o4 + end + tail =~= o1 + o2 + o3 + rest4);
    assert(p =~= h + (o1 + o2 + o3 + o4 + end + tail));
    assert(h + (o1 + o2 + o3 + rest4) =~= h + o1 + (o2 + o3 + rest4));
    assert(h + o1 + (o2 + o3 + rest4) =~= h + o1 + o2 + (o3 + rest4));
    assert(h + o1 + o2 + (o3 + rest4) =~= h + o1 + o2 + o3 + rest4);
}

/// The options after the client identifier hold no other.
proof fn lemma_terms_have_no_client_id(t: u8, lease: Lease, pre: Seq<u8>, tail: Seq<u8>)
    ensures
        ({
            let o4 = if t != 6 {
                option_bytes(OPT_SUBNET, lease.netmask.bytes()) + option_bytes(
                    OPT_ROUTER,
                    lease.server.bytes(),
                ) + option_bytes(OPT_LEASE_TIME, be32(lease.lease_secs as int))
            } else {
                Seq::empty()
            };
            option_value(pre + (o4 + seq![OPT_END] + tail), 61, pre.len() as int) is None
        }),
{
    let a = option_bytes(OPT_SUBNET, lease.netmask.bytes());
    let b = option_bytes(OPT_ROUTER, lease.server.bytes());
    let c = option_bytes(OPT_LEASE_TIME, be32(lease.lease_secs as int));
    let end = seq![OPT_END] + tail;
    if t != 6 {
        let p = pre + (a + b + c + seq![OPT_END] + tail);
        assert(p =~= pre + a + (b + c + end));
        assert(p =~= pre + a + b + (c + end));
        assert(p =~= pre + a + b + c + end);
        lemma_option_step(pre, OPT_SUBNET, lease.netmask.bytes(), b + c + end, 61);
        lemma_option_step(pre + a, OPT_ROUTER, lease.server.bytes(), c + end, 61);
        lemma_option_step(pre + a + b, OPT_LEASE_TIME, be32(lease.lease_secs as int), end, 61);
        assert(p[(pre + a + b + c).len() as int] == OPT_END);
    } else {
        let p = pre + (Seq::<u8>::empty() + seq![OPT_END] + tail);
        assert(p[pre.len() as int] == OPT_END);
    }
}

/// Only the one address is ever given away: a request for another is refused,
/// and a refusal names no address.
pub proof fn law_only_one_address(r: RequestView, lease: Lease)
    requires
        r.mac.len() == 6,
        r.kind == Kind::Request,
        r.requested_ip matches Some(ip) && ip != lease.client,
    ensures
        answer_type(r, lease) == Some(6u8),
        answered(r, lease).unwrap().subrange(16, 20) == zeros(4),
{
    lemma_header_len(6, r, lease);
    let p = answered(r, lease).unwrap();
    assert(p.subrange(16, 20) =~= zeros(4));
}

} // verus!
