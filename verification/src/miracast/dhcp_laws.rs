//! What a DHCP request says and what a reply to it holds, byte by byte.
use vstd::prelude::*;
use crate::miracast::dhcp::{
    answer_type, answered, header, lemma_header_len, lemma_option_parts, lemma_option_step, magic,
    option_bytes, option_value, options_from, padded, parsed, reply_options, with_option, zeros,
    Ipv4Addr, Kind, Lease, Options, RequestView,
};
use crate::wire::be32;

verus! {

// ---- requests ----

/// A request is at least 240 bytes, of which the first is 1 and the last four of
/// those are the cookie; its number is at the fifth byte and the client's address
/// at the 29th.
pub proof fn law_the_fields_of_a_request(b: Seq<u8>)
    ensures
        ({
            let fit = b.len() >= 240 && b[0] == 1 && b[236] == 99 && b[237] == 130 && b[238] == 83
                && b[239] == 99;
            &&& !fit ==> parsed(b) is None
            &&& parsed(b) matches Some(r) ==> {
                &&& r.xid == 16777216 * b[4] + 65536 * b[5] + 256 * b[6] + b[7]
                &&& r.mac.len() == 6
                &&& forall|i: int| 0 <= i < 6 ==> #[trigger] r.mac[i] == b[28 + i]
            }
            &&& fit && options_from(
                b,
                240,
                Options { kind: Kind::Other, requested_ip: None, client_id: None },
            ) is Some ==> parsed(b) is Some
        }),
{
    if b.len() >= 240 {
        let cookie = b.subrange(236, 240);
        assert(cookie[0] == b[236] && cookie[1] == b[237] && cookie[2] == b[238] && cookie[3]
            == b[239]);
        if b[236] == 99 && b[237] == 130 && b[238] == 83 && b[239] == 99 {
            assert(cookie =~= magic());
        } else {
            assert(cookie != magic()) by {
                if cookie == magic() {
                    assert(cookie[0] == 99 && cookie[1] == 130 && cookie[2] == 83 && cookie[3]
                        == 99);
                }
            }
        }
    }
}

/// The options are read one after the other: 255 ends them, zero is stepped over,
/// and any other is as long as its second byte says; one that is cut short spoils
/// the request.
pub proof fn law_options_are_read_in_turn(b: Seq<u8>, i: int, o: Options)
    requires
        0 <= i,
    ensures
        i + 2 > b.len() ==> options_from(b, i, o) == Some(o),
        i + 2 <= b.len() && b[i] == 255 ==> options_from(b, i, o) == Some(o),
        i + 2 <= b.len() && b[i] == 0 ==> options_from(b, i, o) == options_from(b, i + 1, o),
        i + 2 <= b.len() && b[i] != 0 && b[i] != 255 && i + 2 + b[i + 1] > b.len()
            ==> options_from(b, i, o) is None,
        i + 2 <= b.len() && b[i] != 0 && b[i] != 255 && i + 2 + b[i + 1] <= b.len()
            ==> options_from(b, i, o) == options_from(
            b,
            i + 2 + b[i + 1],
            with_option(o, b[i], b.subrange(i + 2, i + 2 + b[i + 1])),
        ),
{
}

/// What the options mean: 53 is the kind, 1 for a discovery and 3 for a request;
/// 50 is the address asked for; 61 is the client's identifier. One of another
/// code or of a wrong length says nothing.
pub proof fn law_what_options_mean(o: Options, code: u8, v: Seq<u8>)
    ensures
        ({
            let n = with_option(o, code, v);
            &&& code == 53 && v.len() == 1 && v[0] == 1 ==> n.kind == Kind::Discover
            &&& code == 53 && v.len() == 1 && v[0] == 3 ==> n.kind == Kind::Request
            &&& code == 53 && v.len() == 1 && v[0] != 1 && v[0] != 3 ==> n.kind == Kind::Other
            &&& code == 50 && v.len() == 4 ==> n.requested_ip == Some(
                Ipv4Addr { a: v[0], b: v[1], c: v[2], d: v[3] },
            )
            &&& code == 61 && v.len() > 0 ==> n.client_id == Some(v)
            &&& !(code == 53 && v.len() == 1) ==> n.kind == o.kind
            &&& !(code == 50 && v.len() == 4) ==> n.requested_ip == o.requested_ip
            &&& !(code == 61 && v.len() > 0) ==> n.client_id == o.client_id
        }),
{
}

// ---- replies ----

/// A discovery is answered with an offer; a request with an acknowledgement if it
/// asks for the address we have or for none, and else with a refusal; anything
/// else is not answered.
pub proof fn law_what_is_answered(r: RequestView, lease: Lease)
    ensures
        ({
            let ours = r.requested_ip is None || r.requested_ip == Some(lease.client);
            let t = answer_type(r, lease);
            &&& r.kind == Kind::Discover ==> t == Some(2u8)
            &&& r.kind == Kind::Request && ours ==> t == Some(5u8)
            &&& r.kind == Kind::Request && !ours ==> t == Some(6u8)
            &&& r.kind == Kind::Other ==> t is None
            &&& answered(r, lease) is Some <==> t is Some
        }),
{
}

/// The head of a reply: a reply on Ethernet, the request's number, the address that
/// is given or nothing where it is refused, the server's, the client's hardware
/// address, and the cookie; everything between is zero.
pub proof fn law_the_head_of_a_reply(r: RequestView, lease: Lease)
    requires
        r.mac.len() == 6,
        answer_type(r, lease) is Some,
    ensures
        ({
            let p = answered(r, lease)->0;
            let refused = answer_type(r, lease) == Some(6u8);
            &&& p.len() >= 300
            &&& p[0] == 2 && p[1] == 1 && p[2] == 6 && p[3] == 0
            &&& 16777216 * p[4] + 65536 * p[5] + 256 * p[6] + p[7] == r.xid
            &&& forall|i: int| 8 <= i < 16 ==> #[trigger] p[i] == 0
            &&& !refused ==> p[16] == lease.client.a && p[17] == lease.client.b && p[18]
                == lease.client.c && p[19] == lease.client.d
            &&& refused ==> p[16] == 0 && p[17] == 0 && p[18] == 0 && p[19] == 0
            &&& p[20] == lease.server.a && p[21] == lease.server.b && p[22] == lease.server.c
                && p[23] == lease.server.d
            &&& forall|i: int| 24 <= i < 28 ==> #[trigger] p[i] == 0
            &&& forall|i: int| 28 <= i < 34 ==> #[trigger] p[i] == r.mac[i - 28]
            &&& forall|i: int| 34 <= i < 236 ==> #[trigger] p[i] == 0
            &&& p[236] == 99 && p[237] == 130 && p[238] == 83 && p[239] == 99
        }),
{
    let t = answer_type(r, lease)->0;
    lemma_header_len(t, r, lease);
    let h = header(t, r, lease);
    let p = answered(r, lease)->0;
    assert forall|i: int| 0 <= i < 240 implies #[trigger] p[i] == h[i] by {}
    let x = be32(r.xid as int);
    assert(h[4] == x[0] && h[5] == x[1] && h[6] == x[2] && h[7] == x[3]);
    let c = if t != 6 {
        lease.client.bytes()
    } else {
        zeros(4)
    };
    assert(h[16] == c[0] && h[17] == c[1] && h[18] == c[2] && h[19] == c[3]);
    let s = lease.server.bytes();
    assert(h[20] == s[0] && h[21] == s[1] && h[22] == s[2] && h[23] == s[3]);
    let m = magic();
    assert(h[236] == m[0] && h[237] == m[1] && h[238] == m[2] && h[239] == m[3]);
}

/// A lease names its terms, the netmask, the server as the router and how long it
/// holds, in seconds; a refusal names none of them.
pub proof fn law_the_terms_of_a_lease(r: RequestView, lease: Lease)
    requires
        r.mac.len() == 6,
        answer_type(r, lease) is Some,
        r.client_id matches Some(id) ==> id.len() <= 255,
    ensures
        ({
            let p = answered(r, lease)->0;
            let refused = answer_type(r, lease) == Some(6u8);
            &&& !refused ==> option_value(p, 1, 240) == Some(lease.netmask.bytes())
            &&& !refused ==> option_value(p, 3, 240) == Some(lease.server.bytes())
            &&& !refused ==> option_value(p, 51, 240) == Some(be32(lease.lease_secs as int))
            &&& refused ==> option_value(p, 1, 240) is None && option_value(p, 3, 240) is None
                && option_value(p, 51, 240) is None
        }),
{
    let t = answer_type(r, lease)->0;
    let h = header(t, r, lease);
    let whole = h + reply_options(t, r, lease);
    let p = padded(whole);
    lemma_header_len(t, r, lease);
    let tail = if whole.len() < 300 {
        zeros((300 - whole.len()) as nat)
    } else {
        Seq::empty()
    };
    assert(p =~= whole + tail);
    lemma_term(h, t, r, lease, tail, 1);
    lemma_term(h, t, r, lease, tail, 3);
    lemma_term(h, t, r, lease, tail, 51);
}

proof fn lemma_term(h: Seq<u8>, t: u8, r: RequestView, lease: Lease, tail: Seq<u8>, wanted: u8)
    requires
        wanted == 1 || wanted == 3 || wanted == 51,
        r.client_id matches Some(id) ==> id.len() <= 255,
    ensures
        option_value(h + reply_options(t, r, lease) + tail, wanted, h.len() as int) == if t == 6 {
            None
        } else if wanted == 1 {
            Some(lease.netmask.bytes())
        } else if wanted == 3 {
            Some(lease.server.bytes())
        } else {
            Some(be32(lease.lease_secs as int))
        },
{
    let o1 = option_bytes(53, seq![t]);
    let o2 = option_bytes(54, lease.server.bytes());
    let o3 = match r.client_id {
        Some(id) => option_bytes(61, id),
        None => Seq::empty(),
    };
    let a = option_bytes(1, lease.netmask.bytes());
    let b = option_bytes(3, lease.server.bytes());
    let c = option_bytes(51, be32(lease.lease_secs as int));
    let o4 = if t != 6 {
        a + b + c
    } else {
        Seq::empty()
    };
    let end = seq![255u8];
    lemma_option_parts(h, o1, o2, o3, o4, end, tail);
    assert(reply_options(t, r, lease) == o1 + o2 + o3 + o4 + end);
    let p3 = h + o1 + o2 + o3;
    lemma_to_the_terms(h, t, lease.server.bytes(), r.client_id, o4 + end + tail, wanted);
    if t != 6 {
        let (m, s, n) = (
            lease.netmask.bytes(),
            lease.server.bytes(),
            be32(lease.lease_secs as int),
        );
        lemma_three_terms(p3, m, s, n, end + tail, wanted);
        assert(o4 + end + tail =~= a + b + c + (end + tail));
    } else {
        let q = p3 + (o4 + end + tail);
        assert(q[p3.len() as int] == 255);
    }
}

/// The terms are looked for behind the message type, the server and the client's
/// identifier.
proof fn lemma_to_the_terms(
    h: Seq<u8>,
    t: u8,
    server: Seq<u8>,
    client: Option<Seq<u8>>,
    terms: Seq<u8>,
    wanted: u8,
)
    requires
        wanted == 1 || wanted == 3 || wanted == 51,
        server.len() == 4,
        client matches Some(id) ==> id.len() <= 255,
    ensures
        ({
            let o1 = option_bytes(53, seq![t]);
            let o2 = option_bytes(54, server);
            let o3 = match client {
                Some(id) => option_bytes(61, id),
                None => Seq::empty(),
            };
            let p3 = h + o1 + o2 + o3;
            option_value(p3 + terms, wanted, h.len() as int) == option_value(
                p3 + terms,
                wanted,
                p3.len() as int,
            )
        }),
{
    let o1 = option_bytes(53, seq![t]);
    let o2 = option_bytes(54, server);
    let o3 = match client {
        Some(id) => option_bytes(61, id),
        None => Seq::empty(),
    };
    let p3 = h + o1 + o2 + o3;
    let p = p3 + terms;
    assert(p =~= h + o1 + (o2 + o3 + terms));
    lemma_option_step(h, 53, seq![t], o2 + o3 + terms, wanted);
    assert(p =~= h + o1 + o2 + (o3 + terms));
    assert((h + o1).len() == h.len() + 3);
    lemma_option_step(h + o1, 54, server, o3 + terms, wanted);
    match client {
        Some(id) => {
            lemma_option_step(h + o1 + o2, 61, id, terms, wanted);
        },
        None => {
            assert(p3 =~= h + o1 + o2);
        },
    }
}

proof fn lemma_three_terms(
    pre: Seq<u8>,
    mask: Seq<u8>,
    router: Seq<u8>,
    secs: Seq<u8>,
    last: Seq<u8>,
    wanted: u8,
)
    requires
        wanted == 1 || wanted == 3 || wanted == 51,
        mask.len() == 4,
        router.len() == 4,
        secs.len() == 4,
    ensures
        option_value(
            pre + (option_bytes(1, mask) + option_bytes(3, router) + option_bytes(51, secs) + last),
            wanted,
            pre.len() as int,
        ) == Some(
            if wanted == 1 {
                mask
            } else if wanted == 3 {
                router
            } else {
                secs
            },
        ),
{
    let a = option_bytes(1, mask);
    let b = option_bytes(3, router);
    let c = option_bytes(51, secs);
    let p = pre + (a + b + c + last);
    assert(p =~= pre + a + (b + c + last));
    lemma_option_step(pre, 1, mask, b + c + last, wanted);
    assert(p =~= pre + a + b + (c + last));
    lemma_option_step(pre + a, 3, router, c + last, wanted);
    assert(p =~= pre + a + b + c + last);
    lemma_option_step(pre + a + b, 51, secs, last, wanted);
}

} // verus!
