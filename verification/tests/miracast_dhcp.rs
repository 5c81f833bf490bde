//! The DHCP server.
use castr::miracast::dhcp::{Ipv4Addr, Kind, MIN_MESSAGE, default_lease, parse, reply};

const MAC: [u8; 6] = [0xaa, 0xbb, 0xcc, 0xdd, 0xee, 0xff];

fn packet(msg_type: u8, xid: u32, requested: Option<[u8; 4]>) -> Vec<u8> {
    packet_with_id(msg_type, xid, requested, None)
}

/// The client identifier Windows sends: option 61, type 1 then the MAC.
fn windows_client_id() -> Vec<u8> {
    let mut v = vec![1u8];
    v.extend_from_slice(&MAC);
    v
}

fn packet_with_id(
    msg_type: u8,
    xid: u32,
    requested: Option<[u8; 4]>,
    client_id: Option<&[u8]>,
) -> Vec<u8> {
    let mut p = vec![0u8; 240];
    p[0] = 1; // BOOTREQUEST
    p[1] = 1; // ethernet
    p[2] = 6; // hardware length
    p[4..8].copy_from_slice(&xid.to_be_bytes());
    p[28..34].copy_from_slice(&MAC);
    p[236..240].copy_from_slice(&[99, 130, 83, 99]); // magic cookie
    p.extend_from_slice(&[53, 1, msg_type]);
    if let Some(ip) = requested {
        p.push(50);
        p.push(4);
        p.extend_from_slice(&ip);
    }
    if let Some(id) = client_id {
        p.push(61);
        p.push(id.len() as u8);
        p.extend_from_slice(id);
    }
    p.push(255);
    p
}

/// Finds a DHCP option in a reply and compares its value.
fn has_option(buf: &[u8], code: u8, value: &[u8]) -> bool {
    let mut i = 240;
    while i + 2 <= buf.len() {
        let c = buf[i];
        if c == 255 {
            return false;
        }
        let len = buf[i + 1] as usize;
        if c == code {
            return &buf[i + 2..i + 2 + len] == value;
        }
        i += 2 + len;
    }
    false
}

#[test]
fn a_reply_echoes_the_client_identifier_the_request_carried() {
    // RFC 6842: a server that received a client identifier must return it
    // unchanged. Windows sends one in every message and silently drops any
    // reply without it - which looks exactly like no server at all, and is
    // why a cast got its address offered and then fell back to APIPA.
    let id = windows_client_id();
    for msg_type in [1u8, 3u8] {
        let req = parse(&packet_with_id(
            msg_type,
            7,
            Some([192, 168, 173, 2]),
            Some(&id),
        ))
        .expect("parse");
        assert_eq!(req.client_id.as_deref(), Some(id.as_slice()));
        let reply = reply(&req, &default_lease()).expect("reply");
        assert!(
            has_option(&reply, 61, &id),
            "message type {msg_type} did not echo the client identifier"
        );
    }
}

#[test]
fn a_nak_echoes_the_client_identifier_too() {
    // The client has to recognise a refusal as its own just as much.
    let id = windows_client_id();
    let req = parse(&packet_with_id(3, 7, Some([10, 0, 0, 9]), Some(&id))).expect("parse");
    let reply = reply(&req, &default_lease()).expect("reply");
    assert!(has_option(&reply, 53, &[6]), "expected a NAK");
    assert!(has_option(&reply, 61, &id));
}

#[test]
fn a_request_without_a_client_identifier_gets_a_reply_without_one() {
    // Nothing is invented: only what the client sent comes back.
    let req = parse(&packet(1, 7, None)).expect("parse");
    assert_eq!(req.client_id, None);
    let reply = reply(&req, &default_lease()).expect("reply");
    assert!(!has_option(&reply, 61, &windows_client_id()));
}

#[test]
fn a_reply_meets_the_minimum_message_length() {
    let req = parse(&packet(1, 7, None)).expect("parse");
    let reply = reply(&req, &default_lease()).expect("reply");
    assert!(reply.len() >= MIN_MESSAGE, "{} octets", reply.len());
}

#[test]
fn a_discover_parses_with_its_transaction_and_mac() {
    let r = parse(&packet(1, 0xdeadbeef, None)).expect("parse");
    assert_eq!(r.kind, Kind::Discover);
    assert_eq!(r.xid, 0xdeadbeef);
    assert_eq!(r.mac, MAC);
    assert_eq!(r.requested_ip, None);
}

#[test]
fn a_request_carries_the_address_it_wants() {
    let r = parse(&packet(3, 1, Some([192, 168, 173, 2]))).expect("parse");
    assert_eq!(r.kind, Kind::Request);
    assert_eq!(r.requested_ip, Some(Ipv4Addr::new(192, 168, 173, 2)));
}

#[test]
fn a_packet_without_the_magic_cookie_is_rejected() {
    let mut p = packet(1, 1, None);
    p[236] = 0;
    assert!(parse(&p).is_none());
}

#[test]
fn a_truncated_packet_is_rejected_without_panicking() {
    assert!(parse(&[1, 1, 6, 0]).is_none());
    let p = packet(1, 1, None);
    assert!(parse(&p[..100]).is_none());
}

#[test]
fn a_discover_is_answered_with_an_offer_naming_our_addresses() {
    let r = parse(&packet(1, 7, None)).unwrap();
    let out = reply(&r, &default_lease()).expect("offer");
    assert_eq!(out[0], 2, "BOOTREPLY");
    assert_eq!(&out[4..8], &7u32.to_be_bytes(), "same transaction");
    assert_eq!(&out[16..20], &[192, 168, 173, 2], "your-address");
    assert_eq!(&out[28..34], &MAC);
    assert!(has_option(&out, 53, &[2]), "OFFER");
    assert!(
        has_option(&out, 54, &[192, 168, 173, 1]),
        "server identifier"
    );
    assert!(has_option(&out, 1, &[255, 255, 255, 248]), "/29 netmask");
    assert!(has_option(&out, 3, &[192, 168, 173, 1]), "router");
}

#[test]
fn a_request_is_answered_with_an_ack() {
    let r = parse(&packet(3, 8, Some([192, 168, 173, 2]))).unwrap();
    let out = reply(&r, &default_lease()).expect("ack");
    assert!(has_option(&out, 53, &[5]), "ACK");
    assert!(has_option(&out, 51, &3600u32.to_be_bytes()), "lease time");
}

#[test]
fn a_request_for_someone_elses_address_is_declined() {
    let r = parse(&packet(3, 9, Some([10, 0, 0, 5]))).unwrap();
    let out = reply(&r, &default_lease()).expect("nak");
    assert!(has_option(&out, 53, &[6]), "NAK");
}

#[test]
fn any_other_message_type_is_ignored() {
    let r = parse(&packet(7, 10, None)).unwrap(); // RELEASE
    assert_eq!(r.kind, Kind::Other);
    assert!(reply(&r, &default_lease()).is_none());
}
