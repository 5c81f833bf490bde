//! What both ends of a connection agree on.
use castr::net::identity::fingerprint_of;
use castr::net::transport::{
    check_ack, check_preamble, datagram_size, frame, peer_fingerprint, FrameReader, PeerError, ALPN,
    CONTROL_ACK, CONTROL_OPEN_TIMEOUT_MS, CONTROL_PREAMBLE, DATAGRAM_BUFFER_BYTES, IDLE_TIMEOUT_MS,
    KEEP_ALIVE_MS, SOCKET_BUFFER_BYTES,
};

#[test]
fn the_constants_are_what_both_ends_expect() {
    assert_eq!(&ALPN, b"castr/1");
    assert_eq!(&CONTROL_PREAMBLE, b"CTRL");
    assert_eq!(&CONTROL_ACK, b"OK");
    assert_eq!(SOCKET_BUFFER_BYTES, 4 * 1024 * 1024);
    assert_eq!(DATAGRAM_BUFFER_BYTES, 4 * 1024 * 1024);
    assert!(CONTROL_OPEN_TIMEOUT_MS < IDLE_TIMEOUT_MS);
    assert!(KEEP_ALIVE_MS < IDLE_TIMEOUT_MS);
}

#[test]
fn without_a_reported_size_datagrams_are_small() {
    assert_eq!(datagram_size(Some(1_452)), 1_452);
    assert_eq!(datagram_size(None), 1_200);
}

#[test]
fn a_wrong_preamble_or_ack_is_named() {
    assert_eq!(check_preamble(b"CTRL"), Ok(()));
    assert_eq!(
        check_preamble(b"CTRX"),
        Err("bad control preamble [67, 84, 82, 88]".to_string())
    );
    assert_eq!(check_ack(b"OK"), Ok(()));
    assert_eq!(
        check_ack(b"NO"),
        Err("unexpected control ack [78, 79]".to_string())
    );
}

#[test]
fn the_peer_is_its_first_certificate() {
    let chain = vec![b"leaf".to_vec(), b"root".to_vec()];
    assert_eq!(peer_fingerprint(Some(&chain)), Ok(fingerprint_of(b"leaf")));
    assert_eq!(peer_fingerprint(None), Err(PeerError::NoCertificate));
    assert_eq!(
        peer_fingerprint(Some(&Vec::new())),
        Err(PeerError::EmptyChain)
    );
    assert_eq!(
        PeerError::NoCertificate.message(),
        "peer presented no certificate"
    );
    assert_eq!(
        PeerError::EmptyChain.message(),
        "empty peer certificate chain"
    );
}

#[test]
fn messages_read_back_however_they_are_split() {
    let mut wire = Vec::new();
    for m in [&b"hello"[..], b"", b"again"] {
        wire.extend(frame(m));
    }
    assert_eq!(&wire[..9], b"\0\0\0\x05hello");
    for step in 1..=wire.len() {
        let mut r = FrameReader::new();
        let mut got = Vec::new();
        for chunk in wire.chunks(step) {
            r.push(chunk);
            while let Some(m) = r.next_message() {
                got.push(m);
            }
        }
        assert_eq!(got, vec![b"hello".to_vec(), b"".to_vec(), b"again".to_vec()]);
    }
}

#[test]
fn a_part_of_a_message_is_waited_for() {
    let mut r = FrameReader::new();
    let wire = frame(b"hello");
    r.push(&wire[..3]);
    assert_eq!(r.next_message(), None);
    r.push(&wire[3..8]);
    assert_eq!(r.next_message(), None);
    r.push(&wire[8..]);
    assert_eq!(r.next_message(), Some(b"hello".to_vec()));
    assert_eq!(r.next_message(), None);
}
