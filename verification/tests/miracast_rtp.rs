//! RTP packets and their order.
use castr::miracast::rtp::{Packet, Reorder, parse};

fn raw(seq: u16, ts: u32, pt: u8, payload: &[u8]) -> Vec<u8> {
    let mut v = vec![0x80, pt];
    v.extend_from_slice(&seq.to_be_bytes());
    v.extend_from_slice(&ts.to_be_bytes());
    v.extend_from_slice(&0x1234_5678u32.to_be_bytes()); // SSRC
    v.extend_from_slice(payload);
    v
}

fn pkt(seq: u16) -> Packet {
    Packet {
        sequence: seq,
        timestamp: seq as u32 * 100,
        payload_type: 33,
        payload: vec![seq as u8],
    }
}

#[test]
fn a_packet_parses_into_its_fields() {
    let p = parse(&raw(7, 900, 33, &[1, 2, 3])).expect("parse");
    assert_eq!(p.sequence, 7);
    assert_eq!(p.timestamp, 900);
    assert_eq!(p.payload_type, 33);
    assert_eq!(p.payload, vec![1, 2, 3]);
}

#[test]
fn a_csrc_count_shifts_the_payload() {
    let mut v = raw(1, 0, 33, &[9, 9]);
    v[0] = 0x81; // one CSRC
    v.splice(12..12, [0, 0, 0, 5]);
    let p = parse(&v).expect("parse");
    assert_eq!(p.payload, vec![9, 9]);
}

#[test]
fn a_short_or_wrong_version_packet_is_rejected() {
    assert!(parse(&[0x80, 33, 0]).is_none());
    let mut v = raw(1, 0, 33, &[1]);
    v[0] = 0x40; // version 1
    assert!(parse(&v).is_none());
}

#[test]
fn packets_in_order_pass_straight_through() {
    let mut r = Reorder::new(8);
    let out: Vec<u16> = (1..=4)
        .flat_map(|s| r.push(pkt(s)))
        .map(|p| p.sequence)
        .collect();
    assert_eq!(out, vec![1, 2, 3, 4]);
    assert_eq!(r.lost(), 0);
}

#[test]
fn a_swapped_pair_is_reordered() {
    let mut r = Reorder::new(8);
    let mut got: Vec<u16> = r.push(pkt(1)).into_iter().map(|p| p.sequence).collect();
    got.extend(r.push(pkt(3)).into_iter().map(|p| p.sequence));
    got.extend(r.push(pkt(2)).into_iter().map(|p| p.sequence));
    got.extend(r.flush().into_iter().map(|p| p.sequence));
    assert_eq!(got, vec![1, 2, 3]);
    assert_eq!(r.lost(), 0);
}

#[test]
fn a_gap_wider_than_the_window_is_given_up_on_and_counted() {
    let mut r = Reorder::new(4);
    r.push(pkt(1));
    let mut got = Vec::new();
    for s in 3..=8 {
        got.extend(r.push(pkt(s)).into_iter().map(|p| p.sequence));
    }
    assert!(got.contains(&3), "later packets are released: {got:?}");
    assert_eq!(r.lost(), 1, "packet 2 is counted lost");
}

#[test]
fn a_duplicate_is_dropped() {
    let mut r = Reorder::new(8);
    r.push(pkt(1));
    r.push(pkt(2));
    assert!(r.push(pkt(2)).is_empty());
    assert_eq!(r.flush().len(), 0);
}

#[test]
fn the_sequence_number_wraps_without_declaring_loss() {
    let mut r = Reorder::new(8);
    let mut got = Vec::new();
    for s in [65534u16, 65535, 0, 1] {
        got.extend(r.push(pkt(s)).into_iter().map(|p| p.sequence));
    }
    got.extend(r.flush().into_iter().map(|p| p.sequence));
    assert_eq!(got, vec![65534, 65535, 0, 1]);
    assert_eq!(r.lost(), 0);
}
