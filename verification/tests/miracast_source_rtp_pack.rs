//! Datagrams out of a transport stream.
use castr::miracast::rtp;
use castr::miracast::source::rtp_pack::{HEADER_LEN, PAYLOAD_TYPE, Packetizer};
use castr::miracast::ts::PACKET_LEN;

fn ts_packets(n: usize) -> Vec<u8> {
    let mut v = Vec::new();
    for i in 0..n {
        let mut p = [0u8; PACKET_LEN];
        p[0] = 0x47;
        p[4] = i as u8;
        v.extend_from_slice(&p);
    }
    v
}

#[test]
fn seven_transport_packets_make_one_datagram() {
    let mut p = Packetizer::new(1);
    let out = p.push(&ts_packets(7), 0);
    assert_eq!(out.len(), 1);
    assert_eq!(
        out[0].len(),
        HEADER_LEN + 7 * PACKET_LEN,
        "header plus 1316 bytes"
    );
}

#[test]
fn our_own_parser_reads_what_we_wrote() {
    let mut p = Packetizer::new(0xdead_beef);
    let out = p.push(&ts_packets(14), 900);
    assert_eq!(out.len(), 2);
    let first = rtp::parse(&out[0]).expect("unparseable datagram");
    assert_eq!(first.payload_type, PAYLOAD_TYPE);
    assert_eq!(first.timestamp, 900);
    assert_eq!(first.payload.len(), 7 * PACKET_LEN);
    let second = rtp::parse(&out[1]).expect("unparseable datagram");
    assert_eq!(
        second.sequence,
        first.sequence.wrapping_add(1),
        "sequence numbers must advance by one"
    );
}

#[test]
fn a_short_tail_is_still_sent() {
    // Holding it back would delay the end of every frame.
    let mut p = Packetizer::new(1);
    let out = p.push(&ts_packets(9), 0);
    assert_eq!(out.len(), 2);
    assert_eq!(out[1].len(), HEADER_LEN + 2 * PACKET_LEN);
}

#[test]
fn sequence_numbers_wrap_rather_than_overflow() {
    let mut p = Packetizer::new(1);
    p.set_sequence(u16::MAX);
    let out = p.push(&ts_packets(14), 0);
    assert_eq!(rtp::parse(&out[0]).unwrap().sequence, u16::MAX);
    assert_eq!(rtp::parse(&out[1]).unwrap().sequence, 0);
}

#[test]
fn the_payload_is_the_transport_stream_unchanged() {
    // Anything added or dropped here would desynchronise the demuxer.
    let mut p = Packetizer::new(1);
    let ts = ts_packets(7);
    let out = p.push(&ts, 0);
    assert_eq!(rtp::parse(&out[0]).unwrap().payload, ts);
}

#[test]
fn nothing_in_makes_nothing_out() {
    let mut p = Packetizer::new(1);
    assert!(p.push(&[], 0).is_empty());
}

#[test]
fn a_whole_frame_survives_the_reordering_window() {
    // The sink holds packets briefly before handing them on; what we send
    // must come out of that window in the order it went in.
    let mut p = Packetizer::new(1);
    let out = p.push(&ts_packets(21), 4_500);
    let mut window = rtp::Reorder::new(8);
    let mut seen = Vec::new();
    for d in &out {
        seen.extend(window.push(rtp::parse(d).expect("unparseable")));
    }
    seen.extend(window.flush());
    assert_eq!(seen.len(), 3);
    assert_eq!(seen[0].sequence, 0);
    assert_eq!(seen[2].sequence, 2);
    assert_eq!(window.lost(), 0, "nothing was lost, so nothing may be counted");
}
