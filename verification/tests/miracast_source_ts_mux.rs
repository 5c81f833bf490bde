//! A transport stream out of pictures and sound.
use castr::miracast::source::ts_mux::{AUDIO_PID, Muxer, VIDEO_PID};
use castr::miracast::ts::{Demux, PACKET_LEN, Unit};
use castr::miracast::source::lpcm::{payload, SAMPLES_PER_FRAME};

/// Feeds a muxed buffer through the sink's demuxer, as the wire would.
fn round_trip(buf: &[u8]) -> Vec<Unit> {
    let mut d = Demux::new();
    let mut units = Vec::new();
    for p in buf.chunks(PACKET_LEN) {
        units.extend(d.push(p));
    }
    units
}

#[test]
fn every_emitted_buffer_is_whole_packets() {
    let mut m = Muxer::new();
    let out = m.push_video(&[0, 0, 0, 1, 0x65, 0xaa], 0);
    assert!(!out.is_empty());
    assert_eq!(out.len() % PACKET_LEN, 0, "a partial packet is unsendable");
    assert!(
        out.chunks(PACKET_LEN).all(|p| p[0] == 0x47),
        "lost sync byte"
    );
}

#[test]
fn an_access_unit_survives_our_own_demuxer() {
    // The strongest cheap check available: the sink already reads a real
    // source's stream, so what it reads back is at least self-consistent.
    let au: Vec<u8> = [0, 0, 0, 1, 0x65].iter().copied().chain(0..200u8).collect();
    let mut m = Muxer::new();
    let mut buf = m.push_video(&au, 1_000);
    buf.extend(m.push_video(&au, 34_000));
    let units = round_trip(&buf);
    assert!(
        units
            .iter()
            .any(|u| matches!(u, Unit::Video { data, .. } if *data == au)),
        "the access unit did not come back intact"
    );
}

#[test]
fn a_units_presentation_time_survives() {
    let mut m = Muxer::new();
    let mut buf = m.push_video(&[0, 0, 0, 1, 0x65, 1], 1_000_000);
    buf.extend(m.push_video(&[0, 0, 0, 1, 0x65, 2], 2_000_000));
    let units = round_trip(&buf);
    match units.first().expect("no unit came back") {
        Unit::Video { pts_us, .. } => assert_eq!(*pts_us, Some(1_000_000)),
        other => panic!("expected video, got {other:?}"),
    }
}

#[test]
fn audio_survives_with_its_header_intact() {
    let mut m = Muxer::new();
    let buf = m.push_audio(&[0x0102; SAMPLES_PER_FRAME], 1_000);
    let units = round_trip(&buf);
    let audio = units
        .iter()
        .find_map(|u| match u {
            Unit::Audio { data, .. } => Some(data.clone()),
            _ => None,
        })
        .expect("no audio unit came back");
    assert_eq!(payload(&audio).len(), 1920);
}

#[test]
fn continuity_counters_do_not_break() {
    let mut m = Muxer::new();
    let mut buf = Vec::new();
    for i in 0..40u64 {
        buf.extend(m.push_video(&[0, 0, 0, 1, 0x41, i as u8], i * 33_000));
    }
    let mut d = Demux::new();
    for p in buf.chunks(PACKET_LEN) {
        d.push(p);
    }
    assert_eq!(
        d.stats().continuity_errors,
        0,
        "the demuxer saw a gap in a stream that was never lossy"
    );
}

#[test]
fn the_program_tables_are_repeated_not_sent_once() {
    // A sink that tunes in late, or drops a packet, must still learn the
    // program rather than give up.
    let mut m = Muxer::new();
    let mut buf = Vec::new();
    for i in 0..60u64 {
        buf.extend(m.push_video(&[0, 0, 0, 1, 0x41, 1], i * 33_000));
    }
    let pat = buf
        .chunks(PACKET_LEN)
        .filter(|p| (((p[1] & 0x1f) as u16) << 8 | p[2] as u16) == 0)
        .count();
    assert!(
        pat >= 2,
        "the program association table was sent {pat} times"
    );
}

#[test]
fn the_demuxer_learns_both_streams_from_our_tables() {
    let mut m = Muxer::new();
    let mut buf = m.push_video(&[0, 0, 0, 1, 0x65, 1], 0);
    buf.extend(m.push_audio(&[0; SAMPLES_PER_FRAME], 0));
    let mut d = Demux::new();
    for p in buf.chunks(PACKET_LEN) {
        d.push(p);
    }
    let stats = d.stats();
    assert_eq!(stats.video_pid, Some(VIDEO_PID));
    assert_eq!(stats.audio_pid, Some(AUDIO_PID));
}

#[test]
fn an_access_unit_spanning_many_packets_survives() {
    // A keyframe is far larger than one packet, and the padding rule only
    // shows itself on the last of a long run.
    let au: Vec<u8> = (0..5000u32).map(|i| (i % 251) as u8).collect();
    let mut m = Muxer::new();
    let mut buf = m.push_video(&au, 0);
    buf.extend(m.push_video(&[0, 0, 0, 1, 0x41, 9], 33_000));
    let units = round_trip(&buf);
    assert!(
        units
            .iter()
            .any(|u| matches!(u, Unit::Video { data, .. } if *data == au)),
        "a multi-packet access unit came back damaged"
    );
}
