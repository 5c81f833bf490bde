//! Audio frames.
use castr::miracast::source::lpcm::{HEADER_LEN, SAMPLES_PER_FRAME, frame, payload};

#[test]
fn a_frame_is_a_header_then_big_endian_samples() {
    // Big-endian is not the machine's order, and getting it wrong yields
    // loud static rather than silence - so it is pinned to literal bytes.
    let mut samples = vec![0; SAMPLES_PER_FRAME];
    samples[0] = 0x0102;
    samples[1] = -2;
    let out = frame(&samples);
    assert_eq!(&out[..HEADER_LEN], &[0xa0, 0x06, 0x00, 0x11]);
    assert_eq!(&out[HEADER_LEN..HEADER_LEN + 4], &[0x01, 0x02, 0xff, 0xfe]);
}

#[test]
fn the_frame_has_the_specified_ten_milliseconds_of_audio() {
    let out = frame(&vec![0; SAMPLES_PER_FRAME]);
    assert_eq!(out.len(), HEADER_LEN + 1920);
}

#[test]
fn payload_skips_a_header_that_is_really_there() {
    let mut samples = vec![0; SAMPLES_PER_FRAME];
    samples[0] = 0x1234;
    let out = frame(&samples);
    assert_eq!(&payload(&out)[..2], &[0x12, 0x34]);
}

#[test]
fn payload_keeps_everything_when_there_is_no_header() {
    // A source that sends bare samples must not lose the first two of
    // them. The WFD substream id tells the two cases apart.
    let bare = [0x11u8, 0x22, 0x33, 0x44, 0x55, 0x66];
    assert_eq!(payload(&bare), &bare);
}

#[test]
fn a_runt_frame_yields_nothing_rather_than_panicking() {
    // A damaged stream must not take the process down.
    assert!(payload(&[0, 0]).is_empty());
    assert!(payload(&[]).is_empty());
}

#[test]
fn a_frame_round_trips_through_payload() {
    let mut samples = vec![0i16; SAMPLES_PER_FRAME];
    samples[..5].copy_from_slice(&[1, -1, 32767, -32768, 0]);
    let f = frame(&samples);
    let got: Vec<i16> = payload(&f)
        .chunks(2)
        .filter(|c| c.len() == 2)
        .map(|b| i16::from_be_bytes([b[0], b[1]]))
        .collect();
    assert_eq!(got, samples);
}
