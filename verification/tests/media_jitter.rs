//! Frames between the network and the decoder.
use castr::media::jitter::JitterBuffer;
use castr::proto::{CompleteFrame, Mode, STREAM_VIDEO};

fn f(n: u32, ts: u64, key: bool) -> CompleteFrame {
    CompleteFrame {
        stream: STREAM_VIDEO,
        frame_number: n,
        timestamp_us: ts,
        keyframe: key,
        data: vec![n as u8],
    }
}
const IV: u64 = 33_333;

#[test]
fn game_returns_newest_and_drops_older_deltas() {
    let mut j = JitterBuffer::new(Mode::Game, IV);
    j.push(f(1, 0, false), 0);
    j.push(f(2, IV, false), 0);
    j.push(f(3, 2 * IV, false), 0);
    assert_eq!(j.pop(0).unwrap().frame_number, 3);
    assert_eq!(j.depth(), 0);
    assert_eq!(j.dropped(), 2);
    assert!(j.pop(0).is_none());
}

#[test]
fn game_returns_keyframe_first_then_newest_delta() {
    let mut j = JitterBuffer::new(Mode::Game, IV);
    j.push(f(1, 0, false), 0);
    j.push(f(2, IV, true), 0);
    j.push(f(3, 2 * IV, false), 0);
    j.push(f(4, 3 * IV, false), 0);
    assert_eq!(j.pop(0).unwrap().frame_number, 2);
    assert_eq!(j.dropped(), 1);
    assert_eq!(j.depth(), 2);
    assert_eq!(j.pop(0).unwrap().frame_number, 4);
    assert_eq!(j.dropped(), 1);
    assert!(j.pop(0).is_none());
}

#[test]
fn game_discards_frames_older_than_last_popped() {
    let mut j = JitterBuffer::new(Mode::Game, IV);
    j.push(f(5, 0, true), 0);
    j.pop(0);
    j.push(f(4, 0, false), 0);
    j.push(f(5, 0, false), 0);
    assert_eq!(j.depth(), 0);
    assert_eq!(j.dropped(), 2);
}

#[test]
fn quality_holds_frames_until_150ms_after_first_arrival() {
    let mut j = JitterBuffer::new(Mode::Quality, IV);
    j.push(f(1, 1_000_000, true), 0);
    j.push(f(2, 1_000_000 + IV, false), 0);
    assert!(j.pop(149_999).is_none());
    assert_eq!(j.pop(150_000).unwrap().frame_number, 1);
    assert!(j.pop(150_000 + IV - 1).is_none());
    assert_eq!(j.pop(150_000 + IV).unwrap().frame_number, 2);
}

#[test]
fn quality_skips_frame_more_than_one_interval_late_when_newer_is_due() {
    let mut j = JitterBuffer::new(Mode::Quality, IV);
    j.push(f(1, 0, true), 0);
    assert_eq!(j.pop(150_000).unwrap().frame_number, 1);
    j.push(f(2, IV, false), 150_000 + IV);
    j.push(f(3, 2 * IV, false), 150_000 + 2 * IV);
    let r = j.pop(150_000 + 3 * IV + 1).unwrap();
    assert_eq!(r.frame_number, 3);
    assert_eq!(j.dropped(), 1);
}

#[test]
fn quality_keeps_late_keyframe() {
    let mut j = JitterBuffer::new(Mode::Quality, IV);
    j.push(f(1, 0, true), 0);
    j.pop(150_000);
    j.push(f(2, IV, true), 150_000 + IV);
    j.push(f(3, 2 * IV, false), 150_000 + 2 * IV);
    let now = 150_000 + 3 * IV + 1;
    assert_eq!(j.pop(now).unwrap().frame_number, 2);
    assert_eq!(j.dropped(), 0);
    assert_eq!(j.pop(now).unwrap().frame_number, 3);
}

#[test]
fn quality_one_interval_late_is_not_skipped() {
    let mut j = JitterBuffer::new(Mode::Quality, IV);
    j.push(f(1, 0, true), 0);
    j.pop(150_000);
    j.push(f(2, IV, false), 150_000 + IV);
    j.push(f(3, 2 * IV, false), 150_000 + 2 * IV);
    assert_eq!(j.pop(150_000 + 2 * IV).unwrap().frame_number, 2);
    assert_eq!(j.dropped(), 0);
}

#[test]
fn set_mode_flushes_and_resets_base() {
    let mut j = JitterBuffer::new(Mode::Quality, IV);
    j.push(f(1, 0, true), 0);
    j.set_mode(Mode::Game);
    assert_eq!(j.depth(), 0);
    j.push(f(2, 0, true), 0);
    assert_eq!(j.pop(0).unwrap().frame_number, 2);
}

#[test]
fn wrapping_order_is_respected() {
    let mut j = JitterBuffer::new(Mode::Game, IV);
    j.push(f(u32::MAX, 0, false), 0);
    j.push(f(0, IV, false), 0);
    assert_eq!(j.pop(0).unwrap().frame_number, 0);
    assert_eq!(j.dropped(), 1);
}
