//! What holds of every picture, frame and rate, on concrete values.
use castr::media::bitrate::{BitrateController, Resolution, MIN_BITRATE};
use castr::media::clock::AvClock;
use castr::media::codec::{EncoderConfig, PixelFormat, RawFrame};
use castr::media::crop::{crop_nv12, fits_in};
use castr::media::jitter::JitterBuffer;
use castr::media::sw::{
    answer, coded_frame, settings, Content, FrameKind, Planes, Settings, Steering, SwDecoder,
    SwEncoder, SwError,
};
use castr::proto::{CompleteFrame, Mode, Stats};

const NATIVE: Resolution = Resolution {
    width: 1920,
    height: 1080,
};

fn stats(lost: u32, received: u32, queue: u32) -> Stats {
    Stats {
        frames_received: 3,
        frames_dropped: 0,
        fragments_lost: lost,
        fragments_received: received,
        decode_queue_depth: queue,
        interval_ms: 100,
    }
}

#[test]
fn cuts_are_what_floating_point_gives() {
    for start in [
        1_428_571u32, 1_428_572, 1_999_999, 3_333_333, 4_999_990, 7_777_777, 123_456_789,
        2_147_483_647, 2_147_483_648, 4_000_000_001, 4_294_967_295,
    ] {
        let mut c = BitrateController::new(u32::MAX, start, NATIVE, Mode::Game);
        let d = c.on_stats(&stats(3, 97, 0), 0).unwrap();
        assert_eq!(d.bitrate_bps, ((start as f64 * 0.7) as u32).max(MIN_BITRATE));
        let mut c = BitrateController::new(u32::MAX, start, NATIVE, Mode::Game);
        let d = c.on_stats(&stats(0, 100, 4), 0).unwrap();
        assert_eq!(d.bitrate_bps, ((start as f64 * 0.85) as u32).max(MIN_BITRATE));
    }
}

#[test]
fn the_thresholds_are_what_floating_point_gives() {
    for (lost, received) in [
        (1u32, 49u32), (2, 98), (20, 980), (21, 979), (1, 199), (5, 995), (4, 996), (0, 0), (1, 0),
        (u32::MAX / 50, u32::MAX - u32::MAX / 50),
    ] {
        let total = lost + received;
        let loss = if total == 0 { 0.0 } else { lost as f64 / total as f64 };
        let mut c = BitrateController::new(10_000_000, 5_000_000, NATIVE, Mode::Game);
        let cut = c.on_stats(&stats(lost, received, 0), 0).is_some();
        assert_eq!(cut, loss > 0.02, "{lost}/{total}");
        // A clean second raises the rate.
        let mut c = BitrateController::new(10_000_000, 5_000_000, NATIVE, Mode::Quality);
        c.on_stats(&stats(lost, received, 0), 0);
        let raised = c
            .on_stats(&stats(lost, received, 0), 1_000_000)
            .is_some_and(|d| d.bitrate_bps > 5_000_000);
        assert_eq!(raised, loss < 0.005, "{lost}/{total}");
    }
}

#[test]
fn presented_time_never_goes_back() {
    let mut c = AvClock::new();
    assert_eq!(c.presented_ts(5), None);
    c.audio_played(1_000_000, 50_000);
    let mut last = 0;
    for now in (50_000..400_000).step_by(10_000) {
        let t = c.presented_ts(now).unwrap();
        assert!(t >= last);
        last = t;
    }
    assert!(c.audio_stale(250_001 + 50_000));
}

fn frame(n: u32, keyframe: bool) -> CompleteFrame {
    CompleteFrame {
        stream: 0,
        frame_number: n,
        timestamp_us: n as u64 * 33_333,
        keyframe,
        data: vec![n as u8],
    }
}

#[test]
fn a_keyframe_is_never_skipped_for_a_delta() {
    let mut j = JitterBuffer::new(Mode::Game, 33_333);
    j.push(frame(1, true), 0);
    assert_eq!(j.pop(0).unwrap().frame_number, 1);
    j.push(frame(5, true), 1_000);
    j.push(frame(6, false), 2_000);
    let f = j.pop(1_000_000).unwrap();
    assert!(f.keyframe || f.frame_number != 6);
    // What is older than what was popped is not taken in.
    let before = j.depth();
    j.push(frame(1, false), 3_000);
    assert_eq!(j.depth(), before);
    assert!(j.dropped() >= 1);
}

#[test]
fn a_crop_that_does_not_fit_is_seen() {
    assert!(fits_in(640 * 368 * 3 / 2, 640, 368, 8, 4, 624, 352));
    assert!(!fits_in(640 * 368, 640, 368, 8, 4, 624, 352));
    assert!(!fits_in(640 * 368 * 3 / 2, 640, 368, 32, 4, 624, 352));
    let src: Vec<u8> = (0..24).collect();
    assert_eq!(crop_nv12(&src, 4, 4, 2, 2, 2, 2), vec![10, 11, 14, 15, 22, 23]);
}

fn cfg() -> EncoderConfig {
    EncoderConfig {
        width: 64,
        height: 48,
        fps: 30,
        bitrate_bps: 500_000,
        mode: Mode::Game,
    }
}

fn i420(width: u32, height: u32) -> RawFrame {
    RawFrame {
        format: PixelFormat::I420,
        width,
        height,
        stride: width,
        data: vec![128; (width * height * 3 / 2) as usize],
        timestamp_us: 9,
    }
}

#[test]
fn the_encoder_refuses_what_it_was_not_made_for() {
    let mut e = SwEncoder::new(cfg()).unwrap();
    let mut f = i420(64, 48);
    f.format = PixelFormat::Nv12;
    assert_eq!(e.encode(&f).unwrap_err(), SwError::Format);
    assert_eq!(e.encode(&i420(32, 48)).unwrap_err(), SwError::Size);
    let unit = e.encode(&i420(64, 48)).unwrap().unwrap();
    assert!(unit.keyframe);
    assert_eq!(unit.timestamp_us, 9);
    assert_eq!(e.input_format(), PixelFormat::I420);
    assert!(!e.name().is_empty());
    // Changing the mode starts the stream over.
    e.set_mode(Mode::Quality).unwrap();
    assert!(e.encode(&i420(64, 48)).unwrap().unwrap().keyframe);
    let mut d = SwDecoder::new().unwrap();
    let back = d.decode(&unit.data, 31).unwrap().unwrap();
    assert_eq!((back.width, back.height, back.timestamp_us), (64, 48, 31));
    assert_eq!(back.data.len(), 64 * 48 * 3 / 2);
}

#[test]
fn a_skipped_picture_has_no_unit() {
    assert!(coded_frame(vec![], FrameKind::Skip, 1).is_none());
    let key = coded_frame(vec![1], FrameKind::Idr, 7).unwrap();
    assert_eq!((key.keyframe, key.timestamp_us), (true, 7));
    assert!(!coded_frame(vec![1], FrameKind::P, 7).unwrap().keyframe);
}

#[test]
fn planes_are_packed_without_slack() {
    let p = Planes {
        width: 2,
        height: 2,
        y_stride: 3,
        u_stride: 2,
        v_stride: 2,
        y: vec![1, 2, 99, 3, 4, 99],
        u: vec![5, 99],
        v: vec![6, 99],
    };
    let f = p.pack(8).unwrap();
    assert_eq!(f.data, vec![1, 2, 3, 4, 5, 6]);
    assert_eq!((f.format, f.stride, f.timestamp_us), (PixelFormat::I420, 2, 8));
    // Planes that do not hold the picture are not read.
    let short = Planes { y: vec![1, 2], ..p };
    assert!(short.pack(8).is_none());
}

#[test]
fn every_answer_of_the_native_decoder_is_passed_on() {
    let p = Planes {
        width: 2,
        height: 2,
        y_stride: 2,
        u_stride: 1,
        v_stride: 1,
        y: vec![1, 2, 3, 4],
        u: vec![5],
        v: vec![6],
    };
    let short = Planes { v: Vec::new(), ..p.clone() };
    let f = answer(Ok(Some(p)), 9).unwrap().unwrap();
    assert_eq!((f.data, f.timestamp_us), (vec![1, 2, 3, 4, 5, 6], 9));
    assert!(answer(Ok(None), 9).unwrap().is_none());
    assert!(matches!(answer(Ok(Some(short)), 9), Err(SwError::Planes)));
    let failure = openh264::Error::msg("corrupt");
    assert!(matches!(answer(Err(failure), 9), Err(SwError::Decode)));
}

#[test]
fn the_codec_errors_in_words() {
    for (e, words) in [
        (SwError::Format, "SwEncoder expects I420"),
        (SwError::Size, "frame size mismatch"),
        (SwError::EncoderInit, "openh264 encoder init"),
        (SwError::Encode, "openh264 encode"),
        (SwError::DecoderInit, "openh264 decoder init"),
        (SwError::Decode, "openh264 decode"),
        (SwError::Planes, "openh264 picture"),
    ] {
        assert_eq!(e.message(), words);
    }
}

#[test]
fn an_encoder_is_made_for_the_screen_at_its_bit_rate() {
    assert_eq!(
        settings(&cfg()),
        Settings {
            content: Content::Screen,
            steering: Steering::Bitrate,
            bitrate_bps: 500_000,
            max_fps: 30,
            skip_frames: false,
        }
    );
}
