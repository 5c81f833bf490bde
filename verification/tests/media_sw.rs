//! The software codec.
use castr::media::convert::convert;
use castr::media::sw::{SwDecoder, SwEncoder};
use castr::media::codec::{EncoderConfig, Mode, PixelFormat, RawFrame};

fn cfg() -> EncoderConfig {
    EncoderConfig {
        width: 320,
        height: 240,
        fps: 30,
        bitrate_bps: 800_000,
        mode: Mode::Game,
    }
}

fn gradient_frame(i: u32) -> RawFrame {
    let (w, h) = (320u32, 240u32);
    let mut data = Vec::with_capacity((w * h * 4) as usize);
    for y in 0..h {
        for x in 0..w {
            data.extend_from_slice(&[
                ((x + i * 3) % 256) as u8,
                (y % 256) as u8,
                ((x + y) % 256) as u8,
                255,
            ]);
        }
    }
    convert(
        &RawFrame {
            format: PixelFormat::Bgra,
            width: w,
            height: h,
            stride: w * 4,
            data,
            timestamp_us: i as u64 * 33_333,
        },
        PixelFormat::I420,
    )
}

#[test]
fn first_frame_is_keyframe_and_round_trips() {
    let mut enc = SwEncoder::new(cfg()).unwrap();
    let mut dec = SwDecoder::new().unwrap();
    assert_eq!(enc.input_format(), PixelFormat::I420);
    let f0 = gradient_frame(0);
    let e0 = enc
        .encode(&f0)
        .unwrap()
        .expect("encoder must emit first frame");
    assert!(e0.keyframe);
    assert_eq!(e0.timestamp_us, 0);
    assert!(
        e0.data.starts_with(&[0, 0, 0, 1]) || e0.data.starts_with(&[0, 0, 1]),
        "Annex B start code"
    );
    let d0 = dec
        .decode(&e0.data, e0.timestamp_us)
        .unwrap()
        .expect("decoder must output first frame");
    assert_eq!(
        (d0.width, d0.height, d0.format),
        (320, 240, PixelFormat::I420)
    );
    assert_eq!(d0.data.len(), 320 * 240 * 3 / 2);
    assert_eq!(d0.timestamp_us, 0);
    let mean_diff: f64 = d0.data[..320 * 240]
        .iter()
        .zip(&f0.data[..320 * 240])
        .map(|(a, b)| (*a as f64 - *b as f64).abs())
        .sum::<f64>()
        / (320.0 * 240.0);
    assert!(mean_diff < 8.0, "luma mean abs diff {mean_diff}");
}

#[test]
fn delta_frames_follow_and_keyframe_request_is_honored() {
    let mut enc = SwEncoder::new(cfg()).unwrap();
    let mut dec = SwDecoder::new().unwrap();
    let mut keyframes = 0;
    for i in 0..10 {
        if i == 5 {
            enc.request_keyframe();
        }
        let e = enc.encode(&gradient_frame(i)).unwrap().unwrap();
        if e.keyframe {
            keyframes += 1;
        }
        assert!(dec.decode(&e.data, e.timestamp_us).unwrap().is_some());
    }
    assert!(
        keyframes >= 2,
        "expected initial + requested keyframe, got {keyframes}"
    );
}

#[test]
fn set_bitrate_forces_keyframe() {
    let mut enc = SwEncoder::new(cfg()).unwrap();
    enc.encode(&gradient_frame(0)).unwrap();
    let e1 = enc.encode(&gradient_frame(1)).unwrap().unwrap();
    assert!(!e1.keyframe);
    enc.set_bitrate(400_000).unwrap();
    let e2 = enc.encode(&gradient_frame(2)).unwrap().unwrap();
    assert!(e2.keyframe);
}

#[test]
fn decoder_returns_none_on_garbage_without_panicking() {
    let mut dec = SwDecoder::new().unwrap();
    let r = dec.decode(&[0, 0, 0, 1, 0x65, 1, 2, 3], 0);
    assert!(r.is_err() || r.unwrap().is_none());
}
