//! The decisions around a Media Foundation codec.
use castr::media::codec::{EncodedFrame, EncoderConfig, Mode, PixelFormat, RawFrame};
use castr::mf::attributes::{
    micros, output_step, pack, rate_control, sample_time, unpack, video_type, OutputStep,
    NEED_MORE_INPUT, RATE_CBR, RATE_UNCONSTRAINED_VBR, STREAM_CHANGE,
};
use castr::mf::decoder::{display_aperture, layout};
use castr::mf::encoder::{
    output_frame, EncoderFlow, FlowAction, FlowError, CAN_PROVIDE_SAMPLES, EVENT_HAVE_OUTPUT,
    EVENT_NEED_INPUT, LEAST_OUTPUT,
};
use castr::time::{Duration, Instant};

fn cfg() -> EncoderConfig {
    EncoderConfig {
        width: 640,
        height: 360,
        fps: 30,
        bitrate_bps: 2_000_000,
        mode: Mode::Game,
    }
}

fn unit(n: u8) -> EncodedFrame {
    EncodedFrame {
        data: vec![n],
        keyframe: n == 0,
        timestamp_us: n as u64,
    }
}

fn ms(n: u64) -> Instant {
    Instant { nanos: 0 }.after(Duration::from_millis(n))
}

fn done(a: FlowAction) -> Option<u8> {
    match a {
        FlowAction::Done(f) => f.map(|f| f.data[0]),
        other => panic!("{other:?}"),
    }
}

#[test]
fn attributes_read_back() {
    assert_eq!(pack(640, 360), 640 << 32 | 360);
    assert_eq!(unpack(pack(640, 360)), (640, 360));
    assert_eq!(unpack(pack(u32::MAX, 0)), (u32::MAX, 0));
    assert_eq!(sample_time(33_333), 333_330);
    assert_eq!(micros(sample_time(33_333)), 33_333);
    let t = video_type(true, 640, 360, 30, Some(5));
    assert_eq!(t.frame_size, pack(640, 360));
    assert_eq!(t.frame_rate, pack(30, 1));
    assert_eq!(t.pixel_aspect_ratio, pack(1, 1));
    assert_eq!((t.avg_bitrate, t.main_profile), (Some(5), true));
    assert!(!video_type(false, 640, 360, 30, None).main_profile);
}

#[test]
fn the_rate_is_steered_by_the_mode() {
    let game = rate_control(&cfg());
    assert_eq!((game.mode, game.gop, game.mean_bitrate), (RATE_CBR, 300, 2_000_000));
    let quality = rate_control(&EncoderConfig {
        mode: Mode::Quality,
        ..cfg()
    });
    assert_eq!((quality.mode, quality.gop), (RATE_UNCONSTRAINED_VBR, 60));
}

#[test]
fn errors_of_output_are_told_apart() {
    assert_eq!(output_step(None), OutputStep::Sample);
    assert_eq!(output_step(Some(NEED_MORE_INPUT)), OutputStep::NeedInput);
    assert_eq!(output_step(Some(STREAM_CHANGE)), OutputStep::StreamChange);
    assert_eq!(output_step(Some(0x8000_4005)), OutputStep::Failed);
}

#[test]
fn a_padded_surface_is_cut_to_the_visible_picture() {
    let l = layout(pack(4, 4), &[None, Some((2, 2))], 0, 0x100);
    assert_eq!((l.width, l.height, l.output_size, l.provides_samples), (2, 2, 24, true));
    let src: Vec<u8> = (0..24).collect();
    // Two rows of luma, then a row of chroma from below the coded luma.
    assert_eq!(l.surface_bytes(4), 18);
    assert_eq!(l.read_surface(&src, 4), vec![0, 1, 4, 5, 16, 17]);
    assert_eq!(l.read_buffer(&src), vec![0, 1, 4, 5, 16, 17]);
    // A buffer that does not hold the surface is not read.
    assert_eq!(l.read_buffer(&src[..20]), vec![0; 6]);
    let f = l.picture(vec![9; 6], Some(330), 5);
    assert_eq!((f.format, f.width, f.height), (PixelFormat::Nv12, 2, 2));
    assert_eq!(f.timestamp_us, 33);
    assert_eq!(l.picture(vec![9; 6], None, 5).timestamp_us, 5);
}

#[test]
fn an_unpadded_buffer_is_the_picture() {
    let l = layout(pack(2, 2), &[], 100, 0);
    assert_eq!((l.output_size, l.provides_samples), (100, false));
    assert_eq!(l.read_buffer(&[1, 2, 3, 4, 5, 6, 7]), vec![1, 2, 3, 4, 5, 6]);
    assert_eq!(l.read_buffer(&[1, 2, 3]), vec![1, 2, 3, 0, 0, 0]);
    assert_eq!(display_aperture(&[Some((0, 4)), Some((6, 4))]), Some((6, 4)));
    assert_eq!(display_aperture(&[Some((-1, 4)), None]), None);
}

#[test]
fn a_synchronous_encoder_is_fed_and_drained() {
    let mut f = EncoderFlow::new(cfg(), false, 0, 0);
    assert_eq!(f.sample_room(), Some(LEAST_OUTPUT));
    assert!(matches!(f.begin(ms(0)), FlowAction::Feed));
    assert!(matches!(f.on_fed(ms(0)), FlowAction::Take));
    assert!(matches!(f.on_taken(Some(unit(0)), ms(0)), FlowAction::Take));
    assert!(matches!(f.on_taken(Some(unit(1)), ms(0)), FlowAction::Take));
    assert_eq!(done(f.on_taken(None, ms(0))), Some(0));
    // What was held back comes first the next time.
    assert!(matches!(f.begin(ms(33)), FlowAction::Feed));
    assert!(matches!(f.on_fed(ms(33)), FlowAction::Take));
    assert!(matches!(f.on_taken(Some(unit(2)), ms(33)), FlowAction::Take));
    assert_eq!(done(f.on_taken(None, ms(33))), Some(1));
}

#[test]
fn an_event_driven_encoder_is_fed_when_it_asks() {
    let mut f = EncoderFlow::new(cfg(), true, 2_000_000, CAN_PROVIDE_SAMPLES);
    assert_eq!(f.sample_room(), None);
    assert!(matches!(f.begin(ms(0)), FlowAction::Poll));
    assert!(matches!(f.on_polled(None, ms(1)), FlowAction::Nap));
    assert!(matches!(f.on_polled(Some(EVENT_NEED_INPUT), ms(2)), FlowAction::Poll));
    assert!(matches!(f.on_polled(None, ms(5)), FlowAction::Feed));
    assert!(matches!(f.on_fed(ms(5)), FlowAction::Poll));
    assert!(matches!(f.on_polled(None, ms(100)), FlowAction::Nap));
    assert!(matches!(f.on_polled(Some(EVENT_HAVE_OUTPUT), ms(101)), FlowAction::Take));
    assert!(matches!(f.on_taken(Some(unit(0)), ms(102)), FlowAction::Poll));
    assert_eq!(done(f.on_polled(None, ms(102))), Some(0));
}

#[test]
fn a_stuck_encoder_is_given_up_on() {
    let mut f = EncoderFlow::new(cfg(), true, 0, 0);
    let mut a = f.begin(ms(0));
    let mut t = 0;
    while !matches!(a, FlowAction::Fail(_)) {
        t += 1;
        assert!(t < 250, "never gave up");
        a = f.on_polled(None, ms(t));
    }
    assert!(t >= 200);
    assert!(matches!(a, FlowAction::Fail(FlowError::Stuck)));
    assert_eq!(FlowError::Stuck.message(), "encoder never requested input");
}

#[test]
fn a_picture_of_the_wrong_kind_is_refused() {
    let mut f = EncoderFlow::new(cfg(), false, 0, 0);
    let mut frame = RawFrame {
        format: PixelFormat::Nv12,
        width: 640,
        height: 360,
        stride: 640,
        data: vec![0; 640 * 360 * 3 / 2],
        timestamp_us: 0,
    };
    assert_eq!(f.check(&frame), Ok(33_333));
    frame.format = PixelFormat::I420;
    assert_eq!(f.check(&frame), Err(FlowError::Format));
    frame.format = PixelFormat::Nv12;
    frame.height = 362;
    assert_eq!(f.check(&frame), Err(FlowError::Size));
    assert_eq!(FlowError::Format.message(), "MfEncoder expects NV12");
    assert_eq!(FlowError::Size.message(), "frame size mismatch");
    f.set_bitrate(900_000);
    let r = f.set_mode(Mode::Quality);
    assert_eq!((r.gop, r.mean_bitrate), (60, 900_000));
    assert_eq!(f.config().mode, Mode::Quality);
}

#[test]
fn an_empty_sample_is_no_unit() {
    assert!(output_frame(vec![], Some(1), Some(10)).is_none());
    let f = output_frame(vec![1, 2], Some(1), Some(330)).unwrap();
    assert_eq!((f.keyframe, f.timestamp_us), (true, 33));
    let f = output_frame(vec![1, 2], None, None).unwrap();
    assert_eq!((f.keyframe, f.timestamp_us), (false, 0));
}

#[test]
fn a_refused_picture_needs_no_frame_rate() {
    let none = EncoderConfig { fps: 0, ..cfg() };
    let f = EncoderFlow::new(none, false, 0, 0);
    let frame = RawFrame {
        format: PixelFormat::I420,
        width: 640,
        height: 360,
        stride: 640,
        data: Vec::new(),
        timestamp_us: 0,
    };
    assert_eq!(f.check(&frame), Err(FlowError::Format));
}

#[test]
fn quality_mode_counts_two_seconds() {
    let fast = EncoderConfig {
        fps: u32::MAX / 2,
        mode: Mode::Quality,
        ..cfg()
    };
    assert_eq!(rate_control(&fast).gop, u32::MAX - 1);
}
