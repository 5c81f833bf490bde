//! Whole streams and exchanges, from one end to the other.
use castr::media::jitter::JitterBuffer;
use castr::miracast::pairing::{is_valid, pin_from};
use castr::miracast::rtp::{Packet, Reorder};
use castr::miracast::rtsp::{request, response, Action, Message, StartLine, VideoMode};
use castr::miracast::source::caps::our_modes;
use castr::miracast::source::lpcm::{payload, SAMPLES_PER_FRAME};
use castr::miracast::source::session::{SourceConfig, SourceSession};
use castr::miracast::source::ts_mux::{Muxer, AUDIO_PID, PMT_PID, VIDEO_PID};
use castr::miracast::ts::{Demux, Unit, PACKET_LEN};
use castr::proto::{CompleteFrame, Mode};
use castr::time::{Clock, Duration};

fn started() -> SourceSession {
    let mut s = SourceSession::new(SourceConfig::default());
    s.start();
    s
}

fn set(body: &str) -> Vec<Action> {
    let m = request("SET_PARAMETER", "rtsp://x/wfd1.0/streamid=0", 4, body);
    started().on_message(&m, &Clock::start())
}

fn answered(a: &Action) -> bool {
    matches!(a, Action::Send(m) if matches!(m.start, StartLine::Response { status: 200, .. }))
}

#[test]
fn a_display_that_asks_for_less_gets_less() {
    let acts = set("microsoft_max_bitrate: 2000\r\n");
    assert_eq!(acts.len(), 2);
    assert!(answered(&acts[0]));
    assert!(matches!(acts[1], Action::Bitrate(2000)));
}

#[test]
fn a_keyframe_and_a_ceiling_in_one_body_both_come() {
    let acts = set("wfd_idr_request\r\nmicrosoft_max_bitrate: 1500\r\n");
    assert_eq!(acts.len(), 3);
    assert!(answered(&acts[0]));
    assert!(matches!(acts[1], Action::Keyframe));
    assert!(matches!(acts[2], Action::Bitrate(1500)));
}

#[test]
fn a_ceiling_that_is_no_number_is_no_ceiling() {
    let acts = set("microsoft_max_bitrate: plenty\r\n");
    assert_eq!(acts.len(), 1);
    assert!(answered(&acts[0]));
}

#[test]
fn a_ceiling_is_only_set_by_set_parameter() {
    let m = request("GET_PARAMETER", "*", 4, "microsoft_max_bitrate: 2000\r\n");
    let acts = started().on_message(&m, &Clock::start());
    assert_eq!(acts.len(), 1);
}

fn question(m: &Message) -> bool {
    matches!(&m.start, StartLine::Request { method, .. } if method == "GET_PARAMETER")
        && m.body.contains("wfd_video_formats")
}

fn asks(acts: &[Action]) -> usize {
    acts.iter()
        .filter(|a| matches!(a, Action::Send(m) if question(m)))
        .count()
}

#[test]
fn over_an_exchange_the_question_comes_once() {
    let t0 = Clock::start().now();
    let at = |ms: u64| t0.after(Duration::from_millis(ms));
    let options = request("OPTIONS", "*", 1, "");
    let mut s = started();
    // Too early: nothing has been accepted yet.
    assert_eq!(asks(&s.on_message_at(&options, at(0))), 0);
    assert_eq!(asks(&s.tick(at(5_000))), 0);
    assert_eq!(asks(&s.on_message_at(&response(200, 1, ""), at(5_100))), 0);
    let acts = s.on_message_at(&options, at(5_200));
    assert_eq!(acts.len(), 2);
    assert!(answered(&acts[0]));
    assert_eq!(asks(&acts), 1);
    assert_eq!(asks(&s.on_message_at(&options, at(5_300))), 0);
    assert_eq!(asks(&s.tick(at(60_000))), 0);
}

fn demuxed(d: &mut Demux, bytes: &[u8]) -> Vec<Unit> {
    let mut units = Vec::new();
    for p in bytes.chunks(PACKET_LEN) {
        units.extend(d.push(p));
    }
    units
}

#[test]
fn many_access_units_come_out_in_order() {
    let mut m = Muxer::new();
    let mut d = Demux::new();
    let mut units = Vec::new();
    for n in 0..50u8 {
        let au = vec![n; 1 + 37 * n as usize];
        units.extend(demuxed(&mut d, &m.push_video(&au, 1_001 * u64::from(n))));
    }
    assert_eq!(units.len(), 49);
    for (n, u) in units.iter().enumerate() {
        let pts = (1_001 * n as u64 * 9 / 100) * 100 / 9;
        assert_eq!(
            *u,
            Unit::Video {
                data: vec![n as u8; 1 + 37 * n],
                pts_us: Some(pts)
            }
        );
    }
    let stats = d.stats();
    assert_eq!(stats.continuity_errors, 0);
    assert_eq!(stats.video_pid, Some(VIDEO_PID));
    assert_eq!(stats.audio_pid, Some(AUDIO_PID));
}

fn pids(bytes: &[u8]) -> Vec<u16> {
    bytes
        .chunks(PACKET_LEN)
        .map(|p| u16::from(p[1] & 0x1f) * 256 + u16::from(p[2]))
        .collect()
}

#[test]
fn tables_open_a_buffer_when_they_are_due() {
    let mut m = Muxer::new();
    assert_eq!(pids(&m.push_video(&[1], 0)), vec![0, PMT_PID, VIDEO_PID]);
    for _ in 1..40 {
        assert_eq!(pids(&m.push_video(&[1], 0)), vec![VIDEO_PID]);
    }
    assert_eq!(pids(&m.push_video(&[1], 0)), vec![0, PMT_PID, VIDEO_PID]);
    m.set_h264_format(2, 4);
    assert_eq!(pids(&m.push_video(&[1], 0)), vec![0, PMT_PID, VIDEO_PID]);
    // Audio that fills no frame sends nothing, so nothing is due after it.
    assert!(m.push_audio(&[0; 10], 0).is_empty());
    assert_eq!(pids(&m.push_video(&[1], 0)), vec![VIDEO_PID]);
}

#[test]
fn a_unit_is_split_into_counted_packets() {
    let mut m = Muxer::new();
    m.push_video(&[1], 0);
    let au: Vec<u8> = (0..4_000u32).map(|i| (i % 251) as u8).collect();
    let out = m.push_video(&au, 0);
    let mut joined = Vec::new();
    for (i, p) in out.chunks(PACKET_LEN).enumerate() {
        assert_eq!(p[0], 0x47);
        assert_eq!(p[1] & 0x40 != 0, i == 0);
        assert_eq!(usize::from(p[3] & 0x0f), (1 + i) % 16);
        let start = if p[3] & 0x20 != 0 {
            5 + usize::from(p[4])
        } else {
            4
        };
        joined.extend_from_slice(&p[start..]);
    }
    // A PES header of fourteen bytes, and then the unit.
    assert_eq!(&joined[14..], &au[..]);
}

fn sound(cuts: &[usize], samples: &[i16]) -> (usize, Vec<u8>) {
    let mut m = Muxer::new();
    let mut d = Demux::new();
    let mut units = Vec::new();
    let mut from = 0;
    for n in cuts {
        units.extend(demuxed(&mut d, &m.push_audio(&samples[from..from + n], 0)));
        from += n;
    }
    let mut bytes = Vec::new();
    for u in &units {
        match u {
            Unit::Audio { data, .. } => bytes.extend_from_slice(payload(data)),
            Unit::Video { .. } => panic!("no picture was sent"),
        }
    }
    (units.len(), bytes)
}

#[test]
fn the_cut_of_samples_is_not_heard() {
    let n = 3 * SAMPLES_PER_FRAME + 100;
    let samples: Vec<i16> = (0..n).map(|i| (i as i16).wrapping_mul(7)).collect();
    let whole = sound(&[n], &samples);
    assert_eq!(whole.0, 3);
    let mut want = Vec::new();
    for s in &samples[..3 * SAMPLES_PER_FRAME] {
        want.extend_from_slice(&s.to_be_bytes());
    }
    assert_eq!(whole.1, want);
    assert_eq!(sound(&[1, 958, 1, 0, 1_500, n - 2_460], &samples), whole);
}

#[test]
fn both_ways_to_lean_propose_the_same_modes() {
    let key = |m: &VideoMode| (m.width, m.height, m.fps);
    let mut quality: Vec<_> = our_modes(Mode::Quality, None).iter().map(key).collect();
    let mut game: Vec<_> = our_modes(Mode::Game, None).iter().map(key).collect();
    assert_ne!(quality, game);
    quality.sort();
    game.sort();
    assert_eq!(quality, game);
    quality.dedup();
    assert_eq!(quality.len(), 13);
}

fn pkt(sequence: u16) -> Packet {
    Packet {
        sequence,
        timestamp: 0,
        payload_type: 33,
        payload: vec![sequence as u8],
    }
}

#[test]
fn a_stream_is_put_in_order_round_the_end_of_the_numbers() {
    let mut r = Reorder::new(2);
    let mut out = Vec::new();
    for n in [65_533, 65_535, 65_534, 1, 65_535, 0, 5, 4, 7, 65_533] {
        out.extend(r.push(pkt(n)));
    }
    let got: Vec<u16> = out.iter().map(|p| p.sequence).collect();
    assert_eq!(got, vec![65_533, 65_534, 65_535, 0, 1, 4, 5]);
    // Two and three are missing, and seven still waits for six.
    assert_eq!(r.lost(), 2);
    let rest: Vec<u16> = r.flush().iter().map(|p| p.sequence).collect();
    assert_eq!(rest, vec![7]);
    assert_eq!(r.lost(), 2);
    assert!(r.flush().is_empty());
    assert!(r.push(pkt(7)).is_empty());
}

#[test]
fn no_other_last_digit_is_taken() {
    for entropy in [0, 1, 42, 1_234_567, 8_765_432, 9_999_999, u32::MAX] {
        let pin = pin_from(entropy);
        assert_eq!(pin[..7], format!("{:07}", entropy % 10_000_000));
        let right = (0..10)
            .filter(|d| is_valid(&format!("{}{d}", &pin[..7])))
            .count();
        assert_eq!(right, 1);
        assert!(is_valid(&pin));
    }
}

#[test]
fn frames_come_out_newer_and_newer() {
    let mut j = JitterBuffer::new(Mode::Game, 16_667);
    let mut last: Option<u32> = None;
    for (i, n) in [u32::MAX - 1, 1, 0, u32::MAX, 3, 2, 9, 4].into_iter().enumerate() {
        j.push(
            CompleteFrame {
                stream: 0,
                frame_number: n,
                timestamp_us: 0,
                keyframe: n == 3,
                data: Vec::new(),
            },
            0,
        );
        if i % 2 == 0 {
            continue;
        }
        if let Some(f) = j.pop(0) {
            if let Some(l) = last {
                assert!(f.frame_number != l && f.frame_number.wrapping_sub(l) < 0x8000_0000);
            }
            last = Some(f.frame_number);
        }
    }
    assert_eq!(last, Some(9));
}

#[test]
fn game_mode_keeps_exactly_what_is_newer() {
    let frame = |n: u32, keyframe: bool| CompleteFrame {
        stream: 0,
        frame_number: n,
        timestamp_us: 0,
        keyframe,
        data: Vec::new(),
    };
    let mut j = JitterBuffer::new(Mode::Game, 16_667);
    assert!(j.pop(0).is_none());
    for (n, key) in [(5, false), (2, true), (4, true), (6, false), (3, false)] {
        j.push(frame(n, key), 0);
    }
    assert_eq!(j.pop(0).map(|f| f.frame_number), Some(4));
    assert_eq!((j.depth(), j.dropped()), (2, 2));
    assert_eq!(j.pop(0).map(|f| f.frame_number), Some(6));
    assert_eq!((j.depth(), j.dropped()), (0, 1));
}
