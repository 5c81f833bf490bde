//! A session from the first byte to the last picture.
use castr::miracast::test_support;
use castr::miracast::session::{Session, SinkEvent};
use castr::miracast::wfd::{AudioCodecs, Capabilities, ClientPorts, VideoFormats};
use castr::time::{Clock, Duration, Instant};

fn now() -> Instant {
    Clock::start().now()
}

fn caps() -> Capabilities {
    Capabilities {
        video: VideoFormats::only_720p30(),
        audio: AudioCodecs::lpcm_48k_stereo(),
        ports: ClientPorts { rtp_port: 5000 },
        max_bitrate_kbps: 8000,
        latency_management: true,
        format_change: true,
    }
}

fn sess() -> Session {
    Session::new(caps(), "01234567".into())
}

fn sent(events: &[SinkEvent]) -> Vec<String> {
    events
        .iter()
        .filter_map(|e| match e {
            SinkEvent::SendRtsp(s) => Some(s.clone()),
            _ => None,
        })
        .collect()
}

fn drive_to_playing(s: &mut Session) {
    for msg in test_support::negotiation_to_playing() {
        s.on_rtsp_bytes(msg.as_bytes(), &Clock::start());
    }
}

#[test]
fn rtsp_bytes_arriving_in_pieces_are_answered_once_complete() {
    let mut s = sess();
    let m1 = b"OPTIONS * RTSP/1.0\r\nCSeq: 1\r\nRequire: org.wfa.wfd1.0\r\n\r\n";
    assert!(
        s.on_rtsp_bytes(&m1[..12], &Clock::start()).is_empty(),
        "partial message waits"
    );
    let out = s.on_rtsp_bytes(&m1[12..], &Clock::start());
    assert_eq!(sent(&out).len(), 2, "the M1 answer and our M2");
}

#[test]
fn two_messages_in_one_read_are_both_handled() {
    let mut s = sess();
    let mut buf = b"OPTIONS * RTSP/1.0\r\nCSeq: 1\r\n\r\n".to_vec();
    buf.extend_from_slice(
        b"GET_PARAMETER rtsp://x RTSP/1.0\r\nCSeq: 2\r\nContent-Length: 19\r\n\r\nwfd_video_formats\r\n",
    );
    let out = s.on_rtsp_bytes(&buf, &Clock::start());
    let msgs = sent(&out);
    assert_eq!(msgs.len(), 3, "M1 answer, M2, M3 answer");
    assert!(msgs[2].contains("wfd_video_formats: 40 00 02 04 00000020"));
}

#[test]
fn a_video_unit_reaches_the_caller_as_an_event() {
    let mut s = sess();
    drive_to_playing(&mut s);
    let mut got = None;
    for datagram in test_support::recorded_stream(4) {
        for e in s.on_rtp_datagram(&datagram, &Clock::start()) {
            if let SinkEvent::Video { data, .. } = e {
                got = Some(data);
                break;
            }
        }
        if got.is_some() {
            break;
        }
    }
    let data = got.expect("no video unit was emitted");
    assert!(data.starts_with(&[0, 0, 0, 1]), "Annex B access unit");
}

#[test]
fn a_decode_error_asks_the_source_for_a_keyframe_at_most_twice_a_second() {
    let mut s = sess();
    drive_to_playing(&mut s);
    let t0 = now();
    let first = s.note_decode_error(t0);
    assert!(
        sent(&first)[0].contains("wfd_idr_request"),
        "{:?}",
        sent(&first)
    );
    assert!(sent(&s.note_decode_error(t0.after(Duration::from_millis(100)))).is_empty());
    assert!(!sent(&s.note_decode_error(t0.after(Duration::from_millis(700)))).is_empty());
}

#[test]
fn silence_ends_the_session_with_a_reason() {
    let mut s = sess();
    drive_to_playing(&mut s);
    let out = s.tick(now().after(Duration::from_secs(120)));
    assert!(
        out.iter().any(|e| matches!(e, SinkEvent::Ended(_))),
        "{out:?}"
    );
}

#[test]
fn media_before_play_is_ignored() {
    let mut s = sess();
    let mut rtp = vec![0x80, 33, 0, 1, 0, 0, 0, 0, 0, 0, 0, 0];
    rtp.extend_from_slice(&[0x47; 188]);
    assert!(s.on_rtp_datagram(&rtp, &Clock::start()).is_empty());
}

#[test]
fn a_malformed_rtsp_message_ends_the_session_rather_than_looping() {
    let mut s = sess();
    let out = s.on_rtsp_bytes(b"GARBAGE\r\n\r\n", &Clock::start());
    assert!(
        out.iter().any(|e| matches!(e, SinkEvent::Ended(_))),
        "{out:?}"
    );
}
