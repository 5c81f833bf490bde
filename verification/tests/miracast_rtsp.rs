//! RTSP messages and the negotiation.
use castr::miracast::test_support;
use castr::miracast::rtsp::{Action, Message, NegState, Negotiation, StartLine, VideoMode, parse, request, response};
use castr::miracast::wfd::{AudioCodecs, Capabilities, ClientPorts, VideoFormats};
use castr::time::{Clock, Duration, Instant};

fn now() -> Instant {
    Clock::start().now()
}

    const M1: &[u8] = b"OPTIONS * RTSP/1.0\r\nCSeq: 1\r\nRequire: org.wfa.wfd1.0\r\n\r\n";

    const M3: &[u8] = b"GET_PARAMETER rtsp://localhost/wfd1.0 RTSP/1.0\r\n\
CSeq: 2\r\n\
Content-Type: text/parameters\r\n\
Content-Length: 59\r\n\
\r\n\
wfd_video_formats\r\nwfd_audio_codecs\r\nwfd_client_rtp_ports\r\n";

    #[test]
    fn a_request_without_a_body_parses_whole() {
        let (m, used) = parse(M1).unwrap().unwrap();
        assert_eq!(used, M1.len());
        match &m.start {
            StartLine::Request { method, uri } => {
                assert_eq!(method, "OPTIONS");
                assert_eq!(uri, "*");
            }
            other => panic!("{other:?}"),
        }
        assert_eq!(m.cseq(), Some(1));
        assert_eq!(m.header("require"), Some("org.wfa.wfd1.0"));
        assert!(m.body.is_empty());
    }

    #[test]
    fn header_lookup_ignores_case() {
        let (m, _) = parse(M1).unwrap().unwrap();
        assert_eq!(m.header("CSeq"), m.header("cseq"));
    }

    #[test]
    fn a_body_is_read_by_content_length() {
        let (m, used) = parse(M3).unwrap().unwrap();
        assert_eq!(used, M3.len());
        assert_eq!(m.body.len(), 59);
        assert!(m.body.starts_with("wfd_video_formats"));
    }

    #[test]
    fn an_incomplete_message_asks_for_more() {
        assert!(parse(&M1[..10]).unwrap().is_none());
        // Headers complete, body short.
        let cut = M3.len() - 5;
        assert!(parse(&M3[..cut]).unwrap().is_none());
    }

    #[test]
    fn two_messages_in_one_buffer_are_returned_one_at_a_time() {
        let mut buf = M1.to_vec();
        buf.extend_from_slice(M1);
        let (_, used) = parse(&buf).unwrap().unwrap();
        assert_eq!(used, M1.len());
        let (m2, used2) = parse(&buf[used..]).unwrap().unwrap();
        assert_eq!(used2, M1.len());
        assert_eq!(m2.cseq(), Some(1));
    }

    #[test]
    fn a_response_start_line_parses() {
        let raw = b"RTSP/1.0 200 OK\r\nCSeq: 2\r\n\r\n";
        let (m, _) = parse(raw).unwrap().unwrap();
        match &m.start {
            StartLine::Response { status, reason } => {
                assert_eq!(*status, 200);
                assert_eq!(reason, "OK");
            }
            other => panic!("{other:?}"),
        }
    }

    #[test]
    fn a_malformed_start_line_is_an_error_not_a_hang() {
        let raw = b"GARBAGE\r\n\r\n";
        assert!(parse(raw).is_err());
    }

    #[test]
    fn a_response_formats_with_content_length_and_crlf() {
        let m = response(200, 7, "wfd_video_formats: 40\r\n");
        let s = m.format();
        assert!(s.starts_with("RTSP/1.0 200 OK\r\nCSeq: 7\r\n"));
        assert!(s.contains("Content-Type: text/parameters\r\n"));
        assert!(s.contains("Content-Length: 23\r\n"));
        assert!(s.ends_with("\r\n\r\nwfd_video_formats: 40\r\n"));
    }

    #[test]
    fn an_empty_response_carries_no_content_headers() {
        let s = response(200, 3, "").format();
        assert!(!s.contains("Content-Length"), "{s}");
        assert!(s.ends_with("\r\n\r\n"));
    }

    #[test]
    fn a_request_formats_with_its_uri_and_body() {
        let s = request(
            "SET_PARAMETER",
            "rtsp://192.168.173.2/wfd1.0",
            9,
            "wfd_idr_request\r\n",
        )
        .format();
        assert!(s.starts_with("SET_PARAMETER rtsp://192.168.173.2/wfd1.0 RTSP/1.0\r\n"));
        assert!(s.contains("CSeq: 9\r\n"));
        assert!(s.ends_with("wfd_idr_request\r\n"));
    }

    #[test]
    fn a_formatted_message_parses_back_identically() {
        let m = response(200, 42, "wfd_audio_codecs: LPCM 00000002 00\r\n");
        let text = m.format();
        let (back, used) = parse(text.as_bytes()).unwrap().unwrap();
        assert_eq!(used, text.len());
        assert_eq!(back.cseq(), Some(42));
        assert_eq!(back.body, m.body);
    }

fn caps() -> Capabilities {
    Capabilities {
        video: VideoFormats::only_720p30(),
        audio: AudioCodecs::lpcm_48k_stereo(),
        ports: ClientPorts { rtp_port: 5000 },
        max_bitrate_kbps: 8000,
        latency_management: true,
        format_change: true,
    }
}

fn neg() -> Negotiation {
    Negotiation::new(caps(), "01234567".into())
}

fn req(method: &str, cseq: u32, body: &str) -> Message {
    request(method, "rtsp://localhost/wfd1.0", cseq, body)
}

fn sent(actions: &[Action]) -> Vec<String> {
    actions
        .iter()
        .filter_map(|a| match a {
            Action::Send(m) => Some(m.format()),
            _ => None,
        })
        .collect()
}

/// Drives the exchange to the point just before the SETUP trigger, so the
/// later tests do not each repeat it.
fn to_ready(n: &mut Negotiation, t: Instant) {
    n.on_message_at(&req("OPTIONS", 1, ""), t);
    n.on_message_at(&req("GET_PARAMETER", 2, "wfd_video_formats\r\n"), t);
    n.on_message_at(
        &req(
            "SET_PARAMETER",
            3,
            "wfd_video_formats: 00 00 02 04 00000020 00000000 00000000 00 0000 0000 00 none none\r\n\
             wfd_presentation_URL: rtsp://192.168.173.1/wfd1.0/streamid=0 none\r\n",
        ),
        t,
    );
}

#[test]
fn m1_options_is_answered_with_our_methods_and_then_we_ask_theirs() {
    let mut n = neg();
    let out = n.on_message(&req("OPTIONS", 1, ""), &Clock::start());
    let msgs = sent(&out);
    assert_eq!(msgs.len(), 2, "answer M1 and send M2");
    assert!(msgs[0].starts_with("RTSP/1.0 200 OK\r\nCSeq: 1\r\n"));
    assert!(msgs[0].contains(
        "Public: org.wfa.wfd1.0, SETUP, TEARDOWN, PLAY, PAUSE, GET_PARAMETER, SET_PARAMETER"
    ));
    assert!(msgs[1].starts_with("OPTIONS * RTSP/1.0\r\n"), "{}", msgs[1]);
    assert_eq!(n.state(), NegState::Init);
}

#[test]
fn m3_get_parameter_is_answered_with_our_capabilities() {
    let mut n = neg();
    n.on_message(&req("OPTIONS", 1, ""), &Clock::start());
    let out = n.on_message(&req(
        "GET_PARAMETER",
        2,
        "wfd_video_formats\r\nwfd_audio_codecs\r\nwfd_client_rtp_ports\r\n",
    ), &Clock::start());
    let msgs = sent(&out);
    assert_eq!(msgs.len(), 1);
    assert!(msgs[0].contains("wfd_video_formats: 40 00 02 04 00000020"));
    assert!(msgs[0].contains("wfd_audio_codecs: LPCM 00000002 00"));
    assert!(msgs[0].contains("microsoft_max_bitrate: 8000"));
    assert_eq!(n.state(), NegState::Capabilities);
}

#[test]
fn m4_set_parameter_records_the_chosen_mode_and_is_acknowledged() {
    let mut n = neg();
    let t = now();
    n.on_message_at(&req("OPTIONS", 1, ""), t);
    n.on_message_at(&req("GET_PARAMETER", 2, "wfd_video_formats\r\n"), t);
    let out = n.on_message_at(
        &req(
            "SET_PARAMETER",
            3,
            "wfd_video_formats: 00 00 02 04 00000020 00000000 00000000 00 0000 0000 00 none none\r\n\
             wfd_presentation_URL: rtsp://192.168.173.1/wfd1.0/streamid=0 none\r\n",
        ),
        t,
    );
    assert_eq!(sent(&out).len(), 1);
    assert!(sent(&out)[0].starts_with("RTSP/1.0 200 OK\r\nCSeq: 3\r\n"));
    assert_eq!(
        n.chosen_video(),
        Some(VideoMode {
            width: 1280,
            height: 720,
            fps: 30
        })
    );
}

#[test]
fn a_source_that_picks_an_unadvertised_mode_is_refused() {
    let mut n = neg();
    let t = now();
    n.on_message_at(&req("OPTIONS", 1, ""), t);
    n.on_message_at(&req("GET_PARAMETER", 2, "wfd_video_formats\r\n"), t);
    // CEA bit 16 (1920x1080p30), which we never advertised.
    let out = n.on_message_at(
        &req(
            "SET_PARAMETER",
            3,
            "wfd_video_formats: 00 00 02 04 00010000 00000000 00000000 00 0000 0000 00 none none\r\n",
        ),
        t,
    );
    let msgs = sent(&out);
    assert!(msgs[0].starts_with("RTSP/1.0 400"), "{}", msgs[0]);
    assert!(n.chosen_video().is_none());
}

#[test]
fn m5_trigger_setup_makes_us_send_setup_then_play() {
    let mut n = neg();
    let t = now();
    to_ready(&mut n, t);
    let out = n.on_message_at(&req("SET_PARAMETER", 4, "wfd_trigger_method: SETUP\r\n"), t);
    let msgs = sent(&out);
    assert_eq!(msgs.len(), 2, "ack the trigger, then send M6 SETUP");
    assert!(
        msgs[1].starts_with("SETUP rtsp://192.168.173.1/wfd1.0/streamid=0 RTSP/1.0\r\n"),
        "{}",
        msgs[1]
    );
    assert!(msgs[1].contains("Transport: RTP/AVP/UDP;unicast;client_port=5000\r\n"));
    assert_eq!(n.state(), NegState::Ready);
}

#[test]
fn a_setup_response_with_a_session_makes_us_play_and_start_media() {
    let mut n = neg();
    let t = now();
    to_ready(&mut n, t);
    n.on_message_at(&req("SET_PARAMETER", 4, "wfd_trigger_method: SETUP\r\n"), t);
    let mut ok = response(200, 100, "");
    ok.headers
        .push(("Session".into(), "abcdef12;timeout=60".into()));
    let out = n.on_message_at(&ok, t);
    let msgs = sent(&out);
    assert!(
        msgs[0].starts_with("PLAY rtsp://192.168.173.1/wfd1.0/streamid=0 RTSP/1.0\r\n"),
        "{}",
        msgs[0]
    );
    assert!(msgs[0].contains("Session: abcdef12\r\n"));
    assert!(
        out.iter().any(|a| matches!(a, Action::Play)),
        "media starts"
    );
    assert_eq!(n.state(), NegState::Playing);
}

#[test]
fn keep_alive_goes_out_every_five_seconds_and_silence_ends_the_session() {
    let mut n = neg();
    let t0 = now();
    n.on_message_at(&req("OPTIONS", 1, ""), t0);
    assert!(sent(&n.tick(t0.after(Duration::from_secs(3)))).is_empty());
    let out = n.tick(t0.after(Duration::from_secs(6)));
    assert!(
        sent(&out)[0].starts_with("GET_PARAMETER "),
        "{:?}",
        sent(&out)
    );
    // No reply for 10 s after the last one heard: tear down.
    let out = n.tick(t0.after(Duration::from_secs(11)));
    assert!(
        out.iter().any(|a| matches!(a, Action::Teardown(_))),
        "{out:?}"
    );
}

#[test]
fn an_idr_request_is_rate_limited_to_one_per_five_hundred_milliseconds() {
    let mut n = neg();
    let t0 = now();
    n.on_message_at(&req("OPTIONS", 1, ""), t0);
    assert_eq!(sent(&n.request_idr(t0)).len(), 1);
    assert!(sent(&n.request_idr(t0.after(Duration::from_millis(200)))).is_empty());
    let out = n.request_idr(t0.after(Duration::from_millis(600)));
    assert_eq!(sent(&out).len(), 1);
    assert!(
        sent(&out)[0].contains("wfd_idr_request"),
        "{:?}",
        sent(&out)
    );
}

#[test]
fn teardown_from_the_source_ends_the_session() {
    let mut n = neg();
    n.on_message(&req("OPTIONS", 1, ""), &Clock::start());
    let out = n.on_message(&req("TEARDOWN", 9, ""), &Clock::start());
    assert!(sent(&out)[0].starts_with("RTSP/1.0 200 OK\r\nCSeq: 9\r\n"));
    assert!(out.iter().any(|a| matches!(a, Action::Teardown(_))));
    assert_eq!(n.state(), NegState::Done);
}

#[test]
fn an_unknown_method_is_refused_without_ending_the_session() {
    let mut n = neg();
    n.on_message(&req("OPTIONS", 1, ""), &Clock::start());
    let out = n.on_message(&req("ANNOUNCE", 5, ""), &Clock::start());
    assert!(sent(&out)[0].starts_with("RTSP/1.0 400"));
    assert!(!out.iter().any(|a| matches!(a, Action::Teardown(_))));
}

/// A negotiation driven to Playing. Named for the state, not the fixture, so it
/// does not read as a recursive call to `test_support::negotiation_to_playing`.
fn playing() -> Negotiation {
    let mut n = Negotiation::new(caps(), "01234567".into());
    for msg in test_support::negotiation_to_playing() {
        let (m, _) = parse(msg.as_bytes()).unwrap().unwrap();
        n.on_message_at(&m, now());
    }
    n
}

#[test]
fn a_dead_peer_is_noticed_within_ten_seconds() {
    let mut n = playing();
    let t0 = now();
    // Nine seconds of silence is not yet a dead peer: a single lost keep-alive
    // on a busy link must not end a healthy session.
    let quiet = n.tick(t0.after(Duration::from_secs(9)));
    assert!(
        !quiet.iter().any(|a| matches!(a, Action::Teardown(_))),
        "{quiet:?}"
    );
    let dead = n.tick(t0.after(Duration::from_secs(11)));
    assert!(
        dead.iter().any(|a| matches!(a, Action::Teardown(_))),
        "{dead:?}"
    );
}

#[test]
fn a_bitrate_request_names_the_ceiling_and_the_session() {
    let mut n = playing();
    let out = n.request_bitrate(2000, now());
    let Some(Action::Send(m)) = out.into_iter().next() else {
        panic!("no message");
    };
    let text = m.format();
    assert!(text.starts_with("SET_PARAMETER "), "{text}");
    assert!(text.contains("microsoft_max_bitrate: 2000\r\n"), "{text}");
    assert!(text.contains("Session: "), "the source needs to know which session: {text}");
}

#[test]
fn keep_alives_go_out_every_five_seconds() {
    let mut n = playing();
    let t0 = now();
    let early = n.tick(t0.after(Duration::from_secs(3)));
    assert!(early.is_empty(), "too soon: {early:?}");
    let due = n.tick(t0.after(Duration::from_secs(6)));
    assert_eq!(due.len(), 1, "one keep-alive: {due:?}");
}
