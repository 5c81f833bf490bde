//! The source's side of the negotiation.
use castr::miracast::rtsp;
use castr::miracast::source::session::{M2_GRACE, SourceConfig, SourceSession, SourceState};
use castr::miracast::rtsp::{Action, Message, NegState, Negotiation, StartLine, VideoMode};
use castr::miracast::wfd::{AudioCodecs, Capabilities, ClientPorts, VideoFormats};
use castr::proto::Mode;
use castr::time::{Clock, Duration, Instant};

fn now() -> Instant {
    Clock::start().now()
}

    const P720P30: VideoMode = VideoMode {
        width: 1280,
        height: 720,
        fps: 30,
    };
    const P1080P30: VideoMode = VideoMode {
        width: 1920,
        height: 1080,
        fps: 30,
    };
    const P720P60: VideoMode = VideoMode {
        width: 1280,
        height: 720,
        fps: 60,
    };

    fn cfg() -> SourceConfig {
        SourceConfig::default()
    }

    fn sent(actions: &[Action]) -> Vec<Message> {
        actions
            .iter()
            .filter_map(|a| match a {
                Action::Send(m) => Some(m.clone()),
                _ => None,
            })
            .collect()
    }

    fn sink() -> Negotiation {
        Negotiation::new(
            Capabilities {
                video: VideoFormats::only_720p30(),
                audio: AudioCodecs::lpcm_48k_stereo(),
                ports: ClientPorts { rtp_port: 5000 },
                max_bitrate_kbps: 20_000,
                latency_management: true,
                format_change: true,
            },
            "1234".to_string(),
        )
    }

    #[test]
    fn a_session_opens_with_m1_options() {
        let mut s = SourceSession::new(cfg());
        let msgs = sent(&s.start());
        assert_eq!(msgs.len(), 1);
        match &msgs[0].start {
            StartLine::Request { method, .. } => assert_eq!(method, "OPTIONS"),
            other => panic!("M1 must be a request, got {other:?}"),
        }
    }

    #[test]
    fn the_displays_options_request_is_answered() {
        // M2 runs the other way down the same connection; a source that only
        // spoke as a client would hang here.
        let mut s = SourceSession::new(cfg());
        s.start();
        let msgs = sent(&s.on_message(&rtsp::request("OPTIONS", "*", 1, ""), &Clock::start()));
        assert!(
            msgs.iter()
                .any(|m| matches!(m.start, StartLine::Response { status: 200, .. })),
            "the display's OPTIONS went unanswered"
        );
    }

    /// Whether a batch of actions contains an M3.
    fn has_m3(actions: &[Action]) -> bool {
        sent(actions).iter().any(|m| {
            matches!(&m.start, StartLine::Request { method, .. } if method == "GET_PARAMETER")
                && m.body.contains("wfd_video_formats")
        })
    }

    #[test]
    fn capabilities_are_not_asked_for_before_the_display_has_sent_its_own_options() {
        // The bug a real display found: M3 sent straight after M1's answer,
        // before M2. The adapter ignored it, sent its M2, and then waited for
        // an M3 that had already been and gone - closing the session after
        // half a minute with nothing to explain it.
        let mut s = SourceSession::new(cfg());
        s.start();
        let actions = s.on_message(&rtsp::response(200, 1, ""), &Clock::start());
        assert!(
            !has_m3(&actions),
            "M3 must wait for M2; it was sent as soon as M1 was answered"
        );
    }

    #[test]
    fn the_displays_options_brings_out_the_capability_request() {
        let mut s = SourceSession::new(cfg());
        s.start();
        s.on_message(&rtsp::response(200, 1, ""), &Clock::start());
        let actions = s.on_message(&rtsp::request("OPTIONS", "*", 1, ""), &Clock::start());
        assert!(has_m3(&actions), "M2 should be answered and M3 sent");
        // And the answer still goes out, in the same batch.
        assert!(sent(&actions)
            .iter()
            .any(|m| matches!(m.start, StartLine::Response { status: 200, .. })));
    }

    #[test]
    fn a_display_that_never_sends_m2_is_not_waited_on_for_ever() {
        // Preserves the behaviour every display that already worked relied on.
        let t0 = now();
        let mut s = SourceSession::new(cfg());
        s.start();
        s.on_message_at(&rtsp::response(200, 1, ""), t0);
        assert!(!has_m3(&s.tick(t0.after(Duration::from_millis(500)))));
        assert!(
            has_m3(&s.tick(t0.after(Duration { nanos: M2_GRACE }))),
            "after the grace period M3 must go out anyway"
        );
    }

    #[test]
    fn capabilities_are_asked_for_only_once() {
        // A display may send OPTIONS more than once; each one must not produce
        // another M3.
        let mut s = SourceSession::new(cfg());
        s.start();
        s.on_message(&rtsp::response(200, 1, ""), &Clock::start());
        assert!(has_m3(&s.on_message(&rtsp::request("OPTIONS", "*", 1, ""), &Clock::start())));
        assert!(!has_m3(&s.on_message(&rtsp::request("OPTIONS", "*", 2, ""), &Clock::start())));
        assert!(!has_m3(&s.tick(now().after(Duration { nanos: M2_GRACE * 2 }))));
    }

    #[test]
    fn an_options_arriving_before_m1_is_answered_does_not_bring_out_m3_early() {
        // Ordering the other way round: the display speaks first. M3 still
        // waits until our own M1 has been answered.
        let mut s = SourceSession::new(cfg());
        s.start();
        assert!(!has_m3(&s.on_message(&rtsp::request("OPTIONS", "*", 1, ""), &Clock::start())));
    }

    #[test]
    fn a_request_for_a_keyframe_produces_one() {
        // The adapter asked three times and was answered "200 OK" three times
        // with nothing behind it, so the session ran healthily to completion
        // and showed black throughout.
        let mut s = SourceSession::new(cfg());
        s.start();
        let mut idr = rtsp::request("SET_PARAMETER", "rtsp://x/wfd1.0/streamid=0", 4, "");
        idr.body = "wfd_idr_request\r\n".into();
        let actions = s.on_message(&idr, &Clock::start());
        assert!(
            actions.iter().any(|a| matches!(a, Action::Keyframe)),
            "wfd_idr_request must reach the encoder"
        );
        // And it is still answered, or the display gives up on us.
        assert!(sent(&actions)
            .iter()
            .any(|m| matches!(m.start, StartLine::Response { status: 200, .. })));
    }

    #[test]
    fn another_set_parameter_does_not_ask_for_a_keyframe() {
        let mut s = SourceSession::new(cfg());
        s.start();
        let mut other = rtsp::request("SET_PARAMETER", "rtsp://x/wfd1.0/streamid=0", 4, "");
        other.body = "wfd_some_vendor_thing: 1\r\n".into();
        let actions = s.on_message(&other, &Clock::start());
        assert!(!actions.iter().any(|a| matches!(a, Action::Keyframe)));
        assert!(!actions.iter().any(|a| matches!(a, Action::Teardown(_))));
    }

    #[test]
    fn an_unknown_parameter_does_not_end_the_session() {
        let mut s = SourceSession::new(cfg());
        s.start();
        s.on_message(&rtsp::response(200, 1, ""), &Clock::start()); // M1 answered
        s.on_message(&rtsp::request("OPTIONS", "*", 1, ""), &Clock::start()); // M2 brings out M3
        let body = "wfd_video_formats: 40 00 02 04 00000020 00000000 00000000 00 0000 0000 00 none none\r\n\
                    wfd_audio_codecs: LPCM 00000002 00\r\n\
                    wfd_client_rtp_ports: RTP/AVP/UDP;unicast 5000 0 mode=play\r\n\
                    some_vendor_extension: whatever\r\n";
        let actions = s.on_message(&rtsp::response(200, 2, body), &Clock::start());
        assert!(
            !actions.iter().any(|a| matches!(a, Action::Teardown(_))),
            "a vendor parameter must not end the session"
        );
        assert_eq!(s.chosen(), Some(P720P30));
    }

    #[test]
    fn no_common_format_tears_down_rather_than_streaming_blindly() {
        // CEA bit 3 is 720x576p50, a European broadcast mode we never encode.
        let mut s = SourceSession::new(cfg());
        s.start();
        s.on_message(&rtsp::response(200, 1, ""), &Clock::start());
        s.on_message(&rtsp::request("OPTIONS", "*", 1, ""), &Clock::start()); // M2 brings out M3
        let body = "wfd_video_formats: 40 00 02 04 00000008 00000000 00000000 00 0000 0000 00 none none\r\n";
        let actions = s.on_message(&rtsp::response(200, 2, body), &Clock::start());
        let reason = actions.iter().find_map(|a| match a {
            Action::Teardown(r) => Some(*r),
            _ => None,
        });
        assert_eq!(reason, Some("negotiation: no video format in common"));
    }

    #[test]
    fn a_refusal_names_the_stage_rather_than_going_quiet() {
        let mut s = SourceSession::new(cfg());
        s.start();
        let actions = s.on_message(&rtsp::response(400, 1, ""), &Clock::start());
        let reason = actions.iter().find_map(|a| match a {
            Action::Teardown(r) => Some(*r),
            _ => None,
        });
        assert_eq!(
            reason,
            Some("negotiation: the display refused a request"),
            "every failure names its stage"
        );
    }

    #[test]
    fn a_silent_display_is_given_up_on() {
        let mut s = SourceSession::new(cfg());
        let start = now();
        s.state = SourceState::Playing;
        s.last_heard = Some(start);
        assert!(s.tick(start.after(Duration::from_secs(6))).iter().any(
            |a| matches!(a, Action::Send(m) if matches!(&m.start, StartLine::Request { method, .. } if method == "GET_PARAMETER"))
        ), "a keep-alive was due");
        let actions = s.tick(start.after(Duration::from_secs(11)));
        assert!(actions
            .iter()
            .any(|a| matches!(a, Action::Teardown(r) if r.starts_with("session:"))));
    }

    #[test]
    fn our_source_and_our_sink_negotiate_each_other_to_playing() {
        // Two state machines, no sockets. This does not prove the
        // specification - both could share one wrong reading of it - but a
        // disagreement here is certainly a bug in one of them.
        let mut source = SourceSession::new(cfg());
        let mut sink = sink();

        let mut from_source = source.start();
        let mut source_playing = false;
        for _ in 0..24 {
            let mut from_sink = Vec::new();
            for action in from_source.drain(..) {
                match action {
                    Action::Send(m) => from_sink.extend(sink.on_message(&m, &Clock::start())),
                    Action::Play => source_playing = true,
                    Action::Keyframe => {}
                    Action::Bitrate(_) => {}
                    Action::Teardown(why) => panic!("the source tore down: {why}"),
                }
            }
            for action in from_sink.drain(..) {
                match action {
                    Action::Send(m) => from_source.extend(source.on_message(&m, &Clock::start())),
                    Action::Play => {}
                    Action::Keyframe => {}
                    Action::Bitrate(_) => {}
                    Action::Teardown(why) => panic!("the sink tore down: {why}"),
                }
            }
            if from_source.is_empty() {
                break;
            }
        }
        assert!(source_playing, "the source never reached Play");
        assert_eq!(source.state(), SourceState::Playing);
        assert_eq!(sink.state(), NegState::Playing, "the sink never reached Playing");
        assert_eq!(source.chosen(), Some(P720P30));
        assert_eq!(sink.chosen_video(), Some(P720P30), "the two chose differently");
    }

    #[test]
    fn the_toggle_decides_which_of_a_displays_modes_is_taken() {
        // A display offering 720p30, 720p60 and 1080p30 - CEA bits 5, 6 and 7.
        // Quality should take the biggest picture, Game the fastest one, and
        // the choice is made here rather than baked in at construction.
        let body = "wfd_video_formats: 40 00 02 04 000000E0 00000000 00000000 00 0000 0000 00 none none
";
        for (mode, want) in [(Mode::Quality, P1080P30), (Mode::Game, P720P60)] {
            let mut s = SourceSession::new(SourceConfig {
                mode,
                ..SourceConfig::default()
            });
            s.start();
            s.on_message(&rtsp::response(200, 1, ""), &Clock::start());
            s.on_message(&rtsp::request("OPTIONS", "*", 1, ""), &Clock::start()); // M2 brings out M3
            s.on_message(&rtsp::response(200, 2, body), &Clock::start());
            assert_eq!(s.chosen(), Some(want), "{mode:?} chose the wrong mode");
        }
    }

    #[test]
    fn a_ceiling_keeps_us_from_proposing_what_a_display_cannot_carry() {
        // The same display, but it says it can take only 9 Mbit/s. 1080p30 is
        // reckoned at 10, so Quality has to settle for the next thing that
        // fits rather than proposing what the display cannot carry.
        let body = "wfd_video_formats: 40 00 02 04 000000E0 00000000 00000000 00 0000 0000 00 none none
";
        let mut s = SourceSession::new(SourceConfig {
            mode: Mode::Quality,
            ceiling_mbps: Some(9),
            ..SourceConfig::default()
        });
        s.start();
        s.on_message(&rtsp::response(200, 1, ""), &Clock::start());
        s.on_message(&rtsp::request("OPTIONS", "*", 1, ""), &Clock::start()); // M2 brings out M3
        s.on_message(&rtsp::response(200, 2, body), &Clock::start());
        assert_eq!(s.chosen(), Some(P720P60));
    }

    #[test]
    fn a_teardown_carries_the_session() {
        let mut s = SourceSession::new(cfg());
        let m = s.teardown();
        assert!(matches!(&m.start, StartLine::Request { method, .. } if method == "TEARDOWN"));
        assert_eq!(m.header("session"), Some("1234567890"));
        assert_eq!(s.state(), SourceState::Done);
    }
