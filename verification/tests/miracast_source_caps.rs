//! What a display can show, and what it is sent.
use castr::miracast::source::caps::{CapsError, VideoTable, cea_mode, choose_mode, choose_selection, mode_bit, needs_mbps, our_modes, parse};
use castr::miracast::rtsp::VideoMode;
use castr::miracast::wfd::{AudioCodecs, Capabilities, ClientPorts, VideoFormats, capabilities_body};
use castr::proto::Mode;

/// Exactly what our own sink sends, so both halves are tested together.
fn our_sink_body() -> String {
    capabilities_body(&Capabilities {
        video: VideoFormats::only_720p30(),
        audio: AudioCodecs::lpcm_48k_stereo(),
        ports: ClientPorts { rtp_port: 5000 },
        max_bitrate_kbps: 20_000,
        latency_management: true,
        format_change: true,
    })
}

const P720P30: VideoMode = VideoMode {
    width: 1280,
    height: 720,
    fps: 30,
};
const P1080P60: VideoMode = VideoMode {
    width: 1920,
    height: 1080,
    fps: 60,
};

#[test]
fn our_own_sink_capabilities_parse() {
    let c = parse(&our_sink_body()).expect("our own sink must parse");
    assert_eq!(c.cea, 0x0000_0020, "bit 5 is 1280x720p30");
    assert_eq!(c.profile, 0x02);
    assert_eq!(c.level, 0x04);
    assert_eq!(c.rtp_port, 5000);
    assert_eq!(c.lpcm_modes, 0x0000_0002);
    assert_eq!(c.max_bitrate_kbps, Some(20_000));
    assert_eq!(c.content_protection, None, "'none' is not a requirement");
}

#[test]
fn the_only_common_mode_is_chosen() {
    let c = parse(&our_sink_body()).unwrap();
    assert_eq!(choose_mode(&c, &[P1080P60, P720P30]).unwrap(), P720P30);
}

#[test]
fn preference_order_is_ours_not_the_displays() {
    // A display offering everything must still get what we asked for first.
    let mut c = parse(&our_sink_body()).unwrap();
    c.cea = 0xffff_ffff;
    c.level = 0x10;
    assert_eq!(choose_mode(&c, &[P1080P60, P720P30]).unwrap(), P1080P60);
    assert_eq!(choose_mode(&c, &[P720P30, P1080P60]).unwrap(), P720P30);
}

#[test]
fn an_unknown_parameter_is_ignored_not_fatal() {
    // A real television sends vendor parameters we have never seen, and
    // refusing them would refuse the television.
    let body = format!("{}some_vendor_extension: whatever\r\n", our_sink_body());
    assert!(parse(&body).is_ok());
}

#[test]
fn no_common_format_says_what_each_side_offered() {
    let c = parse(&our_sink_body()).unwrap();
    let text = choose_mode(&c, &[P1080P60]).unwrap_err().message();
    assert!(
        text.contains("1280x720"),
        "must name the display's offer: {text}"
    );
    assert!(text.contains("1920x1080"), "must name ours: {text}");
}

#[test]
fn a_body_with_no_video_formats_is_an_error_not_a_guess() {
    assert_eq!(
        parse("wfd_audio_codecs: LPCM 00000002 00\r\n").unwrap_err(),
        CapsError::NoVideoFormats
    );
}

#[test]
fn a_truncated_video_formats_line_is_an_error() {
    assert!(matches!(
        parse("wfd_video_formats: 40 00 02\r\n").unwrap_err(),
        CapsError::MalformedVideoFormats(_)
    ));
}

#[test]
fn a_display_demanding_content_protection_is_recorded() {
    // We cannot satisfy HDCP, and the honest answer is to say so rather
    // than stream a picture that will never appear.
    let body = our_sink_body().replace(
        "wfd_content_protection: none",
        "wfd_content_protection: HDCP2.0 port=1189",
    );
    let c = parse(&body).unwrap();
    assert_eq!(c.content_protection.as_deref(), Some("HDCP2.0 port=1189"));
}

#[test]
fn quality_prefers_a_bigger_picture_and_game_a_faster_one() {
    // The toggle already means exactly this for castr's own protocol.
    let quality = our_modes(Mode::Quality, None);
    let game = our_modes(Mode::Game, None);
    assert_eq!(
        quality[0],
        VideoMode {
            width: 1920,
            height: 1080,
            fps: 60
        }
    );
    assert_eq!(
        quality[1],
        VideoMode {
            width: 1920,
            height: 1080,
            fps: 30
        },
        "quality takes 1080p30 over 720p60"
    );
    assert_eq!(
        game[1],
        VideoMode {
            width: 1366,
            height: 768,
            fps: 60
        },
        "game takes the next-largest 60 fps mode over 1080p30"
    );
}

#[test]
fn a_display_is_never_offered_more_than_it_says_it_can_carry() {
    // Our own Pi advertises 10 Mbit/s. Proposing 1080p60 to it would be
    // asking for a stream it has already said it cannot take.
    let modes = our_modes(Mode::Quality, Some(10));
    assert!(!modes.contains(&VideoMode {
        width: 1920,
        height: 1080,
        fps: 60
    }));
    assert!(modes.contains(&P720P30));
}

#[test]
fn a_generous_ceiling_keeps_everything() {
    // A television advertising 54 Mbit/s should see our whole list.
    assert_eq!(our_modes(Mode::Quality, Some(54)).len(), 13);
    assert_eq!(our_modes(Mode::Quality, None).len(), 13);
}

#[test]
fn a_tiny_ceiling_still_leaves_something_to_offer() {
    // Better a small picture than "no format in common".
    let modes = our_modes(Mode::Quality, Some(3));
    assert!(!modes.is_empty(), "nothing left to propose");
    assert!(modes.iter().all(|m| needs_mbps(*m) <= 3));
}

#[test]
fn the_cost_estimate_is_in_the_right_neighbourhood() {
    // It only has to be good enough to keep us from proposing the absurd.
    assert!((18..=22).contains(&needs_mbps(VideoMode {
        width: 1920,
        height: 1080,
        fps: 60
    })));
    assert!((3..=6).contains(&needs_mbps(P720P30)));
}

#[test]
fn against_our_own_sink_the_one_mode_it_offers_is_chosen() {
    // Whatever we now propose, a sink offering only 720p30 must still get
    // 720p30 - the working path must not break.
    let c = parse(&our_sink_body()).unwrap();
    for mode in [Mode::Quality, Mode::Game] {
        let ours = our_modes(mode, Some(10));
        assert_eq!(choose_mode(&c, &ours).unwrap(), P720P30, "{mode:?}");
    }
}

#[test]
fn the_bit_for_a_mode_round_trips() {
    assert_eq!(mode_bit(P720P30), Some(0x0000_0020));
    assert_eq!(cea_mode(5), Some(P720P30));
}

#[test]
fn a_port_the_display_names_is_used_over_the_default() {
    let body = our_sink_body().replace("unicast 5000", "unicast 19000");
    assert_eq!(parse(&body).unwrap().rtp_port, 19000);
}

#[test]
fn interlaced_cea_bits_are_not_labeled_progressive() {
    for bit in [2, 4, 9, 14] {
        assert_eq!(cea_mode(bit), None);
    }
}

#[test]
fn a_vesa_mode_keeps_its_table_and_bit() {
    let mut c = parse(&our_sink_body()).unwrap();
    c.cea = 0;
    c.vesa = 1 << 13; // 1366x768p60
    c.level = 0x10;
    let wanted = VideoMode {
        width: 1366,
        height: 768,
        fps: 60,
    };
    let selected = choose_selection(&c, &[wanted]).unwrap();
    assert_eq!(selected.table, VideoTable::Vesa);
    assert_eq!(selected.bit, 1 << 13);
    assert_eq!(selected.level, 0x10);
}

#[test]
fn multiple_codec_tuples_keep_modes_with_their_own_profile() {
    let body = "wfd_video_formats: 40 00 01 02 00000040 00000000 00000000 00 0000 0000 00 none none, 02 04 00000080 00000000 00000000 00 0000 0000 00 none none\r\n\
                wfd_audio_codecs: LPCM 00000002 00\r\n";
    let c = parse(body).unwrap();
    let selected = choose_selection(
        &c,
        &[VideoMode {
            width: 1920,
            height: 1080,
            fps: 30,
        }],
    )
    .unwrap();
    assert_eq!(selected.profile, 0x02);
    assert_eq!(selected.bit, 0x80);
}
