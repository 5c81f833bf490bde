//! Wi-Fi Display parameters.
use castr::miracast::wfd::{AudioCodecs, Capabilities, ClientPorts, VideoFormats, capabilities_body, parse_parameter_body, ConfigMethods, DeviceInfo, DeviceKind, device_info_subelement, parse_config_methods, parse_device_info, parse_max_bitrate_kbps};

fn caps() -> Capabilities {
    Capabilities {
        video: VideoFormats::only_720p30(),
        audio: AudioCodecs::lpcm_48k_stereo(),
        ports: ClientPorts { rtp_port: 5000 },
        max_bitrate_kbps: 8000,
        latency_management: true,
        format_change: true,
    }
}

#[test]
fn the_video_format_line_advertises_only_720p30() {
    let body = capabilities_body(&caps());
    let line = body
        .lines()
        .find(|l| l.starts_with("wfd_video_formats:"))
        .expect("video formats");
    // native 0x40 = CEA table, index 1; profile/level constant for CBP@3.1;
    // CEA bitmap 0x00000020 is index 5 (1280x720p30); VESA and HH are zero.
    assert_eq!(
        line,
        "wfd_video_formats: 40 00 02 04 00000020 00000000 00000000 00 0000 0000 00 none none"
    );
}

#[test]
fn the_audio_line_advertises_lpcm_only() {
    let body = capabilities_body(&caps());
    assert!(
        body.contains("wfd_audio_codecs: LPCM 00000002 00"),
        "48 kHz stereo bit only: {body}"
    );
}

#[test]
fn content_protection_is_none_and_uibc_is_absent() {
    let body = capabilities_body(&caps());
    assert!(body.contains("wfd_content_protection: none"));
    assert!(
        !body.contains("wfd_uibc_capability"),
        "no input back channel"
    );
}

#[test]
fn the_client_port_line_names_our_rtp_port() {
    let body = capabilities_body(&caps());
    assert!(
        body.contains("wfd_client_rtp_ports: RTP/AVP/UDP;unicast 5000 0 mode=play"),
        "{body}"
    );
}

#[test]
fn the_microsoft_extensions_are_advertised() {
    let body = capabilities_body(&caps());
    assert!(body.contains("microsoft_max_bitrate: 8000"), "{body}");
    assert!(body.contains("microsoft_latency_management_capability: supported"));
    assert!(body.contains("microsoft_format_change_support: supported"));
}

#[test]
fn every_line_ends_with_crlf_and_the_body_does_too() {
    let body = capabilities_body(&caps());
    assert!(body.ends_with("\r\n"));
    for line in body.split_terminator("\r\n") {
        assert!(!line.contains('\n'), "stray newline in {line:?}");
    }
}

#[test]
fn a_parameter_body_parses_into_pairs() {
    let body = "wfd_video_formats: 40 00 02 04 00000020 00000000 00000000 00 0000 0000 00 none none\r\n\
                wfd_presentation_URL: rtsp://192.168.173.1/wfd1.0/streamid=0 none\r\n\
                wfd_client_rtp_ports: RTP/AVP/UDP;unicast 5000 0 mode=play\r\n";
    let pairs = parse_parameter_body(body);
    assert_eq!(pairs.len(), 3);
    assert_eq!(pairs[0].0, "wfd_video_formats");
    assert_eq!(pairs[1].1, "rtsp://192.168.173.1/wfd1.0/streamid=0 none");
    assert_eq!(pairs[2].0, "wfd_client_rtp_ports");
}

#[test]
fn a_get_parameter_request_body_lists_bare_names() {
    // M3 asks for parameters by name, one per line, with no colon.
    let pairs = parse_parameter_body("wfd_video_formats\r\nwfd_audio_codecs\r\n");
    assert_eq!(pairs.len(), 2);
    assert_eq!(pairs[0], ("wfd_video_formats".to_string(), String::new()));
}

#[test]
fn the_device_information_subelement_says_sink_and_available() {
    let s = device_info_subelement(&DeviceInfo {
        session_available: true,
        rtsp_port: 7236,
        max_throughput_mbps: 10,
    });
    // 6 bytes: device info (2), control port (2), throughput (2).
    // 0x0011 = primary sink (bits 0-1) with session available (bits 4-5).
    assert_eq!(s, "000600111c44000a");
}

#[test]
fn an_unavailable_sink_clears_the_availability_bits() {
    let s = device_info_subelement(&DeviceInfo {
        session_available: false,
        rtsp_port: 7236,
        max_throughput_mbps: 10,
    });
    assert_eq!(s, "000600011c44000a");
}

#[test]
fn a_real_televisions_element_parses() {
    // Captured from a Samsung 75" Crystal UHD, 2026-09-04. Bytes from a
    // vendor we did not write are the only interoperability evidence
    // available until a television can actually be cast to.
    let body = [0x01, 0x11, 0x1c, 0x44, 0x00, 0x36];
    let c = parse_device_info(&body).expect("a real element must parse");
    assert_eq!(c.kind, DeviceKind::PrimarySink);
    assert!(c.session_available, "it was advertising a free session");
    assert!(c.content_protection, "this television supports HDCP");
    assert_eq!(c.rtsp_port, 7236);
    assert_eq!(c.max_throughput_mbps, 54);
}

#[test]
fn our_own_sinks_element_parses_as_what_we_built() {
    // The builder and the parser must agree, or the source and the sink
    // disagree about the sink's own advertisement.
    let hex = device_info_subelement(&DeviceInfo {
        session_available: true,
        rtsp_port: 7236,
        max_throughput_mbps: 10,
    });
    let bytes: Vec<u8> = (0..hex.len() / 2)
        .map(|i| u8::from_str_radix(&hex[i * 2..i * 2 + 2], 16).expect("hex"))
        .collect();
    // The first two bytes are the subelement's length, not its body.
    let c = parse_device_info(&bytes[2..]).expect("our own element must parse");
    assert_eq!(c.kind, DeviceKind::PrimarySink);
    assert!(c.session_available);
    assert!(!c.content_protection);
    assert_eq!(c.rtsp_port, 7236);
    assert_eq!(c.max_throughput_mbps, 10);
}

#[test]
fn a_source_is_not_mistaken_for_a_sink() {
    // Device type 00 is a source. Casting to one would never work.
    let body = [0x00, 0x10, 0x1c, 0x44, 0x00, 0x0a];
    assert_eq!(
        parse_device_info(&body).expect("parse").kind,
        DeviceKind::Source
    );
}

#[test]
fn a_truncated_element_is_rejected_rather_than_guessed() {
    assert!(parse_device_info(&[0x01, 0x11, 0x1c]).is_none());
    assert!(parse_device_info(&[]).is_none());
}

#[test]
fn an_unavailable_sink_says_so() {
    // Bits 4-5 clear: a sink already busy with somebody else.
    let body = [0x01, 0x01, 0x1c, 0x44, 0x00, 0x0a];
    let c = parse_device_info(&body).expect("parse");
    assert_eq!(c.kind, DeviceKind::PrimarySink);
    assert!(!c.session_available);
}

/// Read from the real devices in range on 2026-09-05. Genuine bytes from
/// four vendors we did not write, which is the only interop evidence there
/// is short of casting to each one.
const ADAPTER: u16 = 0x2288; // MR-A202 wireless display adapter
const SAMSUNG: u16 = 0x4388; // 75" Crystal UHD
const LG: u16 = 0x3388; // webOS TV UN7000PUB
const FIRE_TV: u16 = 0x4108; // Fire TV Stick
const PRINTER: u16 = 0x0000; // Epson WF-2960

fn tlv(id: u16, body: &[u8]) -> Vec<u8> {
    let mut v = id.to_be_bytes().to_vec();
    v.extend_from_slice(&(body.len() as u16).to_be_bytes());
    v.extend_from_slice(body);
    v
}

#[test]
fn the_attribute_is_found_among_others() {
    let mut value = tlv(0x1044, &[0x02]); // WPS state, in the way
    value.extend(tlv(0x1008, &ADAPTER.to_be_bytes()));
    value.extend(tlv(0x1047, &[0u8; 16])); // UUID, after it
    assert_eq!(parse_config_methods(&value), Some(ConfigMethods(ADAPTER)));
}

#[test]
fn an_element_without_the_attribute_yields_nothing() {
    let value = tlv(0x1044, &[0x02]);
    assert_eq!(parse_config_methods(&value), None);
}

#[test]
fn a_truncated_element_is_survived_rather_than_panicking() {
    for cut in 0..12 {
        let full = tlv(0x1008, &ADAPTER.to_be_bytes());
        let _ = parse_config_methods(&full[..cut.min(full.len())]);
    }
    // A length that runs past the end must not be believed.
    let lying = vec![0x10, 0x08, 0xff, 0xff, 0x22];
    assert_eq!(parse_config_methods(&lying), None);
}

#[test]
fn the_adapter_offers_a_button_and_a_screen_but_no_keypad() {
    let m = ConfigMethods(ADAPTER);
    assert!(m.push_button());
    assert!(m.shows_a_pin());
    assert!(!m.has(ConfigMethods::KEYPAD));
}

#[test]
fn the_televisions_offer_a_button() {
    assert!(ConfigMethods(SAMSUNG).push_button());
    assert!(ConfigMethods(LG).push_button());
}

#[test]
fn the_fire_tv_offers_no_button() {
    // The one display here that a push-button-only source could not pair
    // with at all.
    let m = ConfigMethods(FIRE_TV);
    assert!(!m.push_button());
    assert!(m.shows_a_pin());
}

#[test]
fn a_printer_offers_nothing() {
    let m = ConfigMethods(PRINTER);
    assert!(!m.push_button());
    assert!(!m.shows_a_pin());
    assert!(m.describe().contains("no pairing method"));
}

#[test]
fn a_composite_method_needs_both_its_bits() {
    // 0x0200 alone is half of PHYSICAL_PUSH_BUTTON; on its own it must not
    // read as one.
    assert!(!ConfigMethods(0x0200).has(ConfigMethods::PHYSICAL_PUSH_BUTTON));
    assert!(ConfigMethods(0x0280).has(ConfigMethods::PHYSICAL_PUSH_BUTTON));
}

#[test]
fn methods_are_described_in_words() {
    assert_eq!(ConfigMethods(ADAPTER).describe(), "display, push-button");
    assert_eq!(ConfigMethods(FIRE_TV).describe(), "display, keypad");
}

#[test]
fn a_request_is_read() {
    assert_eq!(
        parse_max_bitrate_kbps("microsoft_max_bitrate: 2000\r\n"),
        Some(2000)
    );
}

#[test]
fn it_is_found_beside_other_parameters() {
    let body = "wfd_video_formats: 00 00 02 04 00000080\r\n\
                microsoft_max_bitrate: 4000\r\n";
    assert_eq!(parse_max_bitrate_kbps(body), Some(4000));
}

#[test]
fn the_name_is_matched_without_regard_to_case() {
    assert_eq!(
        parse_max_bitrate_kbps("Microsoft_Max_Bitrate: 1500\r\n"),
        Some(1500)
    );
}

#[test]
fn a_bare_flag_on_an_earlier_line_does_not_stop_the_search() {
    // Exactly the body a display sends when it wants both at once.
    let body = "wfd_idr_request\r\nmicrosoft_max_bitrate: 4000\r\n";
    assert_eq!(parse_max_bitrate_kbps(body), Some(4000));
}

#[test]
fn a_body_without_one_asks_for_nothing() {
    assert_eq!(parse_max_bitrate_kbps("wfd_idr_request\r\n"), None);
    assert_eq!(parse_max_bitrate_kbps(""), None);
}

#[test]
fn a_value_that_is_not_a_number_is_ignored_rather_than_guessed() {
    assert_eq!(parse_max_bitrate_kbps("microsoft_max_bitrate: lots\r\n"), None);
    assert_eq!(parse_max_bitrate_kbps("microsoft_max_bitrate:\r\n"), None);
}
