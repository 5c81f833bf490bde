//! Errors in words, and odd input.
use castr::miracast::p2p::{is_ok, line_of, poll_millis};
use castr::miracast::rtsp::{parse, ParseError};
use castr::miracast::rtsp::VideoMode;
use castr::miracast::source::caps::{required_level, CapsError};
use castr::miracast::source::ts_mux::Muxer;
use castr::miracast::ts::{Demux, Unit, PACKET_LEN};
use castr::capture::outputs::{outputs, OutputDesc};

#[test]
fn rtsp_errors_quote_what_was_wrong() {
    for (bytes, words) in [
        (&b"GARB\"AGE\r\n\r\n"[..], "malformed start line: \"GARB\\\"AGE\""),
        (
            b"OPTIONS * RTSP/1.0\r\nno colon\there\r\n\r\n",
            "malformed header: \"no colon\\there\"",
        ),
        (
            b"OPTIONS * RTSP/1.0\r\nContent-Length: many\r\n\r\n",
            "bad Content-Length: \"many\"",
        ),
        (b"OPT\xff\xfe\r\n\r\n", "message is not UTF-8"),
    ] {
        assert_eq!(parse(bytes).unwrap_err().message(), words);
    }
    assert_eq!(ParseError::NotUtf8.message(), "message is not UTF-8");
}

#[test]
fn capability_errors_in_words() {
    assert_eq!(
        CapsError::NoVideoFormats.message(),
        "the display advertised no video formats"
    );
    assert_eq!(
        CapsError::MalformedVideoFormats("00\n".to_string()).message(),
        "could not read wfd_video_formats: \"00\\n\""
    );
}

#[test]
fn a_datagram_is_read_whatever_it_holds() {
    assert_eq!(line_of(b"OK\n"), "OK");
    assert_eq!(line_of(b"a\xffb \n"), "a\u{fffd}b");
    assert!(is_ok(" OK\n") && !is_ok("FAIL\n"));
    assert_eq!(poll_millis(0), None);
    assert_eq!(poll_millis(1_999_999), Some(1));
    assert_eq!(poll_millis(u64::MAX), Some(i32::MAX));
}

fn desc(name: &str, left: i32, attached: bool, rotation: i32) -> Option<OutputDesc> {
    let mut device_name: Vec<u16> = name.encode_utf16().collect();
    device_name.resize(32, 0);
    Some(OutputDesc {
        device_name,
        left,
        top: 0,
        right: left + 100,
        bottom: 50,
        attached,
        rotation,
    })
}

#[test]
fn only_desktops_are_offered() {
    let found = outputs(&vec![
        vec![],
        vec![
            desc("\\\\.\\DISPLAY1", 100, true, 1),
            desc("\\\\.\\DISPLAY2", 0, false, 1),
            None,
            desc("\\\\.\\DISPLAY\u{e9}", 0, true, 2),
        ],
    ]);
    let names: Vec<(u32, &str, bool, bool)> = found
        .iter()
        .map(|o| (o.index, o.device_name.as_str(), o.primary, o.rotated))
        .collect();
    assert_eq!(
        names,
        vec![
            (0, "\\\\.\\DISPLAY1", false, false),
            (3, "\\\\.\\DISPLAY\u{e9}", true, true),
        ]
    );
    assert_eq!((found[0].width, found[0].height), (100, 50));
}

#[test]
fn the_level_grows_with_the_picture() {
    let mode = |width, height, fps| VideoMode { width, height, fps };
    assert_eq!(required_level(mode(640, 480, 30)), Some(0x01));
    assert_eq!(required_level(mode(1280, 720, 30)), Some(0x01));
    assert_eq!(required_level(mode(1280, 720, 60)), Some(0x02));
    assert_eq!(required_level(mode(1920, 1080, 30)), Some(0x04));
    assert_eq!(required_level(mode(1920, 1080, 60)), Some(0x10));
    assert_eq!(required_level(mode(3840, 2160, 60)), None);
}

#[test]
fn a_new_format_is_announced_at_once() {
    let mut m = Muxer::new();
    let unit = [0u8, 0, 0, 1, 0x65, 1, 2, 3];
    let first = m.push_video(&unit, 0);
    let second = m.push_video(&unit, 33_333);
    assert!(second.len() < first.len(), "tables only now and then");
    m.set_h264_format(0x02, 0x04);
    let third = m.push_video(&unit, 66_666);
    assert_eq!(third.len(), first.len(), "and again with a new format");
}

#[test]
fn a_sink_that_joins_late_learns_the_program() {
    let mut m = Muxer::new();
    // the copy of the tables that the sink misses
    m.push_video(&[0, 0, 0, 1, 0x65, 0], 0);
    let mut d = Demux::new();
    let mut units = Vec::new();
    for n in 1..=41u8 {
        let out = m.push_video(&[0, 0, 0, 1, 0x65, n], u64::from(n) * 1_000);
        for p in out.chunks(PACKET_LEN) {
            units.extend(d.push(p));
        }
    }
    assert_eq!(units.len(), 1);
    assert!(matches!(&units[0], Unit::Video { data, .. } if *data == [0, 0, 0, 1, 0x65, 40]));
}

#[test]
fn a_name_with_broken_halves_is_mended() {
    let mut d = desc("", 0, true, 0).unwrap();
    let units = [
        0xd834, 0xdd1e, 0x6d, 0x75, 0x73, 0xdd1e, 0x69, 0x63, 0xd834,
    ];
    d.device_name[..units.len()].copy_from_slice(&units);
    let list = outputs(&vec![vec![Some(d)]]);
    assert_eq!(list[0].device_name, "\u{1d11e}mus\u{fffd}ic\u{fffd}");
}
