//! One group, from its first client to its end.
use castr::miracast::p2p::Event;
use castr::miracast::sink::{PeerStore, ServeAction, Service, SinkOut};
use castr::time::Clock;

fn idle() -> Service {
    Service::new(5000, PeerStore::load(""))
}

fn busy() -> Service {
    let mut s = idle();
    assert!(s.wants_connection());
    assert!(s.on_accepted(true, &[1, 2, 3, 4]));
    assert!(!s.wants_connection());
    s
}

/// What some actions do to the display and the group, in order.
fn ending(acts: &[ServeAction]) -> Vec<&'static str> {
    acts.iter()
        .filter_map(|a| match a {
            ServeAction::Release => Some("release"),
            ServeAction::Finish => Some("finish"),
            ServeAction::Out(SinkOut::Ended(_)) => Some("ended"),
            _ => None,
        })
        .collect()
}

fn reason(acts: &[ServeAction]) -> Option<&str> {
    acts.iter().find_map(|a| match a {
        ServeAction::Out(SinkOut::Ended(r)) => Some(r.as_str()),
        _ => None,
    })
}

#[test]
fn a_display_that_is_ours_is_given_back_once() {
    assert_eq!(ending(&busy().on_stop()), vec!["release", "finish"]);
    assert_eq!(ending(&idle().on_stop()), vec!["finish"]);
    let gone = Event::ClientDisconnected {
        mac: "02:00:00:00:00:01".into(),
    };
    assert_eq!(
        ending(&busy().on_radio(&gone, &[0; 4])),
        vec!["release", "ended", "finish"]
    );
    assert_eq!(
        ending(&idle().on_radio(&gone, &[0; 4])),
        vec!["ended", "finish"]
    );
    let mut s = busy();
    assert!(s.end_of_pass().is_empty());
    s.on_rtsp_closed();
    let acts = s.end_of_pass();
    assert_eq!(ending(&acts), vec!["ended", "release", "finish"]);
    assert_eq!(reason(&acts), Some("source closed the connection"));
}

#[test]
fn a_busy_display_refuses_the_connection() {
    let mut s = idle();
    assert!(!s.on_accepted(false, &[0; 4]));
    assert!(s.wants_connection());
    assert_eq!(ending(&s.on_stop()), vec!["finish"]);
}

#[test]
fn an_end_outlives_a_failed_write_before_it() {
    let mut s = busy();
    let bytes = b"TEARDOWN rtsp://x RTSP/1.0\r\nCSeq: 9\r\n\r\n";
    let acts = s.on_rtsp_bytes(bytes, Clock::start().now());
    // The answer is written before the session ends, so its failure is not what
    // ends it.
    assert_eq!(acts.len(), 1);
    match &acts[0] {
        ServeAction::WriteRtsp { text, ends_later } => {
            assert!(text.starts_with("RTSP/1.0 200"));
            assert!(*ends_later);
            s.on_rtsp_write_error("broken pipe", *ends_later);
        }
        other => panic!("expected a write, got {other:?}"),
    }
    assert_eq!(reason(&s.end_of_pass()), Some("source sent TEARDOWN"));
}

#[test]
fn a_failed_write_ends_the_session() {
    let mut s = busy();
    let bytes = b"OPTIONS * RTSP/1.0\r\nCSeq: 1\r\n\r\n";
    for a in s.on_rtsp_bytes(bytes, Clock::start().now()) {
        if let ServeAction::WriteRtsp { ends_later, .. } = a {
            assert!(!ends_later);
            s.on_rtsp_write_error("broken pipe", ends_later);
        }
    }
    assert_eq!(reason(&s.end_of_pass()), Some("RTSP write: broken pipe"));
    // What comes after it has the last word.
    s.on_rtsp_read_error("reset");
    assert_eq!(reason(&s.end_of_pass()), Some("RTSP read: reset"));
    s.on_rtsp_write_error("gone", false);
    assert_eq!(reason(&s.end_of_pass()), Some("RTSP write: gone"));
}

#[test]
fn a_peer_is_remembered_once() {
    let mut s = idle();
    let came = Event::ClientConnected {
        mac: "02:AA:00:00:00:01".into(),
    };
    let acts = s.on_radio(&came, &[0; 4]);
    assert!(matches!(&acts[..], [ServeAction::WritePeers(t)] if t.ends_with("02:aa:00:00:00:01\n")));
    assert!(s.on_radio(&came, &[0; 4]).is_empty());
    assert!(s.knows("02:aa:00:00:00:01"));
}
