//! What a display does between sessions.
use castr::miracast::lifecycle::{Action, Event, Lifecycle, Phase};
use castr::time::{Clock, Duration, Instant};

fn now() -> Instant {
    Clock::start().now()
}

#[test]
fn a_new_session_takes_the_display() {
    let mut l = Lifecycle::new();
    assert_eq!(l.phase(), Phase::Advertising);
    let out = l.on(Event::Connected, now());
    assert_eq!(l.phase(), Phase::Streaming);
    assert!(out.contains(&Action::AcquireDisplay), "{out:?}");
}

#[test]
fn a_blip_resumes_without_releasing_the_display() {
    let mut l = Lifecycle::new();
    let t0 = now();
    l.on(Event::Connected, t0);
    let lost = l.on(Event::Ended, t0);
    assert_eq!(l.phase(), Phase::Holding);
    assert!(
        !lost.iter().any(|a| matches!(a, Action::ReleaseDisplay)),
        "the screen stays theirs: {lost:?}"
    );
    assert!(lost.contains(&Action::ShowReconnecting), "{lost:?}");

    let back = l.on(Event::Connected, t0.after(Duration::from_secs(3)));
    assert_eq!(l.phase(), Phase::Streaming);
    assert!(back.contains(&Action::ClearOverlay), "{back:?}");
    assert!(
        !back.iter().any(|a| matches!(a, Action::AcquireDisplay)),
        "it was never released, so it is not re-acquired: {back:?}"
    );
}

#[test]
fn the_hold_expires_after_thirty_seconds() {
    let mut l = Lifecycle::new();
    let t0 = now();
    l.on(Event::Connected, t0);
    l.on(Event::Ended, t0);
    assert!(l.tick(t0.after(Duration::from_secs(29))).is_empty(), "still holding");
    let expired = l.tick(t0.after(Duration::from_secs(31)));
    assert_eq!(l.phase(), Phase::Advertising);
    assert!(expired.contains(&Action::ReleaseDisplay), "{expired:?}");
    assert!(expired.contains(&Action::ClearOverlay), "{expired:?}");
}

#[test]
fn the_hold_expires_only_once() {
    let mut l = Lifecycle::new();
    let t0 = now();
    l.on(Event::Connected, t0);
    l.on(Event::Ended, t0);
    l.tick(t0.after(Duration::from_secs(31)));
    assert!(l.tick(t0.after(Duration::from_secs(32))).is_empty());
    assert!(l.tick(t0.after(Duration::from_secs(90))).is_empty());
}

#[test]
fn a_radio_error_rebuilds_the_group_and_gives_the_screen_back() {
    let mut l = Lifecycle::new();
    let t0 = now();
    l.on(Event::Connected, t0);
    let out = l.on(Event::RadioError, t0);
    assert_eq!(l.phase(), Phase::Advertising);
    assert!(out.contains(&Action::ReleaseDisplay), "{out:?}");
    assert!(out.contains(&Action::RebuildGroup), "{out:?}");
}

#[test]
fn a_radio_error_while_advertising_still_rebuilds() {
    let mut l = Lifecycle::new();
    let out = l.on(Event::RadioError, now());
    assert!(out.contains(&Action::RebuildGroup), "{out:?}");
    assert!(
        !out.contains(&Action::ReleaseDisplay),
        "nothing was held, so nothing is released: {out:?}"
    );
}

#[test]
fn a_second_connection_while_streaming_changes_nothing() {
    let mut l = Lifecycle::new();
    let t0 = now();
    l.on(Event::Connected, t0);
    let again = l.on(Event::Connected, t0);
    assert_eq!(l.phase(), Phase::Streaming);
    assert!(again.is_empty(), "{again:?}");
}

#[test]
fn an_end_while_advertising_is_ignored() {
    let mut l = Lifecycle::new();
    let out = l.on(Event::Ended, now());
    assert_eq!(l.phase(), Phase::Advertising);
    assert!(out.is_empty(), "{out:?}");
}
