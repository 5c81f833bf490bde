//! Keeping the picture with the sound.
use castr::media::clock::AvClock;

#[test]
fn video_follows_audio_when_audio_flowing() {
    let mut c = AvClock::new();
    c.audio_played(1_000_000, 50_000);
    assert_eq!(c.presented_ts(50_000), Some(1_000_000));
    assert_eq!(c.presented_ts(60_000), Some(1_010_000));
    assert!(!c.video_due(1_020_000, 60_000));
    assert!(c.video_due(1_020_000, 70_000));
}

#[test]
fn audio_stale_after_200ms() {
    let mut c = AvClock::new();
    c.audio_played(0, 0);
    assert!(!c.audio_stale(199_999));
    assert!(c.audio_stale(200_000));
    assert!(AvClock::new().audio_stale(0));
}

#[test]
fn video_without_audio_uses_learned_offset() {
    let mut c = AvClock::new();
    assert!(c.video_due(5_000_000, 100));
    assert!(!c.video_due(5_010_000, 5_000));
    assert!(c.video_due(5_010_000, 10_100));
}

#[test]
fn stale_audio_falls_back_to_last_known_delta() {
    let mut c = AvClock::new();
    c.audio_played(1_000_000, 50_000);
    assert!(c.video_due(1_250_000, 300_000));
    assert!(!c.video_due(1_300_000, 300_000));
    assert!(c.video_due(1_300_000, 350_000));
}
