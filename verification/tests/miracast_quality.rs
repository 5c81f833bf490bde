//! The bitrate ladder.
use castr::miracast::quality::BitrateLadder;
use castr::time::{Clock, Duration, Instant};

fn now() -> Instant {
    Clock::start().now()
}

#[test]
fn one_bad_second_goes_straight_to_the_floor() {
    let mut l = BitrateLadder::new();
    let t0 = now();
    assert_eq!(l.current_kbps(), 8000);
    assert_eq!(l.sample(5, t0.after(Duration::from_secs(1))), Some(2000));
    assert_eq!(l.current_kbps(), 2000);
}

#[test]
fn a_quiet_second_asks_for_nothing() {
    let mut l = BitrateLadder::new();
    let t0 = now();
    assert_eq!(l.sample(4, t0.after(Duration::from_secs(1))), None, "under the threshold");
    assert_eq!(l.current_kbps(), 8000);
}

#[test]
fn ten_clean_seconds_buy_one_step_back_up() {
    let mut l = BitrateLadder::new();
    let mut t = now();
    t = t.after(Duration::from_secs(1));
    assert_eq!(l.sample(9, t), Some(2000));
    // Nine clean seconds are not enough.
    for _ in 0..9 {
        t = t.after(Duration::from_secs(1));
        assert_eq!(l.sample(9, t), None);
    }
    t = t.after(Duration::from_secs(1));
    assert_eq!(l.sample(9, t), Some(4000), "the tenth clean second");
    for _ in 0..9 {
        t = t.after(Duration::from_secs(1));
        assert_eq!(l.sample(9, t), None);
    }
    t = t.after(Duration::from_secs(1));
    assert_eq!(l.sample(9, t), Some(8000), "back to the top");
}

#[test]
fn a_flapping_link_does_not_oscillate() {
    let mut l = BitrateLadder::new();
    let mut t = now();
    let mut loss = 0;
    // Alternating bad and clean seconds: the clean ones never accumulate to
    // ten, so after the first drop nothing further is ever requested.
    let mut requests = Vec::new();
    for i in 0..40 {
        t = t.after(Duration::from_secs(1));
        if i % 2 == 0 {
            loss += 5;
        }
        if let Some(k) = l.sample(loss, t) {
            requests.push(k);
        }
    }
    assert_eq!(requests, vec![2000], "one drop, no climb, no flapping");
}

#[test]
fn samples_closer_than_a_second_are_ignored() {
    let mut l = BitrateLadder::new();
    let t0 = now();
    // The first sample of all is never held back, so it says nothing about
    // the spacing.
    assert_eq!(l.sample(0, t0.after(Duration::from_millis(100))), None);
    // A loss well above the bad-second threshold would trigger a drop on
    // its own, so only the spacing can explain a `None` here.
    assert_eq!(l.sample(99, t0.after(Duration::from_millis(200))), None,
               "a burst inside one second is still one second");
}

#[test]
fn the_floor_is_never_requested_twice() {
    let mut l = BitrateLadder::new();
    let mut t = now();
    t = t.after(Duration::from_secs(1));
    assert_eq!(l.sample(10, t), Some(2000));
    t = t.after(Duration::from_secs(1));
    assert_eq!(l.sample(20, t), None, "already at the floor");
}
