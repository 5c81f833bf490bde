//! The bitrate controller.
use castr::media::bitrate::{BitrateController, MIN_BITRATE, Resolution};
use castr::proto::{Mode, Stats};

const NATIVE: Resolution = Resolution {
    width: 1920,
    height: 1080,
};
fn st(lost: u32, received: u32, queue: u32) -> Stats {
    Stats {
        frames_received: 3,
        frames_dropped: 0,
        fragments_lost: lost,
        fragments_received: received,
        decode_queue_depth: queue,
        interval_ms: 100,
    }
}
fn ctl() -> BitrateController {
    BitrateController::new(10_000_000, 5_000_000, NATIVE, Mode::Game)
}

#[test]
fn loss_over_two_percent_cuts_30_percent_once_per_500ms() {
    let mut c = ctl();
    let d = c.on_stats(&st(3, 97, 0), 0).unwrap();
    assert_eq!(d.bitrate_bps, 3_500_000);
    assert!(c.on_stats(&st(3, 97, 0), 100_000).is_none());
    assert!(c.on_stats(&st(3, 97, 0), 499_999).is_none());
    assert_eq!(
        c.on_stats(&st(3, 97, 0), 500_000).unwrap().bitrate_bps,
        2_450_000
    );
}

#[test]
fn loss_at_two_percent_is_not_a_cut() {
    let mut c = ctl();
    assert!(c.on_stats(&st(2, 98, 0), 0).is_none());
}

#[test]
fn deep_decode_queue_cuts_15_percent() {
    let mut c = ctl();
    assert_eq!(
        c.on_stats(&st(0, 100, 4), 0).unwrap().bitrate_bps,
        4_250_000
    );
    assert!(c.on_stats(&st(0, 100, 3), 600_000).is_none());
}

#[test]
fn deep_queue_without_loss_steps_resolution_down_after_one_second() {
    let mut c = ctl();
    let mut t = 0;
    let mut res = c.current().resolution;
    while t < 1_000_000 {
        if let Some(d) = c.on_stats(&st(0, 100, 5), t) {
            res = d.resolution;
        }
        t += 100_000;
    }
    assert_eq!(res, NATIVE, "no step before a full second");
    let d = c.on_stats(&st(0, 100, 5), 1_000_000).unwrap();
    assert_eq!(d.resolution, Resolution { width: 1280, height: 720 });
    // A clean tick resets the timer.
    c.on_stats(&st(0, 100, 1), 1_100_000);
    let d = c.on_stats(&st(0, 100, 5), 2_000_000);
    assert!(d.is_none_or(|d| d.resolution.width == 1280));
}

#[test]
fn queue_driven_step_down_doubles_the_clean_time_needed_to_step_up() {
    let mut c = ctl();
    // One second of deep queue: step down, and step-up now needs 10 s clean.
    for i in 0..=10 {
        c.on_stats(&st(0, 100, 5), i * 100_000);
    }
    assert_eq!(c.current().resolution.width, 1280);
    let mut t = 1_100_000;
    let mut width = 1280;
    while t < 1_100_000 + 9_900_000 {
        if let Some(d) = c.on_stats(&st(0, 100, 0), t) {
            width = d.resolution.width;
        }
        t += 100_000;
    }
    assert_eq!(width, 1280, "stepped up before 10 s clean");
    while t <= 1_100_000 + 10_100_000 {
        if let Some(d) = c.on_stats(&st(0, 100, 0), t) {
            width = d.resolution.width;
        }
        t += 100_000;
    }
    assert_eq!(width, 1920);
}

#[test]
fn ladder_keeps_the_native_aspect_ratio() {
    let c = BitrateController::new(
        10_000_000,
        5_000_000,
        Resolution { width: 1920, height: 802 },
        Mode::Game,
    );
    assert_eq!(c.ladder[1], Resolution { width: 1280, height: 534 });
    assert_eq!(c.ladder[2], Resolution { width: 960, height: 400 });
}

#[test]
fn one_second_clean_adds_5_percent_of_ceiling() {
    let mut c = ctl();
    for i in 0..10 {
        assert!(
            c.on_stats(&st(0, 100, 0), i * 100_000).is_none(),
            "tick {i}"
        );
    }
    assert_eq!(
        c.on_stats(&st(0, 100, 1), 1_000_000).unwrap().bitrate_bps,
        5_500_000
    );
    assert!(c.on_stats(&st(0, 100, 0), 1_100_000).is_none());
}

#[test]
fn dirty_interval_resets_clean_timer() {
    let mut c = ctl();
    for i in 0..9 {
        c.on_stats(&st(0, 100, 0), i * 100_000);
    }
    c.on_stats(&st(1, 99, 0), 900_000);
    assert!(c.on_stats(&st(0, 100, 0), 1_000_000).is_none());
}

#[test]
fn clamps_to_floor_and_ceiling() {
    let mut c = BitrateController::new(10_000_000, 1_200_000, NATIVE, Mode::Quality);
    assert_eq!(
        c.on_stats(&st(50, 50, 0), 0).unwrap().bitrate_bps,
        MIN_BITRATE
    );
    let mut c = BitrateController::new(10_000_000, 9_800_000, NATIVE, Mode::Quality);
    let mut t = 0;
    let mut last = None;
    for _ in 0..=10 {
        last = c.on_stats(&st(0, 100, 0), t).or(last);
        t += 100_000;
    }
    assert_eq!(last.unwrap().bitrate_bps, 10_000_000);
}

#[test]
fn game_mode_steps_resolution_down_after_2s_at_floor_and_up_after_5s_clean() {
    let mut c = BitrateController::new(10_000_000, MIN_BITRATE, NATIVE, Mode::Game);
    let mut t = 0;
    let mut last = c.current();
    for _ in 0..21 {
        if let Some(d) = c.on_stats(&st(5, 95, 0), t) {
            last = d;
        }
        t += 100_000;
    }
    assert_eq!(
        last.resolution,
        Resolution {
            width: 1280,
            height: 720
        }
    );
    assert_eq!(last.bitrate_bps, MIN_BITRATE);
    for _ in 0..51 {
        if let Some(d) = c.on_stats(&st(0, 100, 0), t) {
            last = d;
        }
        t += 100_000;
    }
    assert_eq!(last.resolution, NATIVE);
}

#[test]
fn quality_mode_never_changes_resolution() {
    let mut c = BitrateController::new(10_000_000, MIN_BITRATE, NATIVE, Mode::Quality);
    let mut t = 0;
    for _ in 0..30 {
        c.on_stats(&st(5, 95, 0), t);
        t += 100_000;
    }
    assert_eq!(c.current().resolution, NATIVE);
}

#[test]
fn small_native_skips_larger_rungs() {
    let small = Resolution {
        width: 1280,
        height: 720,
    };
    let mut c = BitrateController::new(10_000_000, MIN_BITRATE, small, Mode::Game);
    let mut t = 0;
    let mut last = c.current();
    for _ in 0..21 {
        if let Some(d) = c.on_stats(&st(5, 95, 0), t) {
            last = d;
        }
        t += 100_000;
    }
    assert_eq!(
        last.resolution,
        Resolution {
            width: 960,
            height: 540
        }
    );
}
