//! Loss numbers in, a bitrate ceiling out.
//!
//! A 2.4 GHz link that is losing packets does not recover by being asked for
//! more data. Falling is instant and rising is slow on purpose: that asymmetry
//! is what stops the request oscillating on a link that is marginal rather
//! than broken.
use vstd::prelude::*;
use crate::time::{since, Instant};

verus! {

/// Three rungs. More would be noise at 720p30 on a 2.4 GHz radio.
pub const LADDER: [u32; 3] = [8000, 4000, 2000];

/// A second is bad at five losses. At 720p30 a frame is roughly 24 datagrams,
/// so this sits well above the single-packet noise floor and well below a
/// visibly damaged second.
pub const BAD_SECOND: u64 = 5;

/// Clean seconds needed per step back up.
pub const CLEAN_PER_STEP: u32 = 10;

/// The ladder acts at most once per second, whatever the caller does.
/// Nanoseconds.
pub const SAMPLE_INTERVAL: u64 = 1_000_000_000;

pub struct BitrateLadder {
    /// Index into `LADDER`; 0 is the top.
    rung: usize,
    clean: u32,
    last_loss: u64,
    last_sample: Option<Instant>,
}

#[verifier::ext_equal]
pub struct LadderState {
    pub rung: int,
    pub clean: u32,
    pub last_loss: u64,
    pub last_sample: Option<Instant>,
}

impl View for BitrateLadder {
    type V = LadderState;

    closed spec fn view(&self) -> LadderState {
        LadderState {
            rung: self.rung as int,
            clean: self.clean,
            last_loss: self.last_loss,
            last_sample: self.last_sample,
        }
    }
}

/// The ceiling of a rung.
pub open spec fn ceiling(rung: int) -> u32 {
    if rung == 0 {
        8000
    } else if rung == 1 {
        4000
    } else {
        2000
    }
}

impl LadderState {
    pub open spec fn init() -> LadderState {
        LadderState { rung: 0, clean: 0, last_loss: 0, last_sample: None }
    }

    pub open spec fn valid(self) -> bool {
        0 <= self.rung < 3
    }

    /// The losses since the last sample.
    pub open spec fn new_losses(self, cumulative: u64) -> int {
        if cumulative >= self.last_loss {
            cumulative - self.last_loss
        } else {
            0
        }
    }

    /// Whether a sample comes less than a second after the last one.
    pub open spec fn too_soon(self, now: Instant) -> bool {
        self.last_sample matches Some(t) && since(now, t) < SAMPLE_INTERVAL
    }
}

/// What a sample of the cumulative loss counter comes to: nothing inside a
/// second of the last one; straight to the floor after a bad second; one rung
/// up after ten clean ones. A new ceiling is reported when it changed.
pub open spec fn sampled(s: LadderState, cumulative: u64, now: Instant) -> (
    LadderState,
    Option<u32>,
) {
    let t = LadderState { last_loss: cumulative, last_sample: Some(now), ..s };
    let clean = vstd::wrapping::u32_specs::wrapping_add(s.clean, 1);
    if s.too_soon(now) {
        (s, None)
    } else if s.new_losses(cumulative) >= BAD_SECOND {
        (
            LadderState { rung: 2, clean: 0, ..t },
            if s.rung == 2 {
                None
            } else {
                Some(ceiling(2))
            },
        )
    } else if clean >= CLEAN_PER_STEP && s.rung > 0 {
        (LadderState { rung: s.rung - 1, clean: 0, ..t }, Some(ceiling(s.rung - 1)))
    } else {
        (LadderState { clean, ..t }, None)
    }
}

impl Default for BitrateLadder {
    fn default() -> (l: Self)
        ensures
            l@ == LadderState::init(),
            l@.valid(),
    {
        BitrateLadder::new()
    }
}

impl BitrateLadder {
    pub fn new() -> (l: Self)
        ensures
            l@ == LadderState::init(),
            l@.valid(),
    {
        BitrateLadder { rung: 0, clean: 0, last_loss: 0, last_sample: None }
    }

    pub fn current_kbps(&self) -> (k: u32)
        requires
            self@.valid(),
        ensures
            k == ceiling(self@.rung),
    {
        LADDER[self.rung]
    }

    /// Feeds the cumulative loss counter. Returns the new ceiling when it
    /// changed and the source must be told, and `None` otherwise.
    pub fn sample(&mut self, cumulative_loss: u64, now: Instant) -> (r: Option<u32>)
        requires
            old(self)@.valid(),
        ensures
            (final(self)@, r) == sampled(old(self)@, cumulative_loss, now),
            final(self)@.valid(),
    {
        if let Some(t) = self.last_sample {
            if now.saturating_duration_since(t).nanos < SAMPLE_INTERVAL {
                return None;
            }
        }
        // The very first call has no `last_sample` to compare against, so it
        // always bypasses the rate limit above. Intentional: there is nothing
        // to rate-limit against yet.
        self.last_sample = Some(now);
        let delta: u64 = cumulative_loss.saturating_sub(self.last_loss);
        self.last_loss = cumulative_loss;
        if delta >= BAD_SECOND {
            self.clean = 0;
            let floor: usize = 2;
            if self.rung == floor {
                return None;
            }
            self.rung = floor;
            return Some(self.current_kbps());
        }
        self.clean = self.clean.wrapping_add(1);
        if self.clean >= CLEAN_PER_STEP && self.rung > 0 {
            self.clean = 0;
            self.rung = self.rung - 1;
            return Some(self.current_kbps());
        }
        None
    }
}

// ---- laws ----

/// A ceiling is reported exactly when it changed, and it is the one that now
/// holds: the source is never told the same thing twice.
pub proof fn law_only_changes_are_reported(s: LadderState, cumulative: u64, now: Instant)
    requires
        s.valid(),
    ensures
        sampled(s, cumulative, now).0.valid(),
        sampled(s, cumulative, now).1 == if sampled(s, cumulative, now).0.rung == s.rung {
            None::<u32>
        } else {
            Some(ceiling(sampled(s, cumulative, now).0.rung))
        },
{
}

/// Falling is instant, to the floor; rising is one rung, and only after ten
/// seconds in a row without a bad one.
pub proof fn law_falling_is_instant_and_rising_is_slow(s: LadderState, cumulative: u64, now: Instant)
    requires
        s.valid(),
        s.clean < u32::MAX,
    ensures
        ({
            let t = sampled(s, cumulative, now).0;
            &&& t.rung > s.rung ==> t.rung == 2 && s.new_losses(cumulative) >= 5
            &&& t.rung < s.rung ==> t.rung == s.rung - 1 && s.clean >= 9 && s.new_losses(cumulative)
                < 5
            &&& !s.too_soon(now) && s.new_losses(cumulative) >= 5 ==> t.rung == 2 && t.clean == 0
        }),
{
}

/// However many samples are taken within a second, they are one second: none
/// but the first has any effect.
pub proof fn law_one_sample_a_second(s: LadderState, cumulative: u64, at: Instant, later: Instant)
    requires
        !s.too_soon(at),
        since(later, at) < 1_000_000_000,
    ensures
        ({
            let t = sampled(s, cumulative, at).0;
            forall|loss: u64| #[trigger] sampled(t, loss, later) == (t, None::<u32>)
        }),
{
}

/// A link whose every other second is bad never climbs: the clean seconds do
/// not add up to ten.
pub proof fn law_a_flapping_link_does_not_oscillate(
    s: LadderState,
    bad: u64,
    clean: u64,
    t1: Instant,
    t2: Instant,
)
    requires
        s.valid(),
        !s.too_soon(t1),
        s.new_losses(bad) >= 5,
    ensures
        ({
            let low = sampled(s, bad, t1).0;
            let (next, report) = sampled(low, clean, t2);
            &&& low.rung == 2
            &&& next.rung == 2
            &&& report is None
        }),
{
}

/// What a sample does, in numbers: within a second of the last one nothing; five
/// new losses or more put the ceiling at 2000; and the tenth second or later with
/// fewer puts it at 4000 or at 8000, whichever is next, and starts the count over.
pub proof fn law_what_a_sample_does(s: LadderState, cumulative: u64, now: Instant)
    requires
        s.valid(),
        s.clean < u32::MAX,
    ensures
        ({
            let soon = s.last_sample matches Some(t) && now.nanos < t.nanos + 1_000_000_000;
            let bad = cumulative >= s.last_loss + 5;
            let tenth = s.clean >= 9;
            let (t, told) = sampled(s, cumulative, now);
            &&& soon ==> t == s && told is None
            &&& !soon ==> t.last_loss == cumulative && t.last_sample == Some(now)
            &&& !soon && bad ==> t.rung == 2 && t.clean == 0
            &&& !soon && bad && s.rung == 2 ==> told is None
            &&& !soon && bad && s.rung != 2 ==> told == Some(2000u32)
            &&& !soon && !bad && tenth && s.rung == 2 ==> t.rung == 1 && t.clean == 0 && told
                == Some(4000u32)
            &&& !soon && !bad && tenth && s.rung == 1 ==> t.rung == 0 && t.clean == 0 && told
                == Some(8000u32)
            &&& !soon && !bad && (!tenth || s.rung == 0) ==> t.rung == s.rung && t.clean == s.clean
                + 1 && told is None
        }),
{
}

/// The ceilings, from the top.
pub proof fn law_the_ceilings(s: LadderState)
    requires
        s.valid(),
    ensures
        s.rung == 0 ==> ceiling(s.rung) == 8000,
        s.rung == 1 ==> ceiling(s.rung) == 4000,
        s.rung == 2 ==> ceiling(s.rung) == 2000,
        LadderState::init().rung == 0,
        LadderState::init().clean == 0,
        LadderState::init().last_loss == 0,
        LadderState::init().last_sample is None,
{
}

} // verus!
