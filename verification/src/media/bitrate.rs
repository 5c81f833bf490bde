//! How many bits, and how large a picture, the link and the receiver can take.
use vstd::prelude::*;
use crate::proto::{Mode, Stats};

verus! {

pub const MIN_BITRATE: u32 = 1_000_000;

/// A cut is followed by no other for this long.
pub const CUT_GUARD_US: u64 = 500_000;

/// Clean time that earns more bits.
pub const CLEAN_RAISE_US: u64 = 1_000_000;

/// Time at the lowest rate that costs resolution.
pub const FLOOR_STEP_DOWN_US: u64 = 2_000_000;

/// Clean time that at first earns resolution back.
pub const CLEAN_STEP_UP_US: u64 = 5_000_000;

/// Game mode: a decode queue that stays deep with no packet loss means the
/// receiver cannot decode this resolution in real time; bitrate cuts will not
/// help, so step the resolution down after this long.
pub const QUEUE_STEP_DOWN_US: u64 = 1_000_000;

pub const MAX_STEP_UP_WAIT_US: u64 = 60_000_000;

/// The double nearest to 0.7, in units of 2^-53.
pub const SEVEN_TENTHS: u64 = 6_305_039_478_318_694;

/// The double nearest to 0.85, in units of 2^-53.
pub const SEVENTEEN_TWENTIETHS: u64 = 7_656_119_366_529_843;

/// 2^53: a double has this many values to a binary order of magnitude, and half
/// of that.
pub const DOUBLE_UNITS: u64 = 9_007_199_254_740_992;

#[derive(Debug, Clone, Copy, PartialEq, Eq, Structural)]
pub struct Resolution {
    pub width: u32,
    pub height: u32,
}

#[derive(Debug, Clone, Copy, PartialEq, Eq, Structural)]
pub struct Decision {
    pub bitrate_bps: u32,
    pub resolution: Resolution,
}

pub struct BitrateController {
    ceiling: u32,
    bitrate: u32,
    pub ladder: Vec<Resolution>,
    rung: usize,
    mode: Mode,
    last_cut_us: Option<u64>,
    clean_since_us: Option<u64>,
    at_floor_since_us: Option<u64>,
    last_raise_us: Option<u64>,
    last_step_up_us: Option<u64>,
    queue_high_since_us: Option<u64>,
    /// Clean time required before stepping resolution back up. Doubles every
    /// time a rung proves too heavy for the receiver's decoder, so a slow
    /// receiver is not bounced between resolutions every few seconds.
    step_up_wait_us: u64,
}

#[verifier::ext_equal]
pub struct ControllerState {
    pub ceiling: u32,
    pub bitrate: u32,
    pub ladder: Seq<Resolution>,
    pub rung: int,
    pub mode: Mode,
    pub last_cut_us: Option<u64>,
    pub clean_since_us: Option<u64>,
    pub at_floor_since_us: Option<u64>,
    pub last_raise_us: Option<u64>,
    pub last_step_up_us: Option<u64>,
    pub queue_high_since_us: Option<u64>,
    pub step_up_wait_us: u64,
}

impl View for BitrateController {
    type V = ControllerState;

    closed spec fn view(&self) -> ControllerState {
        ControllerState {
            ceiling: self.ceiling,
            bitrate: self.bitrate,
            ladder: self.ladder@,
            rung: self.rung as int,
            mode: self.mode,
            last_cut_us: self.last_cut_us,
            clean_since_us: self.clean_since_us,
            at_floor_since_us: self.at_floor_since_us,
            last_raise_us: self.last_raise_us,
            last_step_up_us: self.last_step_up_us,
            queue_high_since_us: self.queue_high_since_us,
            step_up_wait_us: self.step_up_wait_us,
        }
    }
}

// ---- a product of doubles, in whole numbers ----

/// The spacing of the doubles around `p`, where it is at least `u`.
pub open spec fn unit_from(p: int, u: int) -> int
    decreases p - u,
{
    if u >= 1 && p >= u * DOUBLE_UNITS {
        unit_from(p, 2 * u)
    } else {
        u
    }
}

/// How many times `u` the multiple of `u` nearest to `p` is; halfway, the even
/// one.
pub open spec fn nearest(p: int, u: int) -> int {
    let q = p / u;
    let r = p % u;
    if 2 * r > u || (2 * r == u && q % 2 == 1) {
        q + 1
    } else {
        q
    }
}

/// `b` times the double `m / 2^53`, rounded to a double and then cut to a whole
/// number.
pub open spec fn scaled(b: u32, m: u64) -> int {
    let p = b * m;
    let u = unit_from(p, 1);
    nearest(p, u) * u / (DOUBLE_UNITS as int)
}

/// How far apart the doubles are at most, where such products lie.
pub proof fn lemma_unit(p: int, u: int)
    requires
        u >= 1,
        0 <= p <= 0x1_0000_0000 * DOUBLE_UNITS,
        u <= 0x2_0000_0000,
    ensures
        1 <= unit_from(p, u) <= 0x2_0000_0000,
    decreases p - u,
{
    if p >= u * DOUBLE_UNITS {
        assert(u <= 0x1_0000_0000) by (nonlinear_arith)
            requires
                u * DOUBLE_UNITS <= p,
                p <= 0x1_0000_0000 * DOUBLE_UNITS,
                DOUBLE_UNITS == 9_007_199_254_740_992,
        ;
        assert(p - 2 * u >= 0) by (nonlinear_arith)
            requires
                u * DOUBLE_UNITS <= p,
                u >= 1,
                DOUBLE_UNITS == 9_007_199_254_740_992,
        ;
        lemma_unit(p, 2 * u);
    }
}

/// Scaling by less than one never makes anything larger.
pub proof fn lemma_scaled(b: u32, m: u64)
    requires
        m < DOUBLE_UNITS,
    ensures
        0 <= scaled(b, m) <= b,
{
    let p = b * m;
    assert(0 <= p <= b * DOUBLE_UNITS) by (nonlinear_arith)
        requires
            p == b * m,
            m < DOUBLE_UNITS,
    ;
    assert(b * DOUBLE_UNITS <= 0x1_0000_0000 * DOUBLE_UNITS) by (nonlinear_arith)
        requires
            b <= 0x1_0000_0000,
    ;
    lemma_unit(p, 1);
    let u = unit_from(p, 1);
    let n = nearest(p, u);
    vstd::arithmetic::div_mod::lemma_fundamental_div_mod(p, u);
    vstd::arithmetic::div_mod::lemma_mod_bound(p, u);
    vstd::arithmetic::div_mod::lemma_div_pos_is_pos(p, u);
    assert(0 <= n * u <= p + u) by (nonlinear_arith)
        requires
            p == u * (p / u) + p % u,
            0 <= p % u < u,
            p / u >= 0,
            u >= 1,
            n == p / u || (n == p / u + 1 && 2 * (p % u) >= u),
    ;
    assert(n * u < (b + 1) * DOUBLE_UNITS) by (nonlinear_arith)
        requires
            n * u <= p + u,
            p <= b * DOUBLE_UNITS,
            u <= 0x2_0000_0000,
            DOUBLE_UNITS == 9_007_199_254_740_992,
    ;
    assert(0 <= n * u / (DOUBLE_UNITS as int) <= b) by (nonlinear_arith)
        requires
            0 <= n * u < (b + 1) * DOUBLE_UNITS,
            DOUBLE_UNITS == 9_007_199_254_740_992,
    ;
}

/// `b` times the double `m / 2^53`, rounded to a double and then cut to a whole
/// number.
fn scale(b: u32, m: u64) -> (r: u32)
    requires
        m < DOUBLE_UNITS,
    ensures
        r == scaled(b, m),
{
    proof {
        lemma_scaled(b, m);
        assert(0 <= b * m <= 0x1_0000_0000 * DOUBLE_UNITS) by (nonlinear_arith)
            requires
                b <= 0x1_0000_0000,
                m < DOUBLE_UNITS,
        ;
        lemma_unit(b * m, 1);
    }
    let p: u128 = b as u128 * m as u128;
    let mut u: u128 = 1;
    while p / DOUBLE_UNITS as u128 >= u
        invariant
            p == b * m,
            0 <= p <= 0x1_0000_0000 * DOUBLE_UNITS,
            1 <= u <= 0x2_0000_0000,
            unit_from(p as int, 1) == unit_from(p as int, u as int),
        decreases p - u,
    {
        assert(p >= u * DOUBLE_UNITS) by (nonlinear_arith)
            requires
                p / 9_007_199_254_740_992 >= u,
                DOUBLE_UNITS == 9_007_199_254_740_992,
        ;
        assert(u <= 0x1_0000_0000) by (nonlinear_arith)
            requires
                u * DOUBLE_UNITS <= p,
                p <= 0x1_0000_0000 * DOUBLE_UNITS,
                DOUBLE_UNITS == 9_007_199_254_740_992,
        ;
        assert(p - 2 * u >= 0) by (nonlinear_arith)
            requires
                u * DOUBLE_UNITS <= p,
                u >= 1,
                DOUBLE_UNITS == 9_007_199_254_740_992,
        ;
        u = 2 * u;
    }
    assert(p < u * DOUBLE_UNITS) by (nonlinear_arith)
        requires
            p / 9_007_199_254_740_992 < u,
            DOUBLE_UNITS == 9_007_199_254_740_992,
    ;
    let q: u128 = p / u;
    let r: u128 = p % u;
    assert(q <= p) by (nonlinear_arith)
        requires
            q == p / u,
            u >= 1,
    ;
    let n: u128 = if 2 * r > u || (2 * r == u && q % 2 == 1) {
        q + 1
    } else {
        q
    };
    assert(n == nearest(p as int, u as int));
    assert(n * u <= p + u) by (nonlinear_arith)
        requires
            q == p / u,
            r == p % u,
            u >= 1,
            n == q || n == q + 1,
    {
        vstd::arithmetic::div_mod::lemma_fundamental_div_mod(p as int, u as int);
    }
    (n * u / DOUBLE_UNITS as u128) as u32
}

// ---- the rules ----

/// Microseconds from `t` to `now`.
pub open spec fn elapsed(now: u64, t: u64) -> int {
    if now >= t {
        now - t
    } else {
        0
    }
}

/// Less than one fragment in two hundred lost.
pub open spec fn intact(s: Stats) -> bool {
    s.fragments_lost + s.fragments_received == 0 || 200 * s.fragments_lost < s.fragments_lost
        + s.fragments_received
}

/// More than one fragment in fifty lost.
pub open spec fn lossy(s: Stats) -> bool {
    50 * s.fragments_lost > s.fragments_lost + s.fragments_received
}

/// A report nothing is wrong with.
pub open spec fn clean(s: Stats) -> bool {
    intact(s) && s.decode_queue_depth <= 1
}

/// The larger of a rate and the lowest one.
pub open spec fn floored(b: int) -> u32 {
    if b >= MIN_BITRATE {
        b as u32
    } else {
        MIN_BITRATE
    }
}

/// The smaller of a rate and the ceiling.
pub open spec fn capped(b: int, ceiling: u32) -> u32 {
    if b <= ceiling {
        b as u32
    } else {
        ceiling
    }
}

/// When something that holds at `now` began.
pub open spec fn began(since: Option<u64>, now: u64) -> u64 {
    match since {
        Some(t) => t,
        None => now,
    }
}

/// The rungs below a native resolution: narrower, of the same shape, of even
/// height.
pub open spec fn rung_below(native: Resolution, width: u32) -> Seq<Resolution> {
    if width < native.width {
        let h = width as int * native.height as int / native.width as int;
        seq![Resolution { width, height: (h - h % 2) as u32 }]
    } else {
        seq![]
    }
}

pub open spec fn ladder_of(native: Resolution) -> Seq<Resolution> {
    seq![native] + rung_below(native, 1280) + rung_below(native, 960)
}

impl ControllerState {
    pub open spec fn valid(self) -> bool {
        &&& 0 <= self.rung < self.ladder.len()
        &&& MIN_BITRATE <= self.bitrate <= self.ceiling
        &&& CLEAN_STEP_UP_US <= self.step_up_wait_us <= MAX_STEP_UP_WAIT_US
    }

    pub open spec fn decision(self) -> Decision {
        Decision { bitrate_bps: self.bitrate, resolution: self.ladder[self.rung] }
    }

    pub open spec fn may_cut(self, now: u64) -> bool {
        match self.last_cut_us {
            Some(t) => elapsed(now, t) >= CUT_GUARD_US,
            None => true,
        }
    }

    /// Loss costs three tenths of the rate, a deep decode queue three
    /// twentieths.
    pub open spec fn cut(self, s: Stats, now: u64) -> ControllerState {
        if !self.may_cut(now) {
            self
        } else if lossy(s) {
            ControllerState {
                bitrate: floored(scaled(self.bitrate, SEVEN_TENTHS)),
                last_cut_us: Some(now),
                ..self
            }
        } else if s.decode_queue_depth > 3 {
            ControllerState {
                bitrate: floored(scaled(self.bitrate, SEVENTEEN_TWENTIETHS)),
                last_cut_us: Some(now),
                ..self
            }
        } else {
            self
        }
    }

    /// A clean second earns a twentieth of the ceiling.
    pub open spec fn raised(self, s: Stats, now: u64) -> ControllerState {
        if clean(s) {
            let since = began(self.clean_since_us, now);
            let from = match self.last_raise_us {
                Some(t) => t,
                None => since,
            };
            if elapsed(now, from) >= CLEAN_RAISE_US && self.bitrate < self.ceiling {
                ControllerState {
                    clean_since_us: Some(since),
                    bitrate: capped(self.bitrate + self.ceiling / 20, self.ceiling),
                    last_raise_us: Some(now),
                    ..self
                }
            } else {
                ControllerState { clean_since_us: Some(since), ..self }
            }
        } else {
            ControllerState { clean_since_us: None, last_raise_us: None, ..self }
        }
    }

    /// A queue that stays deep on a clean network costs resolution, and makes
    /// it harder to earn back.
    pub open spec fn queue_step(self, s: Stats, now: u64) -> ControllerState {
        if s.decode_queue_depth > 3 && intact(s) {
            let since = began(self.queue_high_since_us, now);
            if elapsed(now, since) >= QUEUE_STEP_DOWN_US && self.rung + 1 < self.ladder.len() {
                ControllerState {
                    rung: self.rung + 1,
                    queue_high_since_us: Some(now),
                    step_up_wait_us: if 2 * self.step_up_wait_us <= MAX_STEP_UP_WAIT_US {
                        (2 * self.step_up_wait_us) as u64
                    } else {
                        MAX_STEP_UP_WAIT_US
                    },
                    ..self
                }
            } else {
                ControllerState { queue_high_since_us: Some(since), ..self }
            }
        } else {
            ControllerState { queue_high_since_us: None, ..self }
        }
    }

    /// Staying at the lowest rate costs resolution.
    pub open spec fn floor_step(self, now: u64) -> ControllerState {
        if self.bitrate == MIN_BITRATE {
            let since = began(self.at_floor_since_us, now);
            if elapsed(now, since) >= FLOOR_STEP_DOWN_US && self.rung + 1 < self.ladder.len() {
                ControllerState { rung: self.rung + 1, at_floor_since_us: Some(now), ..self }
            } else {
                ControllerState { at_floor_since_us: Some(since), ..self }
            }
        } else {
            ControllerState { at_floor_since_us: None, ..self }
        }
    }

    /// Clean time earns resolution back, one rung at a time.
    pub open spec fn step_up(self, now: u64) -> ControllerState {
        match self.clean_since_us {
            Some(since) => {
                let from = match self.last_step_up_us {
                    Some(t) => if t > since {
                        t
                    } else {
                        since
                    },
                    None => since,
                };
                if elapsed(now, from) >= self.step_up_wait_us && self.rung > 0 {
                    ControllerState { rung: self.rung - 1, last_step_up_us: Some(now), ..self }
                } else {
                    self
                }
            },
            None => self,
        }
    }

    /// What a report comes to.
    pub open spec fn told(self, s: Stats, now: u64) -> ControllerState {
        let t = self.cut(s, now).raised(s, now);
        if self.mode == Mode::Game {
            t.queue_step(s, now).floor_step(now).step_up(now)
        } else {
            t
        }
    }
}

impl BitrateController {
    pub fn new(ceiling_bps: u32, initial_bps: u32, native: Resolution, mode: Mode) -> (c: Self)
        requires
            ceiling_bps >= MIN_BITRATE,
            native.width > 1280 ==> 1280 * native.height <= u32::MAX,
            native.width > 960 ==> 960 * native.height <= u32::MAX,
        ensures
            c@ == (ControllerState {
                ceiling: ceiling_bps,
                bitrate: capped(floored(initial_bps as int) as int, ceiling_bps),
                ladder: ladder_of(native),
                rung: 0,
                mode,
                last_cut_us: None,
                clean_since_us: None,
                at_floor_since_us: None,
                last_raise_us: None,
                last_step_up_us: None,
                queue_high_since_us: None,
                step_up_wait_us: CLEAN_STEP_UP_US,
            }),
            c@.valid(),
    {
        let mut ladder: Vec<Resolution> = vec![native];
        // Rungs keep the native aspect ratio (a 1920x802 desktop becomes 1280x534,
        // not a squashed 1280x720); heights are rounded to even for 4:2:0.
        if 1280 < native.width {
            ladder.push(narrowed(native, 1280));
        }
        if 960 < native.width {
            ladder.push(narrowed(native, 960));
        }
        assert(ladder@ =~= ladder_of(native));
        let bitrate: u32 = if initial_bps < MIN_BITRATE {
            MIN_BITRATE
        } else if initial_bps > ceiling_bps {
            ceiling_bps
        } else {
            initial_bps
        };
        BitrateController {
            ceiling: ceiling_bps,
            bitrate,
            ladder,
            rung: 0,
            mode,
            last_cut_us: None,
            clean_since_us: None,
            at_floor_since_us: None,
            last_raise_us: None,
            last_step_up_us: None,
            queue_high_since_us: None,
            step_up_wait_us: CLEAN_STEP_UP_US,
        }
    }

    pub fn set_mode(&mut self, mode: Mode)
        requires
            old(self)@.valid(),
        ensures
            final(self)@ == (ControllerState {
                mode,
                rung: if mode == Mode::Quality {
                    0
                } else {
                    old(self)@.rung
                },
                ..old(self)@
            }),
            final(self)@.valid(),
    {
        self.mode = mode;
        if mode == Mode::Quality {
            self.rung = 0;
        }
    }

    pub fn current(&self) -> (d: Decision)
        requires
            self@.valid(),
        ensures
            d == self@.decision(),
    {
        Decision { bitrate_bps: self.bitrate, resolution: self.ladder[self.rung] }
    }

    fn cut(&mut self, stats: &Stats, now_us: u64)
        requires
            old(self)@.valid(),
            stats.fragments_lost + stats.fragments_received <= u32::MAX,
        ensures
            final(self)@ == old(self)@.cut(*stats, now_us),
            final(self)@.valid(),
    {
        let cut_allowed = match self.last_cut_us {
            Some(t) => now_us.saturating_sub(t) >= CUT_GUARD_US,
            None => true,
        };
        let lost: u64 = stats.fragments_lost as u64;
        let total: u64 = lost + stats.fragments_received as u64;
        proof {
            lemma_scaled(self.bitrate, SEVEN_TENTHS);
            lemma_scaled(self.bitrate, SEVENTEEN_TWENTIETHS);
        }
        if 50 * lost > total && cut_allowed {
            let cut: u32 = scale(self.bitrate, SEVEN_TENTHS);
            self.bitrate = if cut >= MIN_BITRATE {
                cut
            } else {
                MIN_BITRATE
            };
            self.last_cut_us = Some(now_us);
        } else if stats.decode_queue_depth > 3 && cut_allowed {
            let cut: u32 = scale(self.bitrate, SEVENTEEN_TWENTIETHS);
            self.bitrate = if cut >= MIN_BITRATE {
                cut
            } else {
                MIN_BITRATE
            };
            self.last_cut_us = Some(now_us);
        }
    }

    fn raise(&mut self, clean: bool, now_us: u64, Ghost(stats): Ghost<Stats>)
        requires
            old(self)@.valid(),
            clean == self::clean(stats),
        ensures
            final(self)@ == old(self)@.raised(stats, now_us),
            final(self)@.valid(),
    {
        if clean {
            let since: u64 = match self.clean_since_us {
                Some(t) => t,
                None => now_us,
            };
            self.clean_since_us = Some(since);
            let from: u64 = match self.last_raise_us {
                Some(t) => t,
                None => since,
            };
            if now_us.saturating_sub(from) >= CLEAN_RAISE_US && self.bitrate < self.ceiling {
                let step: u32 = self.ceiling / 20;
                self.bitrate = if step <= self.ceiling - self.bitrate {
                    self.bitrate + step
                } else {
                    self.ceiling
                };
                self.last_raise_us = Some(now_us);
            }
        } else {
            self.clean_since_us = None;
            self.last_raise_us = None;
        }
    }

    fn queue_step(&mut self, slow: bool, now_us: u64, Ghost(stats): Ghost<Stats>)
        requires
            old(self)@.valid(),
            slow == (stats.decode_queue_depth > 3 && intact(stats)),
        ensures
            final(self)@ == old(self)@.queue_step(stats, now_us),
            final(self)@.valid(),
    {
        if slow {
            let since: u64 = match self.queue_high_since_us {
                Some(t) => t,
                None => now_us,
            };
            self.queue_high_since_us = Some(since);
            if now_us.saturating_sub(since) >= QUEUE_STEP_DOWN_US && self.rung < self.ladder.len()
                - 1 {
                self.rung = self.rung + 1;
                self.queue_high_since_us = Some(now_us);
                let wait: u64 = self.step_up_wait_us * 2;
                self.step_up_wait_us = if wait <= MAX_STEP_UP_WAIT_US {
                    wait
                } else {
                    MAX_STEP_UP_WAIT_US
                };
            }
        } else {
            self.queue_high_since_us = None;
        }
    }

    fn floor_step(&mut self, now_us: u64)
        requires
            old(self)@.valid(),
        ensures
            final(self)@ == old(self)@.floor_step(now_us),
            final(self)@.valid(),
    {
        if self.bitrate == MIN_BITRATE {
            let since: u64 = match self.at_floor_since_us {
                Some(t) => t,
                None => now_us,
            };
            self.at_floor_since_us = Some(since);
            if now_us.saturating_sub(since) >= FLOOR_STEP_DOWN_US && self.rung < self.ladder.len()
                - 1 {
                self.rung = self.rung + 1;
                self.at_floor_since_us = Some(now_us);
            }
        } else {
            self.at_floor_since_us = None;
        }
    }

    fn step_up(&mut self, now_us: u64)
        requires
            old(self)@.valid(),
        ensures
            final(self)@ == old(self)@.step_up(now_us),
            final(self)@.valid(),
    {
        if let Some(since) = self.clean_since_us {
            let from: u64 = match self.last_step_up_us {
                Some(t) => if t > since {
                    t
                } else {
                    since
                },
                None => since,
            };
            if now_us.saturating_sub(from) >= self.step_up_wait_us && self.rung > 0 {
                self.rung = self.rung - 1;
                self.last_step_up_us = Some(now_us);
            }
        }
    }

    /// What a report changes, if it changes anything.
    pub fn on_stats(&mut self, stats: &Stats, now_us: u64) -> (r: Option<Decision>)
        requires
            old(self)@.valid(),
            stats.fragments_lost + stats.fragments_received <= u32::MAX,
        ensures
            final(self)@ == old(self)@.told(*stats, now_us),
            final(self)@.valid(),
            r == if final(self)@.decision() != old(self)@.decision() {
                Some(final(self)@.decision())
            } else {
                None
            },
    {
        let before = self.current();
        let lost: u64 = stats.fragments_lost as u64;
        let total: u64 = lost + stats.fragments_received as u64;
        let intact = total == 0 || 200 * lost < total;
        let clean = intact && stats.decode_queue_depth <= 1;
        self.cut(stats, now_us);
        self.raise(clean, now_us, Ghost(*stats));
        if self.mode == Mode::Game {
            // Decoder too slow for this resolution (deep queue, clean network).
            self.queue_step(stats.decode_queue_depth > 3 && intact, now_us, Ghost(*stats));
            self.floor_step(now_us);
            self.step_up(now_us);
        }
        let after = self.current();
        if after.bitrate_bps != before.bitrate_bps || after.resolution.width
            != before.resolution.width || after.resolution.height != before.resolution.height {
            Some(after)
        } else {
            None
        }
    }
}

/// A resolution of the given width and the native shape.
fn narrowed(native: Resolution, width: u32) -> (r: Resolution)
    requires
        width < native.width,
        width * native.height <= u32::MAX,
    ensures
        seq![r] == rung_below(native, width),
{
    let h: u32 = width * native.height / native.width;
    let r = Resolution { width, height: h - h % 2 };
    assert(seq![r] =~= rung_below(native, width));
    r
}

// ---- laws ----

/// The rate stays between the lowest one and the ceiling, and the resolution on
/// the ladder, whatever is reported.
pub proof fn law_decisions_stay_in_bounds(c: ControllerState, s: Stats, now: u64)
    requires
        c.valid(),
    ensures
        c.told(s, now).valid(),
        c.told(s, now).ceiling == c.ceiling,
        c.told(s, now).ladder == c.ladder,
{
    lemma_scaled(c.bitrate, SEVEN_TENTHS);
    lemma_scaled(c.bitrate, SEVENTEEN_TWENTIETHS);
}

/// Quality mode never changes resolution.
pub proof fn law_quality_keeps_the_resolution(c: ControllerState, s: Stats, now: u64)
    requires
        c.valid(),
        c.mode == Mode::Quality,
    ensures
        c.told(s, now).decision().resolution == c.decision().resolution,
        c.told(s, now).mode == Mode::Quality,
{
}

/// Loss of two percent or less and a shallow queue never cost bits.
pub proof fn law_a_good_link_is_never_cut(c: ControllerState, s: Stats, now: u64)
    requires
        c.valid(),
        !lossy(s),
        s.decode_queue_depth <= 3,
    ensures
        c.told(s, now).bitrate >= c.bitrate,
{
}

/// Cuts are at least the guard time apart.
pub proof fn law_cuts_are_spaced(c: ControllerState, s: Stats, now: u64)
    requires
        c.valid(),
        c.told(s, now).bitrate < c.bitrate,
    ensures
        c.last_cut_us matches Some(t) ==> elapsed(now, t) >= CUT_GUARD_US,
        c.told(s, now).last_cut_us == Some(now),
{
}

/// A report moves the resolution by at most one rung up and two down.
pub proof fn law_resolution_moves_by_rungs(c: ControllerState, s: Stats, now: u64)
    requires
        c.valid(),
    ensures
        c.rung - 1 <= c.told(s, now).rung <= c.rung + 2,
{
}

/// A report that is not clean never earns resolution back.
pub proof fn law_only_clean_time_earns_resolution(c: ControllerState, s: Stats, now: u64)
    requires
        c.valid(),
        !clean(s),
    ensures
        c.told(s, now).rung >= c.rung,
        c.told(s, now).bitrate <= c.bitrate,
{
    lemma_scaled(c.bitrate, SEVEN_TENTHS);
    lemma_scaled(c.bitrate, SEVENTEEN_TWENTIETHS);
}

} // verus!
