//! Keeping the picture with the sound.
//!
//! Times are microseconds: `ts` on the sender's clock, `now` on ours.
use vstd::prelude::*;

verus! {

/// Audio that has not advanced for this long no longer leads.
pub const STALE_US: u64 = 200_000;

/// A time that both clocks can express.
pub open spec fn in_range(t: u64) -> bool {
    t <= i64::MAX
}

pub struct AvClock {
    /// (sender ts, receiver now) at the last audio update.
    audio_anchor: Option<(u64, u64)>,
    /// receiver_now - sender_ts learned when video runs without audio.
    video_offset: Option<i64>,
}

#[verifier::ext_equal]
pub struct AvClockState {
    pub audio_anchor: Option<(u64, u64)>,
    pub video_offset: Option<int>,
}

impl View for AvClock {
    type V = AvClockState;

    closed spec fn view(&self) -> AvClockState {
        AvClockState {
            audio_anchor: self.audio_anchor,
            video_offset: match self.video_offset {
                Some(o) => Some(o as int),
                None => None,
            },
        }
    }
}

impl AvClockState {
    pub open spec fn init() -> AvClockState {
        AvClockState { audio_anchor: None, video_offset: None }
    }

    /// Every time on record is one both clocks can express, and audio always
    /// leaves an offset behind.
    pub open spec fn valid(self) -> bool {
        &&& self.audio_anchor matches Some(a) ==> in_range(a.0) && in_range(a.1)
            && self.video_offset is Some
        &&& self.video_offset matches Some(o) ==> -i64::MAX <= o <= i64::MAX
    }

    /// Whether audio no longer leads.
    pub open spec fn stale(self, now: u64) -> bool {
        match self.audio_anchor {
            Some(a) => now >= a.1 && now - a.1 >= STALE_US,
            None => true,
        }
    }

    /// The sender's time that is being presented: the audio's, advanced by what
    /// has passed, while it leads; else by the offset last known.
    pub open spec fn presented(self, now: u64) -> Option<int> {
        match self.audio_anchor {
            Some(a) if !self.stale(now) => Some(
                a.0 + (if now >= a.1 {
                    now - a.1
                } else {
                    0
                }),
            ),
            _ => match self.video_offset {
                Some(o) => Some(
                    if now - o >= 0 {
                        now - o
                    } else {
                        0
                    },
                ),
                None => None,
            },
        }
    }
}

impl Default for AvClock {
    fn default() -> (c: Self)
        ensures
            c@ == AvClockState::init(),
            c@.valid(),
    {
        AvClock::new()
    }
}

impl AvClock {
    pub fn new() -> (c: Self)
        ensures
            c@ == AvClockState::init(),
            c@.valid(),
    {
        AvClock { audio_anchor: None, video_offset: None }
    }

    pub fn audio_played(&mut self, ts_us: u64, now_us: u64)
        requires
            in_range(ts_us),
            in_range(now_us),
        ensures
            final(self)@ == (AvClockState {
                audio_anchor: Some((ts_us, now_us)),
                video_offset: Some(now_us - ts_us),
            }),
            final(self)@.valid(),
    {
        self.audio_anchor = Some((ts_us, now_us));
        self.video_offset = Some(now_us as i64 - ts_us as i64);
    }

    pub fn audio_stale(&self, now_us: u64) -> (r: bool)
        ensures
            r == self@.stale(now_us),
    {
        match self.audio_anchor {
            Some((_, at)) => now_us.saturating_sub(at) >= STALE_US,
            None => true,
        }
    }

    pub fn presented_ts(&self, now_us: u64) -> (r: Option<u64>)
        requires
            self@.valid(),
            in_range(now_us),
        ensures
            r is Some <==> self@.presented(now_us) is Some,
            r matches Some(t) ==> self@.presented(now_us) == Some(t as int),
    {
        let stale = self.audio_stale(now_us);
        match self.audio_anchor {
            Some((ts, at)) => if !stale {
                return Some(ts + now_us.saturating_sub(at));
            },
            None => {},
        }
        match self.video_offset {
            Some(off) => {
                let t: i128 = now_us as i128 - off as i128;
                if t >= 0 {
                    Some(t as u64)
                } else {
                    Some(0)
                }
            },
            None => None,
        }
    }

    /// Whether a frame is due. The first frame ever is, and sets the offset.
    pub fn video_due(&mut self, frame_ts_us: u64, now_us: u64) -> (r: bool)
        requires
            old(self)@.valid(),
            in_range(frame_ts_us),
            in_range(now_us),
        ensures
            final(self)@.valid(),
            old(self)@.video_offset is None ==> r && final(self)@ == (AvClockState {
                video_offset: Some(now_us - frame_ts_us),
                ..old(self)@
            }),
            old(self)@.video_offset is Some ==> final(self)@ == old(self)@ && r == (
            old(self)@.presented(now_us).unwrap() >= frame_ts_us),
    {
        if self.video_offset.is_none() {
            self.video_offset = Some(now_us as i64 - frame_ts_us as i64);
            return true;
        }
        match self.presented_ts(now_us) {
            Some(p) => p >= frame_ts_us,
            None => true,
        }
    }
}

// ---- laws ----

/// Presented time never runs backwards as our clock advances, as long as
/// nothing new is heard and the source of it does not change.
pub proof fn law_presented_time_is_monotonic(c: AvClockState, now: u64, later: u64)
    requires
        c.valid(),
        now <= later,
        c.stale(now) == c.stale(later),
        c.presented(now) is Some,
    ensures
        c.presented(later) is Some,
        c.presented(now).unwrap() <= c.presented(later).unwrap(),
{
}

/// Losing the audio does not jump the picture: at the moment audio becomes
/// stale, the offset it left behind names the same time.
pub proof fn law_stale_audio_leaves_its_time_behind(ts: u64, at: u64, now: u64)
    requires
        in_range(ts),
        in_range(at),
        at <= now,
    ensures
        ({
            let c = AvClockState { audio_anchor: Some((ts, at)), video_offset: Some(at - ts) };
            c.presented(now) == Some(ts + (now - at))
        }),
{
}

/// What is presented: the audio's time and what has passed since it was played,
/// for less than a fifth of a second after that; from then on, and before any
/// audio, our time less the offset, or the beginning where that is negative.
/// Nothing is presented while neither is known.
pub proof fn law_what_is_presented(c: AvClockState, now: u64)
    ensures
        ({
            let leads = c.audio_anchor matches Some(a) && now < a.1 + 200_000;
            let (ts, at) = c.audio_anchor->0;
            &&& c.stale(now) <==> !leads
            &&& leads && now >= at ==> c.presented(now) == Some(
                ts + (now - at),
            )
            &&& leads && now < at ==> c.presented(now) == Some(
                ts as int,
            )
            &&& !leads && c.video_offset is None ==> c.presented(now) is None
            &&& !leads && c.video_offset is Some && now >= c.video_offset->0 ==> c.presented(now)
                == Some(now - c.video_offset->0)
            &&& !leads && c.video_offset is Some && now < c.video_offset->0 ==> c.presented(now)
                == Some(0int)
        }),
{
}

} // verus!
