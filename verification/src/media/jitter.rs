//! Frames between the network and the decoder.
//!
//! Game mode shows the newest picture there is; Quality mode holds every frame
//! back by the same delay, so that the network's jitter does not show.
use vstd::prelude::*;
use std::collections::VecDeque;
use crate::proto::{frame_newer_or_eq, newer_or_eq, CompleteFrame, Mode};

verus! {

pub const QUALITY_DELAY_US: u64 = 150_000;

/// What a frame is.
#[verifier::ext_equal]
pub struct FrameView {
    pub stream: u8,
    pub frame_number: u32,
    pub timestamp_us: u64,
    pub keyframe: bool,
    pub data: Seq<u8>,
}

impl View for CompleteFrame {
    type V = FrameView;

    open spec fn view(&self) -> FrameView {
        FrameView {
            stream: self.stream,
            frame_number: self.frame_number,
            timestamp_us: self.timestamp_us,
            keyframe: self.keyframe,
            data: self.data@,
        }
    }
}

/// What a run of frames is.
pub open spec fn frame_views(v: Seq<CompleteFrame>) -> Seq<FrameView> {
    Seq::new(v.len(), |i: int| v[i]@)
}

pub struct JitterBuffer {
    mode: Mode,
    interval_us: u64,
    frames: VecDeque<CompleteFrame>,
    last_popped: Option<u32>,
    base_us: Option<i128>,
    dropped: u32,
}

#[verifier::ext_equal]
pub struct JitterState {
    pub mode: Mode,
    pub interval_us: u64,
    pub frames: Seq<FrameView>,
    pub last_popped: Option<u32>,
    /// What turns a frame's time into the time it is due here.
    pub base_us: Option<int>,
    pub dropped: u32,
}

impl View for JitterBuffer {
    type V = JitterState;

    closed spec fn view(&self) -> JitterState {
        JitterState {
            mode: self.mode,
            interval_us: self.interval_us,
            frames: frame_views(self.frames@),
            last_popped: self.last_popped,
            base_us: match self.base_us {
                Some(b) => Some(b as int),
                None => None,
            },
            dropped: self.dropped,
        }
    }
}

/// The first place from `i` on whose frame is not before `number`.
pub open spec fn place(fs: Seq<FrameView>, number: u32, i: int) -> int
    decreases fs.len() - i,
{
    if i >= fs.len() {
        fs.len() as int
    } else if newer_or_eq(fs[i].frame_number, number) {
        i
    } else {
        place(fs, number, i + 1)
    }
}

/// The frames with one more in its place; one that is already there is not
/// taken twice.
pub open spec fn placed(fs: Seq<FrameView>, f: FrameView) -> Seq<FrameView> {
    let k = place(fs, f.frame_number, 0);
    if k < fs.len() && fs[k].frame_number == f.frame_number {
        fs
    } else {
        fs.insert(k, f)
    }
}

/// The newest keyframe among the frames up to `idx`, or -1.
pub open spec fn newest_key(fs: Seq<FrameView>, idx: int) -> int
    decreases idx + 1,
{
    if idx < 0 {
        -1
    } else if fs[idx].keyframe {
        idx
    } else {
        newest_key(fs, idx - 1)
    }
}

/// Of the frames up to `idx`, the newest keyframe if there is one, else `idx`.
pub open spec fn preferred(fs: Seq<FrameView>, idx: int) -> int {
    if newest_key(fs, idx) >= 0 {
        newest_key(fs, idx)
    } else {
        idx
    }
}

/// The last of the frames from `i` on that are due without a gap.
pub open spec fn last_due(fs: Seq<FrameView>, base: int, now: u64, i: int) -> int
    decreases fs.len() - i,
{
    if i + 1 < fs.len() && fs[i + 1].timestamp_us + base <= now {
        last_due(fs, base, now, i + 1)
    } else {
        i
    }
}

impl JitterState {
    /// Due times are known for whatever is held.
    pub open spec fn valid(self) -> bool {
        &&& self.frames.len() > 0 ==> self.base_us is Some
        &&& self.base_us matches Some(b) ==> -0x2_0000_0000_0000_0000 <= b
            <= 0x2_0000_0000_0000_0000
    }

    /// Whether a frame comes too late to be shown.
    pub open spec fn late(self, number: u32) -> bool {
        match self.last_popped {
            Some(last) => !newer_or_eq(number, last) || number == last,
            None => false,
        }
    }

    /// The state once `n` more frames have been dropped.
    pub open spec fn dropping(self, n: int) -> u32 {
        ((self.dropped + n) % 0x1_0000_0000) as u32
    }

    /// Which of the frames is to be shown, if any is.
    pub open spec fn due(self, now: u64) -> Option<int> {
        if self.frames.len() == 0 {
            None
        } else {
            match self.mode {
                Mode::Game => Some(preferred(self.frames, self.frames.len() - 1)),
                Mode::Quality => {
                    let base = self.base_us.unwrap();
                    let first = self.frames[0].timestamp_us + base;
                    let last = last_due(self.frames, base, now, 0);
                    if first > now {
                        None
                    } else if last > 0 && now - first > self.interval_us {
                        // More than one interval late with a newer one due.
                        Some(preferred(self.frames, last))
                    } else {
                        Some(0)
                    }
                },
            }
        }
    }
}

/// What a frame that arrives comes to.
pub open spec fn pushed(s: JitterState, f: FrameView, now: u64) -> JitterState {
    if s.late(f.frame_number) {
        JitterState { dropped: s.dropping(1), ..s }
    } else {
        JitterState {
            base_us: match s.base_us {
                Some(b) => Some(b),
                None => Some(now - f.timestamp_us + QUALITY_DELAY_US),
            },
            frames: placed(s.frames, f),
            ..s
        }
    }
}

/// What asking for a frame comes to: the one to be shown, and everything before
/// it dropped.
pub open spec fn popped(s: JitterState, now: u64) -> (JitterState, Option<FrameView>) {
    match s.due(now) {
        None => (s, None),
        Some(k) => (
            JitterState {
                frames: s.frames.skip(k + 1),
                last_popped: Some(s.frames[k].frame_number),
                dropped: s.dropping(k),
                ..s
            },
            Some(s.frames[k]),
        ),
    }
}

pub proof fn lemma_place(fs: Seq<FrameView>, number: u32, i: int)
    requires
        0 <= i <= fs.len(),
    ensures
        i <= place(fs, number, i) <= fs.len(),
    decreases fs.len() - i,
{
    if i < fs.len() && !newer_or_eq(fs[i].frame_number, number) {
        lemma_place(fs, number, i + 1);
    }
}

pub proof fn lemma_newest_key(fs: Seq<FrameView>, idx: int)
    ensures
        -1 <= newest_key(fs, idx),
        idx >= 0 ==> newest_key(fs, idx) <= idx,
        newest_key(fs, idx) >= 0 ==> fs[newest_key(fs, idx)].keyframe,
        forall|k: int| newest_key(fs, idx) < k <= idx && 0 <= k ==> !(#[trigger] fs[k]).keyframe,
    decreases idx + 1,
{
    if idx >= 0 && !fs[idx].keyframe {
        lemma_newest_key(fs, idx - 1);
    }
}

proof fn lemma_last_due(fs: Seq<FrameView>, base: int, now: u64, i: int)
    requires
        0 <= i < fs.len(),
    ensures
        i <= last_due(fs, base, now, i) < fs.len(),
    decreases fs.len() - i,
{
    if i + 1 < fs.len() && fs[i + 1].timestamp_us + base <= now {
        lemma_last_due(fs, base, now, i + 1);
    }
}

impl JitterBuffer {
    pub fn new(mode: Mode, frame_interval_us: u64) -> (j: Self)
        ensures
            j@ == (JitterState {
                mode,
                interval_us: frame_interval_us,
                frames: Seq::empty(),
                last_popped: None,
                base_us: None,
                dropped: 0,
            }),
            j@.valid(),
    {
        let j = JitterBuffer {
            mode,
            interval_us: frame_interval_us,
            frames: VecDeque::new(),
            last_popped: None,
            base_us: None,
            dropped: 0,
        };
        assert(j@.frames =~= Seq::empty());
        j
    }

    pub fn set_mode(&mut self, mode: Mode)
        ensures
            final(self)@ == (JitterState {
                mode,
                frames: Seq::empty(),
                base_us: None,
                ..old(self)@
            }),
            final(self)@.valid(),
    {
        self.mode = mode;
        self.flush();
    }

    pub fn flush(&mut self)
        ensures
            final(self)@ == (JitterState { frames: Seq::empty(), base_us: None, ..old(self)@ }),
            final(self)@.valid(),
    {
        self.frames.clear();
        self.base_us = None;
        assert(self@.frames =~= Seq::empty());
    }

    pub fn depth(&self) -> (n: usize)
        ensures
            n == self@.frames.len(),
    {
        self.frames.len()
    }

    /// How many frames were dropped since this was last asked.
    pub fn dropped(&mut self) -> (n: u32)
        ensures
            n == old(self)@.dropped,
            final(self)@ == (JitterState { dropped: 0, ..old(self)@ }),
    {
        let n: u32 = self.dropped;
        self.dropped = 0;
        n
    }

    pub fn push(&mut self, frame: CompleteFrame, now_us: u64)
        requires
            old(self)@.valid(),
        ensures
            final(self)@ == pushed(old(self)@, frame@, now_us),
            final(self)@.valid(),
    {
        let ghost f = frame@;
        let number: u32 = frame.frame_number;
        if let Some(last) = self.last_popped {
            if !frame_newer_or_eq(number, last) || number == last {
                self.dropped = self.dropped.wrapping_add(1);
                return;
            }
        }
        if self.base_us.is_none() {
            self.base_us = Some(
                now_us as i128 - frame.timestamp_us as i128 + QUALITY_DELAY_US as i128,
            );
        }
        let n: usize = self.frames.len();
        let mut i: usize = 0;
        while i < n && !frame_newer_or_eq(self.frames[i].frame_number, number)
            invariant
                i <= n,
                n == self.frames@.len(),
                place(self@.frames, number, 0) == place(self@.frames, number, i as int),
            decreases n - i,
        {
            assert(self@.frames[i as int].frame_number == self.frames@[i as int].frame_number);
            i = i + 1;
        }
        assert(i < n ==> self@.frames[i as int].frame_number
            == self.frames@[i as int].frame_number);
        assert(place(self@.frames, number, 0) == i);
        if i < n && self.frames[i].frame_number == number {
            return;
        }
        let ghost before = self.frames@;
        self.frames.insert(i, frame);
        assert(frame_views(self.frames@) =~= frame_views(before).insert(i as int, f));
    }

    /// Of the frames up to `idx`, the newest keyframe if there is one, else
    /// `idx`.
    fn pick(&self, idx: usize) -> (k: usize)
        requires
            idx < self@.frames.len(),
        ensures
            k == preferred(self@.frames, idx as int),
            k <= idx,
    {
        let n: usize = self.frames.len();
        assert(idx < n);
        let mut i: usize = idx + 1;
        while i > 0
            invariant
                i <= idx + 1,
                idx < self@.frames.len(),
                newest_key(self@.frames, idx as int) == newest_key(self@.frames, i - 1),
            decreases i,
        {
            assert(self@.frames[i - 1].keyframe == self.frames@[i - 1].keyframe);
            if self.frames[i - 1].keyframe {
                return i - 1;
            }
            i = i - 1;
        }
        idx
    }

    /// Takes the frame at `idx`, dropping everything before it.
    fn take(&mut self, idx: usize) -> (f: CompleteFrame)
        requires
            idx < old(self)@.frames.len(),
        ensures
            f@ == old(self)@.frames[idx as int],
            final(self)@ == (JitterState {
                frames: old(self)@.frames.skip(idx + 1),
                last_popped: Some(old(self)@.frames[idx as int].frame_number),
                dropped: old(self)@.dropping(idx as int),
                ..old(self)@
            }),
    {
        let ghost s0 = self@;
        let mut i: usize = 0;
        assert(s0.frames.skip(0) =~= s0.frames);
        while i < idx
            invariant
                i <= idx,
                idx < s0.frames.len(),
                s0 == old(self)@,
                self@ == (JitterState {
                    frames: s0.frames.skip(i as int),
                    dropped: s0.dropping(i as int),
                    ..s0
                }),
            decreases idx - i,
        {
            let ghost before = self@.frames;
            let _gone = self.frames.pop_front();
            self.dropped = self.dropped.wrapping_add(1);
            assert(self@.frames =~= before.skip(1));
            assert(self@.frames =~= s0.frames.skip(i + 1));
            i = i + 1;
        }
        let ghost before = self@.frames;
        assert(self.frames@.len() == before.len() && before[0] == self.frames@[0]@);
        let f = self.frames.pop_front().unwrap();
        assert(self@.frames =~= before.skip(1));
        assert(self@.frames =~= s0.frames.skip(idx + 1));
        self.last_popped = Some(f.frame_number);
        f
    }

    pub fn pop(&mut self, now_us: u64) -> (r: Option<CompleteFrame>)
        requires
            old(self)@.valid(),
        ensures
            final(self)@ == popped(old(self)@, now_us).0,
            final(self)@.valid(),
            r is Some <==> popped(old(self)@, now_us).1 is Some,
            r matches Some(f) ==> popped(old(self)@, now_us).1 == Some(f@),
    {
        if self.frames.len() == 0 {
            return None;
        }
        match self.mode {
            Mode::Game => {
                let idx = self.pick(self.frames.len() - 1);
                Some(self.take(idx))
            },
            Mode::Quality => {
                let base: i128 = self.base_us.unwrap();
                let now: i128 = now_us as i128;
                let n: usize = self.frames.len();
                assert(self@.frames[0].timestamp_us == self.frames@[0].timestamp_us);
                let first: i128 = self.frames[0].timestamp_us as i128 + base;
                if first > now {
                    return None;
                }
                let mut last: usize = 0;
                while last + 1 < n && self.frames[last + 1].timestamp_us as i128 + base <= now
                    invariant
                        last < n,
                        n == self.frames@.len(),
                        now == now_us,
                        -0x2_0000_0000_0000_0000 <= base <= 0x2_0000_0000_0000_0000,
                        last_due(self@.frames, base as int, now_us, 0) == last_due(
                            self@.frames,
                            base as int,
                            now_us,
                            last as int,
                        ),
                    decreases n - last,
                {
                    assert(self@.frames[last + 1].timestamp_us
                        == self.frames@[last + 1].timestamp_us);
                    last = last + 1;
                }
                assert(last + 1 < n ==> self@.frames[last + 1].timestamp_us
                    == self.frames@[last + 1].timestamp_us);
                let lateness: i128 = now - first;
                let idx: usize = if last > 0 && lateness > self.interval_us as i128 {
                    self.pick(last)
                } else {
                    0
                };
                Some(self.take(idx))
            },
        }
    }
}

// ---- laws ----

/// Frames are handed out in order and never twice: one that is not newer than
/// the last one handed out is dropped when it arrives.
pub proof fn law_old_frames_are_dropped(s: JitterState, f: FrameView, now: u64)
    requires
        s.last_popped matches Some(last) && (!newer_or_eq(f.frame_number, last)
            || f.frame_number == last),
    ensures
        pushed(s, f, now).frames == s.frames,
        pushed(s, f, now).dropped == s.dropping(1),
{
}

/// Nothing is lost in silence: every frame that leaves the buffer is handed out
/// or counted as dropped.
pub proof fn law_every_frame_is_accounted_for(s: JitterState, now: u64)
    requires
        s.valid(),
    ensures
        ({
            let (t, r) = popped(s, now);
            match r {
                None => t == s,
                Some(f) => exists|k: int|
                    0 <= k < s.frames.len() && #[trigger] s.frames[k] == f && t.frames
                        == s.frames.skip(k + 1) && t.dropped == s.dropping(k),
            }
        }),
{
    if s.frames.len() > 0 {
        lemma_newest_key(s.frames, s.frames.len() - 1);
        if s.mode == Mode::Quality {
            let base = s.base_us.unwrap();
            lemma_last_due(s.frames, base, now, 0);
            lemma_newest_key(s.frames, last_due(s.frames, base, now, 0));
        }
        if let Some(k) = s.due(now) {
            assert(s.frames[k] == popped(s, now).1.unwrap());
        }
    }
}

/// A keyframe is never skipped: nothing that is dropped when a frame is handed
/// out comes after a keyframe among it that is newer than the one shown.
pub proof fn law_a_keyframe_is_never_skipped_for_a_delta(s: JitterState, now: u64)
    requires
        s.valid(),
    ensures
        s.due(now) matches Some(k) ==> (forall|j: int|
            0 <= j < k ==> !(#[trigger] s.frames[j]).keyframe) || s.frames[k].keyframe,
{
    if s.frames.len() > 0 {
        lemma_newest_key(s.frames, s.frames.len() - 1);
        if s.mode == Mode::Quality {
            let base = s.base_us.unwrap();
            lemma_last_due(s.frames, base, now, 0);
            lemma_newest_key(s.frames, last_due(s.frames, base, now, 0));
        }
    }
}

/// In Quality mode a frame is never handed out before its delay has passed.
pub proof fn law_quality_holds_frames_back(s: JitterState, now: u64)
    requires
        s.valid(),
        s.mode == Mode::Quality,
        s.frames.len() > 0,
        s.frames[0].timestamp_us + s.base_us.unwrap() > now,
    ensures
        popped(s, now) == (s, None::<FrameView>),
{
}

} // verus!
