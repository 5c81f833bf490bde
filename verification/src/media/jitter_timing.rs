//! Which frames are kept when they arrive, and when they come out again.
use vstd::prelude::*;
use crate::media::jitter::{
    last_due, lemma_newest_key, lemma_place, newest_key, place, placed, popped, preferred, pushed,
    FrameView, JitterState,
};
use crate::media::jitter_laws::{in_order, onward};
use crate::proto::{newer_or_eq, Mode};

verus! {

/// Whether a frame of that number is held.
pub open spec fn holds(s: JitterState, number: u32) -> bool {
    exists|i: int| 0 <= i < s.frames.len() && (#[trigger] s.frames[i]).frame_number == number
}

/// Whether a number is behind the frame handed out last, or is its own: not
/// ahead of it by less than half of all numbers.
pub open spec fn behind(s: JitterState, number: u32) -> bool {
    s.last_popped matches Some(last) && !(0 < (number - last) % 0x1_0000_0000 < 0x8000_0000)
}

/// A frame that is not behind and whose number is not held yet is held from then
/// on, beside exactly those held before. One that is behind is counted as dropped
/// and changes nothing else. Nothing else is dropped.
pub proof fn law_what_arrives_is_kept(s: JitterState, f: FrameView, now: u64)
    ensures
        ({
            let t = pushed(s, f, now);
            &&& behind(s, f.frame_number) ==> t == (JitterState {
                dropped: ((s.dropped + 1) % 0x1_0000_0000) as u32,
                ..s
            })
            &&& !behind(s, f.frame_number) ==> t.dropped == s.dropped
            &&& !behind(s, f.frame_number) && !holds(s, f.frame_number) ==> t.frames.to_multiset()
                == s.frames.to_multiset().insert(f) && t.frames.contains(f)
            &&& t.mode == s.mode
            &&& t.interval_us == s.interval_us
            &&& t.last_popped == s.last_popped
        }),
{
    if !behind(s, f.frame_number) && !holds(s, f.frame_number) {
        let k = place(s.frames, f.frame_number, 0);
        lemma_place(s.frames, f.frame_number, 0);
        vstd::seq_lib::to_multiset_insert(s.frames, k, f);
        assert(s.frames.insert(k, f)[k] == f);
    }
}

/// A frame whose number is held already changes nothing of what is held.
pub proof fn law_a_duplicate_is_not_kept(s: JitterState, f: FrameView, now: u64, from: u32)
    requires
        in_order(s, from),
        s.last_popped is None ==> 0 < onward(f.frame_number, from) < 0x8000_0000,
        holds(s, f.frame_number),
    ensures
        pushed(s, f, now).frames == s.frames,
{
    if !s.late(f.frame_number) {
        let j = choose|i: int|
            0 <= i < s.frames.len() && (#[trigger] s.frames[i]).frame_number == f.frame_number;
        lemma_found(s.frames, f.frame_number, from, j, 0);
    }
}

proof fn lemma_found(fs: Seq<FrameView>, number: u32, from: u32, j: int, i: int)
    requires
        crate::media::jitter_laws::ascend(fs, from),
        0 <= i <= j < fs.len(),
        fs[j].frame_number == number,
    ensures
        place(fs, number, i) == j,
    decreases j - i,
{
    if i < j {
        assert(onward(fs[i].frame_number, from) < onward(fs[j].frame_number, from));
        assert(onward(fs[j].frame_number, from) < 0x8000_0000);
        assert(onward(fs[i].frame_number, from) > 0);
        lemma_found(fs, number, from, j, i + 1);
    }
}

/// The first frame to arrive sets the clock: every frame is due as long after it
/// as its own time is, and 150 milliseconds.
pub proof fn law_the_first_frame_sets_the_clock(s: JitterState, f: FrameView, now: u64)
    requires
        !behind(s, f.frame_number),
    ensures
        s.base_us is Some ==> pushed(s, f, now).base_us == s.base_us,
        s.base_us is None ==> pushed(s, f, now).base_us == Some(
            now - f.timestamp_us + 150_000,
        ),
{
}

/// In Quality mode a frame that arrives at an empty buffer comes out 150
/// milliseconds later, and not before.
pub proof fn law_quality_holds_back(s: JitterState, f: FrameView, arrived: u64, now: u64)
    requires
        s.mode == Mode::Quality,
        s.frames.len() == 0,
        s.base_us is None,
        !behind(s, f.frame_number),
    ensures
        popped(pushed(s, f, arrived), now).1 == if now >= arrived + 150_000 {
            Some(f)
        } else {
            None
        },
{
    assert(place(s.frames, f.frame_number, 0) == 0);
    assert(s.frames.insert(0, f) =~= seq![f]);
    assert(placed(s.frames, f) == seq![f]);
}

/// Whether a frame's time has come.
pub open spec fn ripe(s: JitterState, i: int, now: u64) -> bool {
    s.frames[i].timestamp_us + s.base_us->0 <= now
}

/// Whether the frames from the second up to one of them all are due.
pub open spec fn ripe_up_to(s: JitterState, j: int, now: u64) -> bool {
    forall|i: int| 0 < i <= j ==> #[trigger] ripe(s, i, now)
}

/// In Quality mode nothing comes out before the first frame is due, and then one
/// always does: the first, unless it is more than a frame's time late and the next
/// is due too. In that case it is the last keyframe among those due without a gap,
/// or the last of them if there is none. The frames before it are dropped and
/// counted, and the ones behind it stay.
pub proof fn law_quality_shows_what_is_due(s: JitterState, now: u64)
    requires
        s.mode == Mode::Quality,
        s.base_us is Some,
    ensures
        ({
            let (t, r) = popped(s, now);
            let fs = s.frames;
            let skips = fs.len() > 1 && ripe(s, 1, now) && now - (fs[0].timestamp_us + s.base_us->0)
                > s.interval_us;
            &&& r is Some <==> fs.len() > 0 && ripe(s, 0, now)
            &&& r is None ==> t == s
            &&& r is Some ==> exists|k: int|
                {
                    &&& 0 <= k < fs.len()
                    &&& r == Some(#[trigger] fs[k])
                    &&& t == (JitterState {
                        frames: fs.skip(k + 1),
                        last_popped: Some(fs[k].frame_number),
                        dropped: ((s.dropped + k) % 0x1_0000_0000) as u32,
                        ..s
                    })
                    &&& !skips ==> k == 0
                    &&& skips ==> ripe_up_to(s, k, now) && (fs[k].keyframe || ((k + 1 == fs.len()
                        || !ripe(s, k + 1, now)) && forall|i: int|
                        0 <= i <= k ==> !(#[trigger] fs[i]).keyframe)) && forall|j: int|
                        k < j < fs.len() && ripe_up_to(s, j, now) ==> !(#[trigger] fs[j]).keyframe
                }
        }),
{
    let fs = s.frames;
    if fs.len() > 0 && ripe(s, 0, now) {
        let base = s.base_us->0;
        let m = last_due(fs, base, now, 0);
        lemma_due(s, now, 0);
        let skips = fs.len() > 1 && ripe(s, 1, now) && now - (fs[0].timestamp_us + base)
            > s.interval_us;
        assert(skips <==> m > 0 && now - (fs[0].timestamp_us + base) > s.interval_us) by {
            if fs.len() > 1 {
                assert(m > 0 ==> ripe(s, 1, now));
            }
        }
        if skips {
            let k = preferred(fs, m);
            lemma_newest_key(fs, m);
            assert(popped(s, now).1 == Some(fs[k]));
            assert(ripe_up_to(s, k, now));
            assert forall|j: int| k < j < fs.len() && ripe_up_to(s, j, now) implies !(
            #[trigger] fs[j]).keyframe by {
                if j > m {
                    assert(ripe(s, m + 1, now));
                }
            }
            if !fs[k].keyframe {
                assert(k == m);
                assert(k + 1 == fs.len() || !ripe(s, k + 1, now));
                assert forall|i: int| 0 <= i <= k implies !(#[trigger] fs[i]).keyframe by {}
            }
        } else {
            assert(popped(s, now).1 == Some(fs[0]));
        }
    }
}

proof fn lemma_due(s: JitterState, now: u64, i: int)
    requires
        0 <= i < s.frames.len(),
    ensures
        ({
            let m = last_due(s.frames, s.base_us->0, now, i);
            &&& i <= m < s.frames.len()
            &&& forall|j: int| i < j <= m ==> #[trigger] ripe(s, j, now)
            &&& m + 1 < s.frames.len() ==> !ripe(s, m + 1, now)
        }),
    decreases s.frames.len() - i,
{
    if i + 1 < s.frames.len() && s.frames[i + 1].timestamp_us + s.base_us->0 <= now {
        lemma_due(s, now, i + 1);
    }
}

} // verus!
