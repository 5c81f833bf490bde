//! The order in which frames are held and handed out.
use vstd::prelude::*;
use crate::media::jitter::{
    law_every_frame_is_accounted_for, lemma_newest_key, place, placed, popped, preferred, pushed,
    FrameView, JitterState,
};
use crate::proto::{newer_or_eq, Mode};

verus! {

/// How far a frame is on from another, going round.
pub open spec fn onward(number: u32, from: u32) -> int {
    (number - from) % 0x1_0000_0000
}

/// Frames that come after a number, by less than half of all numbers, each
/// further on than the one before it.
pub open spec fn ascend(fs: Seq<FrameView>, from: u32) -> bool {
    &&& forall|i: int|
        0 <= i < fs.len() ==> 0 < onward((#[trigger] fs[i]).frame_number, from) < 0x8000_0000
    &&& forall|i: int, j: int|
        0 <= i < j < fs.len() ==> onward((#[trigger] fs[i]).frame_number, from) < onward(
            (#[trigger] fs[j]).frame_number,
            from,
        )
}

/// Whether what is held is in order, counted from a number, which is that of the
/// last frame handed out if there was one.
pub open spec fn in_order(s: JitterState, from: u32) -> bool {
    &&& ascend(s.frames, from)
    &&& s.last_popped matches Some(last) ==> last == from
}

/// Where a frame belongs: after those that are not as far on.
#[verifier::spinoff_prover]
#[verifier::rlimit(60)]
proof fn lemma_place_in_order(fs: Seq<FrameView>, number: u32, from: u32, i: int)
    requires
        ascend(fs, from),
        0 < onward(number, from) < 0x8000_0000,
        0 <= i <= fs.len(),
        forall|k: int|
            0 <= k < i ==> onward((#[trigger] fs[k]).frame_number, from) < onward(number, from),
    ensures
        ({
            let at = place(fs, number, i);
            &&& i <= at <= fs.len()
            &&& forall|k: int|
                0 <= k < at ==> onward((#[trigger] fs[k]).frame_number, from) < onward(number, from)
            &&& forall|k: int|
                at <= k < fs.len() ==> onward(number, from) <= onward(
                    (#[trigger] fs[k]).frame_number,
                    from,
                )
        }),
    decreases fs.len() - i,
{
    if i < fs.len() {
        let x = onward(fs[i].frame_number, from);
        let y = onward(number, from);
        assert(0 < x < 0x8000_0000);
        assert(newer_or_eq(fs[i].frame_number, number) <==> x >= y);
        if x < y {
            lemma_place_in_order(fs, number, from, i + 1);
        }
    }
}

/// A frame that arrives is put in its place: what is held stays in order. Before
/// the first frame is handed out, the frames held must lie within half of all
/// numbers, for without a frame to count from there is no order among numbers
/// that are further apart.
pub proof fn law_frames_are_held_in_order(s: JitterState, f: FrameView, now: u64, from: u32)
    requires
        in_order(s, from),
        s.last_popped is None ==> 0 < onward(f.frame_number, from) < 0x8000_0000,
    ensures
        in_order(pushed(s, f, now), from),
{
    if !s.late(f.frame_number) {
        assert(0 < onward(f.frame_number, from) < 0x8000_0000);
        lemma_placed_in_order(s.frames, f, from);
    }
}

proof fn lemma_onward_is_distinct(a: u32, b: u32, from: u32)
    ensures
        onward(a, from) == onward(b, from) <==> a == b,
{
}

#[verifier::spinoff_prover]
#[verifier::rlimit(60)]
proof fn lemma_placed_in_order(fs: Seq<FrameView>, f: FrameView, from: u32)
    requires
        ascend(fs, from),
        0 < onward(f.frame_number, from) < 0x8000_0000,
    ensures
        ascend(placed(fs, f), from),
{
    lemma_place_in_order(fs, f.frame_number, from, 0);
    let at = place(fs, f.frame_number, 0);
    if at < fs.len() && fs[at].frame_number == f.frame_number {
    } else {
        if at < fs.len() {
            lemma_onward_is_distinct(fs[at].frame_number, f.frame_number, from);
        }
        let places = Seq::new(fs.len(), |k: int| onward(fs[k].frame_number, from));
        let y = onward(f.frame_number, from);
        let t = fs.insert(at, f);
        let after = places.insert(at, y);
        assert forall|i: int| 0 <= i < t.len() implies onward((#[trigger] t[i]).frame_number, from)
            == after[i] by {
            if i < at {
                assert(t[i] == fs[i]);
            } else if i > at {
                assert(t[i] == fs[i - 1]);
            }
        }
        assert forall|i: int, j: int| 0 <= i < j < places.len() implies #[trigger] places[i]
            < #[trigger] places[j] by {
            assert(onward(fs[i].frame_number, from) < onward(fs[j].frame_number, from));
        }
        assert forall|k: int| 0 <= k < at implies #[trigger] places[k] < y by {
            assert(onward(fs[k].frame_number, from) < y);
        }
        assert forall|k: int| at <= k < places.len() implies y < #[trigger] places[k] by {
            assert(y <= onward(fs[at].frame_number, from));
            assert(places[at] == onward(fs[at].frame_number, from));
        }
        lemma_insert_ascending(places, at, y);
        assert forall|i: int, j: int| 0 <= i < j < t.len() implies onward(
            (#[trigger] t[i]).frame_number,
            from,
        ) < onward((#[trigger] t[j]).frame_number, from) by {
            assert(after[i] < after[j]);
        }
        assert forall|i: int| 0 <= i < t.len() implies 0 < onward(
            (#[trigger] t[i]).frame_number,
            from,
        ) < 0x8000_0000 by {
            if i < at {
                assert(t[i] == fs[i]);
            } else if i > at {
                assert(t[i] == fs[i - 1]);
            }
        }
    }
}

proof fn lemma_insert_ascending(s: Seq<int>, at: int, y: int)
    requires
        0 <= at <= s.len(),
        forall|i: int, j: int| 0 <= i < j < s.len() ==> #[trigger] s[i] < #[trigger] s[j],
        forall|k: int| 0 <= k < at ==> #[trigger] s[k] < y,
        forall|k: int| at <= k < s.len() ==> y < #[trigger] s[k],
    ensures
        forall|i: int, j: int|
            0 <= i < j < s.insert(at, y).len() ==> #[trigger] s.insert(at, y)[i]
                < #[trigger] s.insert(at, y)[j],
{
}

/// Every frame that is handed out is newer than the one before it, in either
/// mode, and what is left is in order behind it.
pub proof fn law_frames_come_out_in_order(s: JitterState, now: u64, from: u32)
    requires
        s.valid(),
        in_order(s, from),
    ensures
        popped(s, now).1 matches Some(f) ==> newer_or_eq(f.frame_number, from) && f.frame_number
            != from && in_order(popped(s, now).0, f.frame_number),
        popped(s, now).1 is None ==> popped(s, now).0 == s,
{
    law_every_frame_is_accounted_for(s, now);
    let (t, r) = popped(s, now);
    if let Some(f) = r {
        let k = choose|k: int|
            0 <= k < s.frames.len() && #[trigger] s.frames[k] == f && t.frames == s.frames.skip(
                k + 1,
            ) && t.dropped == s.dropping(k);
        lemma_behind(s.frames, from, k);
        assert(s.frames[k] == f);
    }
}

#[verifier::spinoff_prover]
#[verifier::rlimit(60)]
proof fn lemma_behind(fs: Seq<FrameView>, from: u32, k: int)
    requires
        ascend(fs, from),
        0 <= k < fs.len(),
    ensures
        ascend(fs.skip(k + 1), fs[k].frame_number),
{
    let rest = fs.skip(k + 1);
    let n = fs[k].frame_number;
    assert forall|i: int| 0 <= i < rest.len() implies onward(
        (#[trigger] rest[i]).frame_number,
        n,
    ) == onward(fs[k + 1 + i].frame_number, from) - onward(n, from) by {
        assert(rest[i] == fs[k + 1 + i]);
        assert(onward(fs[k].frame_number, from) < onward(fs[k + 1 + i].frame_number, from));
        assert(onward(fs[k + 1 + i].frame_number, from) < 0x8000_0000);
    }
    assert forall|i: int| 0 <= i < rest.len() implies 0 < onward(
        (#[trigger] rest[i]).frame_number,
        n,
    ) < 0x8000_0000 by {
        assert(onward(fs[k].frame_number, from) < onward(fs[k + 1 + i].frame_number, from));
        assert(onward(fs[k + 1 + i].frame_number, from) < 0x8000_0000);
        assert(onward(fs[k].frame_number, from) > 0);
    }
    assert forall|i: int, j: int| 0 <= i < j < rest.len() implies onward(
        (#[trigger] rest[i]).frame_number,
        n,
    ) < onward((#[trigger] rest[j]).frame_number, n) by {
        assert(onward(fs[k + 1 + i].frame_number, from) < onward(fs[k + 1 + j].frame_number, from));
    }
}

/// In Game mode a frame comes out whenever there is one: the newest keyframe if
/// there is one, else the newest frame of all. Exactly the older frames are
/// dropped, and counted, and exactly the newer ones stay.
pub proof fn law_game_shows_the_newest(s: JitterState, now: u64, from: u32)
    requires
        s.valid(),
        s.mode == Mode::Game,
        in_order(s, from),
    ensures
        ({
            let (t, r) = popped(s, now);
            &&& r is None <==> s.frames.len() == 0
            &&& r matches Some(f) ==> {
                &&& s.frames.contains(f)
                &&& !f.keyframe ==> forall|i: int|
                    0 <= i < s.frames.len() ==> !(#[trigger] s.frames[i]).keyframe && onward(
                        s.frames[i].frame_number,
                        from,
                    ) <= onward(f.frame_number, from)
                &&& f.keyframe ==> forall|i: int|
                    0 <= i < s.frames.len() && (#[trigger] s.frames[i]).keyframe ==> onward(
                        s.frames[i].frame_number,
                        from,
                    ) <= onward(f.frame_number, from)
                &&& t.frames == s.frames.filter(newer_than(f.frame_number, from))
                &&& t.dropped == s.dropping(s.frames.len() - t.frames.len() - 1)
            }
        }),
{
    let fs = s.frames;
    if fs.len() > 0 {
        lemma_newest_key(fs, fs.len() - 1);
        let k = preferred(fs, fs.len() - 1);
        let f = fs[k];
        assert(fs.contains(f));
        lemma_newer_stay(fs, from, k);
        if f.keyframe {
            assert forall|i: int| 0 <= i < fs.len() && (#[trigger] fs[i]).keyframe implies onward(
                fs[i].frame_number,
                from,
            ) <= onward(f.frame_number, from) by {
                assert(i <= k);
                assert(i < k ==> onward(fs[i].frame_number, from) < onward(
                    fs[k].frame_number,
                    from,
                ));
            }
        } else {
            assert forall|i: int| 0 <= i < fs.len() implies !(#[trigger] fs[i]).keyframe && onward(
                fs[i].frame_number,
                from,
            ) <= onward(f.frame_number, from) by {
                assert(k == fs.len() - 1);
                assert(i < k ==> onward(fs[i].frame_number, from) < onward(
                    fs[k].frame_number,
                    from,
                ));
            }
        }
    }
}

/// Whether a frame is further on than a number.
pub open spec fn newer_than(number: u32, from: u32) -> spec_fn(FrameView) -> bool {
    |f: FrameView| onward(f.frame_number, from) > onward(number, from)
}

/// The frames behind one of them are those that are further on.
proof fn lemma_newer_stay(fs: Seq<FrameView>, from: u32, k: int)
    requires
        ascend(fs, from),
        0 <= k < fs.len(),
    ensures
        fs.skip(k + 1) == fs.filter(newer_than(fs[k].frame_number, from)),
{
    let keep = newer_than(fs[k].frame_number, from);
    assert forall|i: int| 0 <= i < fs.len() implies keep(#[trigger] fs[i]) == (i > k) by {
        if i < k {
            assert(onward(fs[i].frame_number, from) < onward(fs[k].frame_number, from));
        } else if i > k {
            assert(onward(fs[k].frame_number, from) < onward(fs[i].frame_number, from));
        }
    }
    lemma_filter_tail(fs, keep, k);
}

proof fn lemma_filter_tail(fs: Seq<FrameView>, keep: spec_fn(FrameView) -> bool, k: int)
    requires
        -1 <= k < fs.len(),
        forall|i: int| 0 <= i < fs.len() ==> keep(#[trigger] fs[i]) == (i > k),
    ensures
        fs.filter(keep) == fs.skip(k + 1),
    decreases fs.len(),
{
    reveal(Seq::filter);
    if fs.len() == 0 {
        assert(fs.filter(keep) =~= fs.skip(k + 1));
    } else {
        let less = fs.drop_last();
        let last = fs.len() - 1;
        assert forall|i: int| 0 <= i < less.len() implies keep(#[trigger] less[i]) == (i > k) by {
            assert(less[i] == fs[i]);
        }
        assert(keep(fs[last]) == (last > k));
        if k < last {
            lemma_filter_tail(less, keep, k);
            assert(less.skip(k + 1).push(fs.last()) =~= fs.skip(k + 1));
        } else {
            lemma_filter_tail(less, keep, k - 1);
            assert(less.skip(k) =~= Seq::empty());
            assert(fs.skip(k + 1) =~= Seq::empty());
        }
    }
}

} // verus!
