//! What was sent a moment ago, in case it has to be sent again.
use vstd::prelude::*;
use bytes::Bytes;
use std::collections::VecDeque;
use crate::proto::Nack;

verus! {

/// A shared run of bytes of the `bytes` crate.
#[verifier::external_type_specification]
#[verifier::external_body]
pub struct ExBytes(bytes::Bytes);

/// What a run of bytes holds.
pub uninterp spec fn held(b: bytes::Bytes) -> Seq<u8>;

/// Calls `Bytes::clone`, which gives another handle on the same bytes.
#[verifier::external_body]
fn share(b: &Bytes) -> (r: Bytes)
    ensures
        held(r) == held(*b),
{
    b.clone()
}

/// What some runs of bytes hold.
pub open spec fn held_all(v: Seq<Bytes>) -> Seq<Seq<u8>> {
    Seq::new(v.len(), |i: int| held(v[i]))
}

struct Sent {
    frame_number: u32,
    // Nothing here depends on it: the receiver decides what is worth
    // repairing. It is what the frame was recorded as.
    keyframe: bool,
    sent_at_us: u64,
    fragments: Vec<Bytes>,
}

/// A frame that was sent.
#[verifier::ext_equal]
pub struct SentView {
    pub frame_number: u32,
    pub keyframe: bool,
    pub sent_at_us: u64,
    pub fragments: Seq<Seq<u8>>,
}

impl Sent {
    spec fn sent(self) -> SentView {
        SentView {
            frame_number: self.frame_number,
            keyframe: self.keyframe,
            sent_at_us: self.sent_at_us,
            fragments: held_all(self.fragments@),
        }
    }
}

spec fn sent_all(v: Seq<Sent>) -> Seq<SentView> {
    Seq::new(v.len(), |i: int| v[i].sent())
}

pub struct RetransmitBuffer {
    max_age_us: u64,
    frames: VecDeque<Sent>,
}

#[verifier::ext_equal]
pub struct RetransmitState {
    pub max_age_us: u64,
    /// Oldest first.
    pub frames: Seq<SentView>,
}

impl View for RetransmitBuffer {
    type V = RetransmitState;

    closed spec fn view(&self) -> RetransmitState {
        RetransmitState { max_age_us: self.max_age_us, frames: sent_all(self.frames@) }
    }
}

/// Whether a frame sent at `at` is too old to be kept at `now`.
pub open spec fn aged(at: u64, now: u64, max_age_us: u64) -> bool {
    now > at && now - at > max_age_us
}

/// The frames without those at the front that are too old.
pub open spec fn pruned(frames: Seq<SentView>, now: u64, max_age_us: u64) -> Seq<SentView>
    decreases frames.len(),
{
    if frames.len() > 0 && aged(frames[0].sent_at_us, now, max_age_us) {
        pruned(frames.skip(1), now, max_age_us)
    } else {
        frames
    }
}

/// The first of the frames from `i` on with a number, or how many there are.
pub open spec fn find_frame(frames: Seq<SentView>, number: u32, i: int) -> int
    decreases frames.len() - i,
{
    if i >= frames.len() || i < 0 {
        frames.len() as int
    } else if frames[i].frame_number == number {
        i
    } else {
        find_frame(frames, number, i + 1)
    }
}

/// Those of the fragments that are asked for from `i` on; one that the frame
/// does not have is passed over.
pub open spec fn asked(fragments: Seq<Seq<u8>>, missing: Seq<u16>, i: int) -> Seq<Seq<u8>>
    decreases missing.len() - i,
{
    if i >= missing.len() || i < 0 {
        seq![]
    } else if missing[i] < fragments.len() {
        seq![fragments[missing[i] as int]] + asked(fragments, missing, i + 1)
    } else {
        asked(fragments, missing, i + 1)
    }
}

/// What is resent for a request.
pub open spec fn resent(frames: Seq<SentView>, number: u32, missing: Seq<u16>) -> Seq<Seq<u8>> {
    let k = find_frame(frames, number, 0);
    if k < frames.len() {
        asked(frames[k].fragments, missing, 0)
    } else {
        seq![]
    }
}

impl RetransmitBuffer {
    pub fn new(max_age_us: u64) -> (b: Self)
        ensures
            b@ == (RetransmitState { max_age_us, frames: seq![] }),
    {
        let b = RetransmitBuffer { max_age_us, frames: VecDeque::new() };
        assert(b@.frames =~= seq![]);
        b
    }

    pub fn len(&self) -> (n: usize)
        ensures
            n == self@.frames.len(),
    {
        self.frames.len()
    }

    pub fn is_empty(&self) -> (r: bool)
        ensures
            r == (self@.frames.len() == 0),
    {
        self.frames.len() == 0
    }

    fn prune(&mut self, now_us: u64)
        ensures
            final(self)@ == (RetransmitState {
                frames: pruned(old(self)@.frames, now_us, old(self)@.max_age_us),
                ..old(self)@
            }),
    {
        let ghost s0 = self@;
        while self.frames.len() > 0 && now_us.saturating_sub(self.frames[0].sent_at_us)
            > self.max_age_us
            invariant
                self@.max_age_us == s0.max_age_us,
                pruned(self@.frames, now_us, s0.max_age_us) == pruned(
                    s0.frames,
                    now_us,
                    s0.max_age_us,
                ),
            decreases self.frames@.len(),
        {
            let ghost before = self@.frames;
            assert(before[0] == self.frames@[0].sent());
            let _gone = self.frames.pop_front();
            assert(self@.frames =~= before.skip(1));
        }
        assert(self.frames@.len() > 0 ==> self@.frames[0] == self.frames@[0].sent());
    }

    /// Keeps a frame that is sent, and forgets those that are too old.
    pub fn record(
        &mut self,
        frame_number: u32,
        keyframe: bool,
        fragments: Vec<Bytes>,
        sent_at_us: u64,
    )
        ensures
            final(self)@ == (RetransmitState {
                frames: pruned(
                    old(self)@.frames.push(
                        SentView {
                            frame_number,
                            keyframe,
                            sent_at_us,
                            fragments: held_all(fragments@),
                        },
                    ),
                    sent_at_us,
                    old(self)@.max_age_us,
                ),
                ..old(self)@
            }),
    {
        let ghost before = self@.frames;
        let sent = Sent { frame_number, keyframe, sent_at_us, fragments };
        let ghost v = sent.sent();
        self.frames.push_back(sent);
        assert(self@.frames =~= before.push(v));
        self.prune(sent_at_us);
    }

    /// Fragments to resend for this NACK, or empty if the frame is unknown or
    /// has aged out.
    ///
    /// There is deliberately no rule here about deltas: the receiver decides
    /// whether a repair can still arrive in time, because it is the only side
    /// that knows its own playout deadline, its mode and the round trip. A
    /// second opinion here could only ever contradict it.
    pub fn lookup(&mut self, nack: &Nack, now_us: u64) -> (out: Vec<Bytes>)
        ensures
            final(self)@ == (RetransmitState {
                frames: pruned(old(self)@.frames, now_us, old(self)@.max_age_us),
                ..old(self)@
            }),
            held_all(out@) == resent(final(self)@.frames, nack.frame_number, nack.missing@),
    {
        self.prune(now_us);
        let n: usize = self.frames.len();
        let number: u32 = nack.frame_number;
        let mut out: Vec<Bytes> = Vec::new();
        let mut k: usize = 0;
        while k < n && self.frames[k].frame_number != number
            invariant
                k <= n,
                n == self.frames@.len(),
                find_frame(self@.frames, number, 0) == find_frame(self@.frames, number, k as int),
            decreases n - k,
        {
            assert(self@.frames[k as int] == self.frames@[k as int].sent());
            k = k + 1;
        }
        assert(k < n ==> self@.frames[k as int] == self.frames@[k as int].sent());
        assert(held_all(out@) =~= seq![]);
        if k == n {
            return out;
        }
        let sent = &self.frames[k];
        let ghost fragments = held_all(sent.fragments@);
        let m: usize = nack.missing.len();
        let mut i: usize = 0;
        while i < m
            invariant
                i <= m,
                m == nack.missing@.len(),
                fragments == held_all(sent.fragments@),
                held_all(out@) + asked(fragments, nack.missing@, i as int) =~= asked(
                    fragments,
                    nack.missing@,
                    0,
                ),
            decreases m - i,
        {
            let j: usize = nack.missing[i] as usize;
            if j < sent.fragments.len() {
                let ghost before = out@;
                let b = share(&sent.fragments[j]);
                let ghost h = held(b);
                out.push(b);
                assert(held_all(out@) =~= held_all(before).push(h));
                assert(h == fragments[j as int]);
            }
            i = i + 1;
        }
        out
    }
}

// ---- laws ----

/// Whether every frame was recorded no earlier than the one before it.
pub open spec fn in_order(frames: Seq<SentView>) -> bool {
    forall|i: int, j: int|
        0 <= i <= j < frames.len() ==> (#[trigger] frames[i]).sent_at_us <= (
        #[trigger] frames[j]).sent_at_us
}

/// What is kept is what is young enough, where frames were recorded in order.
pub proof fn law_nothing_old_is_kept(frames: Seq<SentView>, now: u64, max_age_us: u64)
    requires
        in_order(frames),
    ensures
        forall|i: int|
            0 <= i < pruned(frames, now, max_age_us).len() ==> !aged(
                (#[trigger] pruned(frames, now, max_age_us)[i]).sent_at_us,
                now,
                max_age_us,
            ),
        in_order(pruned(frames, now, max_age_us)),
    decreases frames.len(),
{
    if frames.len() > 0 && aged(frames[0].sent_at_us, now, max_age_us) {
        assert(in_order(frames.skip(1)));
        law_nothing_old_is_kept(frames.skip(1), now, max_age_us);
    } else {
        assert forall|i: int| 0 <= i < frames.len() implies !aged(
            (#[trigger] frames[i]).sent_at_us,
            now,
            max_age_us,
        ) by {
            assert(frames[0].sent_at_us <= frames[i].sent_at_us);
        }
    }
}

/// Nothing young is forgotten: pruning drops only frames that are too old.
pub proof fn law_nothing_young_is_forgotten(
    frames: Seq<SentView>,
    now: u64,
    max_age_us: u64,
    i: int,
)
    requires
        0 <= i < frames.len(),
        !aged(frames[i].sent_at_us, now, max_age_us),
    ensures
        pruned(frames, now, max_age_us).contains(frames[i]),
    decreases frames.len(),
{
    if frames.len() > 0 && aged(frames[0].sent_at_us, now, max_age_us) {
        assert(frames.skip(1)[i - 1] == frames[i]);
        law_nothing_young_is_forgotten(frames.skip(1), now, max_age_us, i - 1);
    } else {
        assert(pruned(frames, now, max_age_us)[i] == frames[i]);
    }
}

/// A frame that was just recorded, under a number of its own, is resent
/// fragment by fragment as it was sent.
pub proof fn law_a_fragment_is_resent_as_it_was_sent(
    frames: Seq<SentView>,
    sent: SentView,
    missing: u16,
)
    requires
        missing < sent.fragments.len(),
        forall|i: int|
            0 <= i < frames.len() ==> (#[trigger] frames[i]).frame_number != sent.frame_number,
    ensures
        resent(frames.push(sent), sent.frame_number, seq![missing]) == seq![
            sent.fragments[missing as int],
        ],
{
    lemma_found(frames, sent, 0);
    let s = seq![missing];
    assert(asked(sent.fragments, s, 1) =~= seq![]);
    assert(asked(sent.fragments, s, 0) =~= seq![sent.fragments[missing as int]]);
}

proof fn lemma_found(frames: Seq<SentView>, sent: SentView, i: int)
    requires
        0 <= i <= frames.len(),
        forall|i: int|
            0 <= i < frames.len() ==> (#[trigger] frames[i]).frame_number != sent.frame_number,
    ensures
        find_frame(frames.push(sent), sent.frame_number, i) == frames.len(),
    decreases frames.len() - i,
{
    let all = frames.push(sent);
    if i < frames.len() {
        assert(all[i] == frames[i]);
        lemma_found(frames, sent, i + 1);
    }
}

/// Frames are forgotten from the oldest on, each once more than the allowed time
/// has passed since it was sent, and no further than the first that is not.
pub proof fn law_how_much_is_forgotten(frames: Seq<SentView>, now: u64, max_age_us: u64)
    ensures
        exists|k: int|
            {
                &&& 0 <= k <= frames.len()
                &&& pruned(frames, now, max_age_us) == #[trigger] frames.skip(k)
                &&& forall|i: int|
                    0 <= i < k ==> now > (#[trigger] frames[i]).sent_at_us + max_age_us
                &&& k < frames.len() ==> now <= frames[k].sent_at_us + max_age_us
            },
    decreases frames.len(),
{
    if frames.len() > 0 && aged(frames[0].sent_at_us, now, max_age_us) {
        let rest = frames.skip(1);
        law_how_much_is_forgotten(rest, now, max_age_us);
        let k = choose|k: int|
            {
                &&& 0 <= k <= rest.len()
                &&& pruned(rest, now, max_age_us) == #[trigger] rest.skip(k)
                &&& forall|i: int| 0 <= i < k ==> now > (#[trigger] rest[i]).sent_at_us + max_age_us
                &&& k < rest.len() ==> now <= rest[k].sent_at_us + max_age_us
            };
        assert(frames.skip(k + 1) =~= rest.skip(k));
        assert forall|i: int| 0 <= i < k + 1 implies now > (#[trigger] frames[i]).sent_at_us
            + max_age_us by {
            if i > 0 {
                assert(rest[i - 1] == frames[i]);
            }
        }
        assert(k < rest.len() ==> rest[k] == frames[k + 1]);
    } else {
        assert(frames.skip(0) =~= frames);
    }
}

/// Whether a fragment's number is one that a frame has.
pub open spec fn has_fragment(n: int) -> spec_fn(u16) -> bool {
    |m: u16| m < n
}

/// What is resent is, of the frame first recorded under the number, each fragment
/// that was asked for and that it has, in the order of the request. Under a number
/// that nothing was recorded for, nothing is.
pub proof fn law_what_is_resent(frames: Seq<SentView>, number: u32, missing: Seq<u16>, k: int)
    ensures
        (forall|i: int| 0 <= i < frames.len() ==> (#[trigger] frames[i]).frame_number != number)
            ==> resent(frames, number, missing).len() == 0,
        0 <= k < frames.len() && frames[k].frame_number == number && (forall|i: int|
            0 <= i < k ==> (#[trigger] frames[i]).frame_number != number) ==> {
            let wanted = missing.filter(has_fragment(frames[k].fragments.len() as int));
            let out = resent(frames, number, missing);
            &&& out.len() == wanted.len()
            &&& forall|j: int|
                0 <= j < wanted.len() ==> #[trigger] out[j] == frames[k].fragments[wanted[j] as int]
        },
{
    lemma_first_found(frames, number, k, 0);
    if 0 <= k < frames.len() {
        lemma_asked(frames[k].fragments, missing, 0);
        assert(missing.skip(0) =~= missing);
    }
}

proof fn lemma_first_found(frames: Seq<SentView>, number: u32, k: int, i: int)
    requires
        0 <= i <= frames.len(),
    ensures
        (forall|j: int| 0 <= j < frames.len() ==> (#[trigger] frames[j]).frame_number != number)
            ==> find_frame(frames, number, i) == frames.len(),
        i <= k < frames.len() && frames[k].frame_number == number && (forall|j: int|
            0 <= j < k ==> (#[trigger] frames[j]).frame_number != number) ==> find_frame(
            frames,
            number,
            i,
        ) == k,
    decreases frames.len() - i,
{
    if i < frames.len() {
        lemma_first_found(frames, number, k, i + 1);
    }
}

proof fn lemma_asked(fragments: Seq<Seq<u8>>, missing: Seq<u16>, i: int)
    requires
        0 <= i <= missing.len(),
    ensures
        ({
            let wanted = missing.skip(i).filter(has_fragment(fragments.len() as int));
            let out = asked(fragments, missing, i);
            &&& out.len() == wanted.len()
            &&& forall|j: int|
                0 <= j < wanted.len() ==> #[trigger] out[j] == fragments[wanted[j] as int]
        }),
    decreases missing.len() - i,
{
    let keep = has_fragment(fragments.len() as int);
    let all = missing.skip(i);
    if i < missing.len() {
        lemma_asked(fragments, missing, i + 1);
        let rest = missing.skip(i + 1);
        assert(all =~= seq![missing[i]] + rest);
        lemma_filter_first(missing[i], rest, keep);
    } else {
        reveal(Seq::filter);
        assert(all =~= Seq::empty());
    }
}

proof fn lemma_filter_first(m: u16, rest: Seq<u16>, keep: spec_fn(u16) -> bool)
    ensures
        (seq![m] + rest).filter(keep) == (if keep(m) {
            seq![m]
        } else {
            Seq::empty()
        }) + rest.filter(keep),
    decreases rest.len(),
{
    reveal(Seq::filter);
    let all = seq![m] + rest;
    let head = if keep(m) {
        seq![m]
    } else {
        Seq::empty()
    };
    if rest.len() == 0 {
        assert(all.drop_last() =~= Seq::empty());
        assert(all.last() == m);
        assert(Seq::<u16>::empty().filter(keep) =~= Seq::empty());
        assert(all.filter(keep) =~= head + rest.filter(keep));
    } else {
        assert(all.drop_last() =~= seq![m] + rest.drop_last());
        lemma_filter_first(m, rest.drop_last(), keep);
        assert(all.last() == rest.last());
        assert(all.filter(keep) =~= head + rest.filter(keep));
    }
}

} // verus!
