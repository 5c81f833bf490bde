//! What holds of the decoder whatever its device answers.
use vstd::prelude::*;
use crate::media::codec::RawFrameView;
use crate::v4l2::decoder::{
    bring_up, known_size, queue_all, CaptureState, DecoderError, DecoderState, DRAIN_ROUNDS,
    MAX_IN_FLIGHT, PATIENCE, POLL_STEP_MS, STALL_INPUTS, STALL_POLL_MS,
};
use crate::v4l2::ops::{Call, Dequeue, Script, World};
use crate::v4l2::queue::{QueueError, QueueState};

verus! {

/// Marking a buffer changes the count by that buffer alone.
proof fn lemma_count_marked(q: QueueState, index: int, queued: bool, n: int)
    requires
        0 <= index < q.buffers.len(),
        n <= q.buffers.len(),
    ensures
        q.marked(index, queued).count_queued(n) == if index < n {
            q.count_queued(n) - (if q.buffers[index].queued {
                1int
            } else {
                0int
            }) + (if queued {
                1int
            } else {
                0int
            })
        } else {
            q.count_queued(n) as int
        },
    decreases n,
{
    if n > 0 {
        lemma_count_marked(q, index, queued, n - 1);
    }
}

/// Taking a buffer back never puts more in flight.
pub proof fn law_dequeue_lands(q: QueueState, s: Script, w: World)
    ensures
        q.dequeued(s, w).1.flying() <= q.flying(),
        q.dequeued(s, w).1.buffers.len() == q.buffers.len(),
{
    if let Ok(Dequeue::Buffer(d)) = (s.dqbuf)(w.turn) {
        if d.index < q.buffers.len() {
            lemma_count_marked(q, d.index as int, false, q.buffers.len() as int);
        }
    }
}

/// Handing over a buffer puts at most one more in flight; exactly one if it
/// succeeds.
pub proof fn law_queue_puts_one_in_flight(
    q: QueueState,
    s: Script,
    w: World,
    index: usize,
    bytesused: u32,
    timestamp_us: u64,
)
    ensures
        ({
            let (w1, q1, r) = q.queued(s, w, index, bytesused, timestamp_us);
            q1.flying() == if r is Ok {
                q.flying() + 1
            } else {
                q.flying()
            }
        }),
{
    if index < q.buffers.len() && !q.buffers[index as int].queued {
        lemma_count_marked(q, index as int, true, q.buffers.len() as int);
    }
}

/// A buffer that is with the driver already is refused without asking the
/// driver.
pub proof fn law_double_queue_asks_nothing(
    q: QueueState,
    s: Script,
    w: World,
    index: usize,
    bytesused: u32,
    timestamp_us: u64,
)
    requires
        index < q.buffers.len(),
        q.buffers[index as int].queued,
    ensures
        q.queued(s, w, index, bytesused, timestamp_us) == (
            w,
            q,
            Err::<(), QueueError>(QueueError::AlreadyQueued(index)),
        ),
{
}

/// A stopped queue has nothing in flight.
pub proof fn law_stop_lands_everything(q: QueueState, s: Script, w: World)
    requires
        q.stopped(s, w).2 is Ok,
    ensures
        q.stopped(s, w).1.flying() == 0,
        !q.stopped(s, w).1.streaming,
{
    lemma_none_queued(q.stopped(s, w).1, q.buffers.len() as int);
}

proof fn lemma_none_queued(q: QueueState, n: int)
    requires
        n <= q.buffers.len(),
        forall|i: int| 0 <= i < q.buffers.len() ==> !(#[trigger] q.buffers[i]).queued,
    ensures
        q.count_queued(n) == 0,
    decreases n,
{
    if n > 0 {
        lemma_none_queued(q, n - 1);
    }
}

/// Collecting pictures leaves the OUTPUT queue alone.
proof fn lemma_collect_keeps_output(d: DecoderState, s: Script, limit: nat, any: bool)
    ensures
        d.collect_more(s, limit, any).0.output == d.output,
    decreases limit,
{
    if limit > 0 {
        let (d1, r) = d.take(s);
        if let Ok(Some(p)) = r {
            let d2 = match p {
                Some(f) => DecoderState { ready: d1.ready.push(f), ..d1 },
                None => d1,
            };
            lemma_collect_keeps_output(d2, s, (limit - 1) as nat, true);
        }
    }
}

proof fn lemma_drain_output_lands(d: DecoderState, s: Script, any: bool, left: nat)
    ensures
        d.drain_output(s, any, left).0.output.flying() <= d.output.flying(),
    decreases left,
{
    if left > 0 {
        law_dequeue_lands(d.output, s, d.world);
        let (w1, q1, r) = d.output.dequeued(s, d.world);
        let d1 = DecoderState { world: w1, output: q1, ..d };
        lemma_drain_output_lands(d1, s, true, (left - 1) as nat);
    }
}

proof fn lemma_rounds_land(d: DecoderState, s: Script, rounds: nat)
    ensures
        d.drain_rounds(s, rounds).0.output.flying() <= d.output.flying(),
    decreases rounds,
{
    lemma_collect_keeps_output(d, s, usize::MAX as nat, false);
    let (d1, r1) = d.collect(s, usize::MAX as nat);
    if r1 is Ok && rounds > 0 && !d1.saw_last {
        lemma_drain_output_lands(d1, s, false, PATIENCE as nat);
        let (d2, r2) = d1.drain_output(s, false, PATIENCE as nat);
        if r2 is Ok {
            let (d3, r3) = d2.polled(s);
            if r3 is Ok {
                lemma_rounds_land(d3, s, (rounds - 1) as nat);
            }
        }
    }
}

proof fn lemma_reconfigure_lands(d: DecoderState, s: Script)
    ensures
        d.reconfigure(s).0.output.flying() <= d.output.flying(),
{
    lemma_rounds_land(
        DecoderState { saw_last: false, ..d },
        s,
        DRAIN_ROUNDS as nat,
    );
}

proof fn lemma_events_land(d: DecoderState, s: Script, any: bool, left: nat)
    ensures
        d.drain_events(s, any, left).0.output.flying() <= d.output.flying(),
    decreases left,
{
    if left > 0 {
        let d1 = DecoderState {
            world: d.world.then_asked(Call::Dqevent),
            ..d
        };
        if let Ok(Some(ev)) = (s.dqevent)(d.world.turn) {
            lemma_reconfigure_lands(d1, s);
            let (d2, r2) = d1.on_event(s, ev);
            lemma_events_land(d2, s, true, (left - 1) as nat);
        }
    }
}

proof fn lemma_serviced_lands(d: DecoderState, s: Script, budget: nat)
    ensures
        d.serviced(s, budget).0.output.flying() <= d.output.flying(),
{
    let (d1, r1) = d.polled(s);
    lemma_events_land(d1, s, false, PATIENCE as nat);
    let (d2, r2) = d1.drain_events(s, false, PATIENCE as nat);
    lemma_drain_output_lands(d2, s, false, PATIENCE as nat);
    let (d3, r3) = d2.drain_output(s, false, PATIENCE as nat);
    lemma_collect_keeps_output(d3, s, 1, false);
}

proof fn lemma_wait_lands(
    d: DecoderState,
    s: Script,
    budget: nat,
    fallback: nat,
    idle: nat,
    left: nat,
)
    ensures
        d.wait(s, budget, fallback, idle, left).0.output.flying() <= d.output.flying(),
        d.wait(s, budget, fallback, idle, left).1 is Ok ==> d.wait(
            s,
            budget,
            fallback,
            idle,
            left,
        ).0.output.flying() < MAX_IN_FLIGHT,
    decreases left,
{
    if d.output.flying() >= MAX_IN_FLIGHT && left > 0 {
        lemma_serviced_lands(d, s, budget);
        let (d1, r1) = d.serviced(s, budget);
        if let Ok((moved, budget1)) = r1 {
            if moved {
                lemma_wait_lands(d1, s, budget1, fallback, 0, (left - 1) as nat);
            } else {
                lemma_collect_keeps_output(d1, s, 1, false);
                let (d2, r2) = if fallback > 0 {
                    d1.collect(s, 1)
                } else {
                    (d1, Ok(false))
                };
                lemma_wait_lands(d2, s, budget1, (fallback - 1) as nat, 0, (left - 1) as nat);
                lemma_wait_lands(d2, s, budget1, fallback, idle + 1, (left - 1) as nat);
            }
        }
    }
}

/// At most two inputs are in flight, whatever the device answers: a decoder
/// that has no more than two before an access unit has no more than two after
/// it.
pub proof fn law_at_most_two_in_flight(
    d: DecoderState,
    s: Script,
    data: Seq<u8>,
    timestamp_us: u64,
)
    requires
        d.output.flying() <= MAX_IN_FLIGHT,
    ensures
        d.decoded(s, data, timestamp_us).0.output.flying() <= MAX_IN_FLIGHT,
{
    lemma_wait_lands(d, s, 1, 1, 0, PATIENCE as nat);
    let (d1, r1) = d.wait(s, 1, 1, 0, PATIENCE as nat);
    if let Ok(budget) = r1 {
        if let Some(slot) = d1.output.free_from(0) {
            let mapping = d1.output.buffers[slot as int].mapping;
            let w1 = d1.world.then_asked(Call::Store { mapping, data });
            law_queue_puts_one_in_flight(
                d1.output,
                s,
                w1,
                slot,
                data.len() as u32,
                timestamp_us,
            );
            let (w2, q2, r2) = d1.output.queued(s, w1, slot, data.len() as u32, timestamp_us);
            let d2 = DecoderState { world: w2, output: q2, ..d1 };
            let d3 = DecoderState {
                unanswered: if d2.unanswered < u32::MAX {
                    (d2.unanswered + 1) as u32
                } else {
                    u32::MAX
                },
                ..d2
            };
            lemma_events_land(d3, s, false, PATIENCE as nat);
            let (d4, r4) = d3.drain_events(s, false, PATIENCE as nat);
            lemma_collect_keeps_output(d4, s, budget, false);
        }
    }
}

/// No picture comes out of the provisional queue, and no size is claimed.
pub proof fn law_provisional_queue_yields_nothing(d: DecoderState, s: Script)
    requires
        d.capture matches Some(c) && c.provisional,
    ensures
        known_size(d.capture) is None,
        d.take(s).1 matches Ok(Some(p)) ==> p is None,
{
}

/// A device that reports an error on a wait fails the decoder at once.
pub proof fn law_poll_error_is_fatal(d: DecoderState, s: Script, budget: nat)
    requires
        (s.poll)(d.world.turn) matches Ok(p) && p.error,
    ensures
        d.serviced(s, budget).1 == Err::<(bool, nat), DecoderError>(DecoderError::PollError),
        d.serviced(s, budget).0.world.turn == d.world.turn + 1,
{
}

/// A picture resets the stall detector.
pub proof fn law_picture_resets_the_stall_detector(d: DecoderState, s: Script)
    requires
        d.take(s).1 matches Ok(Some(Some(_))),
    ensures
        d.take(s).0.unanswered == 0,
{
}

/// Once the sequence has ended, nothing more is asked of the CAPTURE queue.
pub proof fn law_ended_sequence_is_left_alone(d: DecoderState, s: Script, limit: nat)
    requires
        d.saw_last,
    ensures
        d.collect(s, limit) == (d, Ok::<bool, DecoderError>(false)),
{
}

/// What waited to be handed over still waits, in its order, ahead of anything
/// new.
pub open spec fn kept(before: DecoderState, after: DecoderState) -> bool {
    &&& before.ready.len() <= after.ready.len()
    &&& forall|i: int|
        0 <= i < before.ready.len() ==> #[trigger] after.ready[i] == before.ready[i]
}

/// A failure other than the verdict that no picture comes out.
spec fn no_verdict<T>(r: Result<T, DecoderError>) -> bool {
    r matches Err(e) ==> e !is NoPicture
}

proof fn lemma_collect_keeps_pictures(d: DecoderState, s: Script, limit: nat, any: bool)
    ensures
        kept(d, d.collect_more(s, limit, any).0),
        no_verdict(d.collect_more(s, limit, any).1),
    decreases limit,
{
    if limit > 0 {
        let (d1, r) = d.take(s);
        assert(d1.ready == d.ready && no_verdict(r));
        if let Ok(Some(p)) = r {
            let d2 = match p {
                Some(f) => DecoderState { ready: d1.ready.push(f), ..d1 },
                None => d1,
            };
            lemma_collect_keeps_pictures(d2, s, (limit - 1) as nat, true);
        }
    }
}

proof fn lemma_drain_output_keeps_pictures(d: DecoderState, s: Script, any: bool, left: nat)
    ensures
        d.drain_output(s, any, left).0.ready == d.ready,
        no_verdict(d.drain_output(s, any, left).1),
    decreases left,
{
    if left > 0 {
        let (w1, q1, r) = d.output.dequeued(s, d.world);
        let d1 = DecoderState { world: w1, output: q1, ..d };
        lemma_drain_output_keeps_pictures(d1, s, true, (left - 1) as nat);
    }
}

proof fn lemma_rounds_keep_pictures(d: DecoderState, s: Script, rounds: nat)
    ensures
        kept(d, d.drain_rounds(s, rounds).0),
        no_verdict(d.drain_rounds(s, rounds).1),
    decreases rounds,
{
    lemma_collect_keeps_pictures(d, s, usize::MAX as nat, false);
    let (d1, r1) = d.collect(s, usize::MAX as nat);
    if r1 is Ok && rounds > 0 && !d1.saw_last {
        lemma_drain_output_keeps_pictures(d1, s, false, PATIENCE as nat);
        let (d2, r2) = d1.drain_output(s, false, PATIENCE as nat);
        if r2 is Ok {
            let (d3, r3) = d2.polled(s);
            if r3 is Ok {
                lemma_rounds_keep_pictures(d3, s, (rounds - 1) as nat);
            }
        }
    }
}

proof fn lemma_queue_all_gives_no_verdict(s: Script, w: World, q: QueueState, i: nat)
    ensures
        no_verdict(queue_all(s, w, q, i).2),
    decreases q.buffers.len() - i,
{
    if i < q.buffers.len() {
        let (w1, q1, r) = q.queued(s, w, i as usize, 0, 0);
        if q1.buffers.len() == q.buffers.len() {
            lemma_queue_all_gives_no_verdict(s, w1, q1, i + 1);
        }
    }
}

proof fn lemma_bring_up_gives_no_verdict(s: Script, w: World, provisional: bool)
    ensures
        no_verdict(bring_up(s, w, provisional).1),
{
    assert forall|w1: World, q: QueueState| no_verdict(
        (#[trigger] queue_all(s, w1, q, 0)).2,
    ) by {
        lemma_queue_all_gives_no_verdict(s, w1, q, 0);
    }
}

proof fn lemma_rebuilt_keeps_pictures(d: DecoderState, s: Script, old: CaptureState)
    ensures
        d.rebuilt(s, old).0.ready == d.ready,
        no_verdict(d.rebuilt(s, old).1),
{
    assert forall|w1: World, q: QueueState| no_verdict(
        (#[trigger] queue_all(s, w1, q, 0)).2,
    ) by {
        lemma_queue_all_gives_no_verdict(s, w1, q, 0);
    }
    assert forall|w1: World| no_verdict((#[trigger] bring_up(s, w1, false)).1) by {
        lemma_bring_up_gives_no_verdict(s, w1, false);
    }
}

proof fn lemma_reconfigure_keeps_pictures(d: DecoderState, s: Script)
    ensures
        kept(d, d.reconfigure(s).0),
        no_verdict(d.reconfigure(s).1),
{
    lemma_rounds_keep_pictures(DecoderState { saw_last: false, ..d }, s, DRAIN_ROUNDS as nat);
    let provisional = d.capture matches Some(c) && c.provisional;
    let d1 = if provisional {
        d
    } else {
        d.drain_to_last(s).0
    };
    assert(kept(d, d1));
    if let Some(old) = d1.capture {
        lemma_rebuilt_keeps_pictures(DecoderState { capture: None, ..d1 }, s, old);
    }
}

proof fn lemma_events_keep_pictures(d: DecoderState, s: Script, any: bool, left: nat)
    ensures
        kept(d, d.drain_events(s, any, left).0),
        no_verdict(d.drain_events(s, any, left).1),
    decreases left,
{
    if left > 0 {
        let d1 = DecoderState { world: d.world.then_asked(Call::Dqevent), ..d };
        if let Ok(Some(ev)) = (s.dqevent)(d.world.turn) {
            lemma_reconfigure_keeps_pictures(d1, s);
            let (d2, r2) = d1.on_event(s, ev);
            lemma_events_keep_pictures(d2, s, true, (left - 1) as nat);
        }
    }
}

proof fn lemma_serviced_keeps_pictures(d: DecoderState, s: Script, budget: nat)
    ensures
        kept(d, d.serviced(s, budget).0),
        no_verdict(d.serviced(s, budget).1),
{
    let (d1, r1) = d.polled(s);
    lemma_events_keep_pictures(d1, s, false, PATIENCE as nat);
    let (d2, r2) = d1.drain_events(s, false, PATIENCE as nat);
    lemma_drain_output_keeps_pictures(d2, s, false, PATIENCE as nat);
    let (d3, r3) = d2.drain_output(s, false, PATIENCE as nat);
    lemma_collect_keeps_pictures(d3, s, 1, false);
}

proof fn lemma_wait_keeps_pictures(
    d: DecoderState,
    s: Script,
    budget: nat,
    fallback: nat,
    idle: nat,
    left: nat,
)
    ensures
        kept(d, d.wait(s, budget, fallback, idle, left).0),
        no_verdict(d.wait(s, budget, fallback, idle, left).1),
    decreases left,
{
    if d.output.flying() >= MAX_IN_FLIGHT && left > 0 {
        lemma_serviced_keeps_pictures(d, s, budget);
        let (d1, r1) = d.serviced(s, budget);
        if let Ok((moved, budget1)) = r1 {
            if moved {
                lemma_wait_keeps_pictures(d1, s, budget1, fallback, 0, (left - 1) as nat);
            } else {
                lemma_collect_keeps_pictures(d1, s, 1, false);
                let (d2, r2) = if fallback > 0 {
                    d1.collect(s, 1)
                } else {
                    (d1, Ok(false))
                };
                let less = (left - 1) as nat;
                lemma_wait_keeps_pictures(d2, s, budget1, (fallback - 1) as nat, 0, less);
                lemma_wait_keeps_pictures(d2, s, budget1, fallback, idle + 1, less);
            }
        }
    }
}

/// What was handed over, and what still waits behind it.
pub open spec fn given_and_held(
    d: DecoderState,
    r: Result<Option<RawFrameView>, DecoderError>,
) -> Seq<RawFrameView> {
    match r {
        Ok(Some(f)) => seq![f] + d.ready,
        _ => d.ready,
    }
}

/// What is known of a call, whatever the device answers: the pictures that
/// waited come first among what it hands over and what still waits, and nothing
/// is handed over only if nothing waits.
pub open spec fn in_turn(
    before: DecoderState,
    after: DecoderState,
    r: Result<Option<RawFrameView>, DecoderError>,
) -> bool {
    let all = given_and_held(after, r);
    &&& before.ready.len() <= all.len()
    &&& all.take(before.ready.len() as int) == before.ready
    &&& r == Ok::<Option<RawFrameView>, DecoderError>(None) ==> after.ready.len() == 0
}

/// What one access unit does to the pictures that wait, and what its verdict
/// can be.
proof fn lemma_decoded(d: DecoderState, s: Script, data: Seq<u8>, timestamp_us: u64)
    ensures
        ({
            let (d1, r) = d.decoded(s, data, timestamp_us);
            &&& in_turn(d, d1, r)
            &&& r matches Err(DecoderError::NoPicture { unanswered, idle_ms }) ==> unanswered
                >= STALL_INPUTS && idle_ms >= STALL_POLL_MS
        }),
{
    let (out, r) = d.decoded(s, data, timestamp_us);
    lemma_wait_keeps_pictures(d, s, 1, 1, 0, PATIENCE as nat);
    let (d1, r1) = d.wait(s, 1, 1, 0, PATIENCE as nat);
    if let Ok(budget) = r1 {
        if let Some(slot) = d1.output.free_from(0) {
            let mapping = d1.output.buffers[slot as int].mapping;
            let w1 = d1.world.then_asked(Call::Store { mapping, data });
            let (w2, q2, r2) = d1.output.queued(s, w1, slot, data.len() as u32, timestamp_us);
            let d2 = DecoderState { world: w2, output: q2, ..d1 };
            let d3 = DecoderState {
                unanswered: if d2.unanswered < u32::MAX {
                    (d2.unanswered + 1) as u32
                } else {
                    u32::MAX
                },
                ..d2
            };
            lemma_events_keep_pictures(d3, s, false, PATIENCE as nat);
            let (d4, r4) = d3.drain_events(s, false, PATIENCE as nat);
            lemma_collect_keeps_pictures(d4, s, budget, false);
            let d5 = if budget > 0 {
                d4.collect(s, budget).0
            } else {
                d4
            };
            assert(kept(d, d5));
        }
    }
    assert(given_and_held(out, r).take(d.ready.len() as int) =~= d.ready);
}

/// Pictures are handed over one at a time and in the order they came out of the
/// device, and none that waits is lost: whatever the device answers, and even
/// where it fails, the pictures that waited come first among the one that is
/// handed over and those that still wait.
pub proof fn law_pictures_come_out_in_order(
    d: DecoderState,
    s: Script,
    data: Seq<u8>,
    timestamp_us: u64,
)
    ensures
        in_turn(
            d,
            d.decoded(s, data, timestamp_us).0,
            d.decoded(s, data, timestamp_us).1,
        ),
        in_turn(d, d.polled_frame(s).0, d.polled_frame(s).1),
{
    lemma_decoded(d, s, data, timestamp_us);
    let (out, r) = d.polled_frame(s);
    if d.ready.len() == 0 {
        assert(given_and_held(out, r).take(0) =~= d.ready);
        let (d1, r1) = d.polled(s);
        lemma_events_keep_pictures(d1, s, false, PATIENCE as nat);
    } else {
        assert(seq![d.ready[0]] + d.ready.drop_first() =~= d.ready);
        assert(d.ready.take(d.ready.len() as int) =~= d.ready);
    }
}

/// A burst is not a stall: the decoder is given up on for want of pictures only
/// after sixty access units in a row without one and two seconds as well.
pub proof fn law_a_burst_is_not_a_stall(
    d: DecoderState,
    s: Script,
    data: Seq<u8>,
    timestamp_us: u64,
)
    ensures
        d.decoded(s, data, timestamp_us).1 matches Err(
            DecoderError::NoPicture { unanswered, idle_ms },
        ) ==> unanswered >= STALL_INPUTS && idle_ms >= STALL_POLL_MS,
{
    lemma_decoded(d, s, data, timestamp_us);
}

/// How often the device was waited on.
pub open spec fn waits(calls: Seq<Call>) -> nat
    decreases calls.len(),
{
    if calls.len() == 0 {
        0
    } else {
        waits(calls.drop_last()) + if calls.last() is Poll {
            1nat
        } else {
            0nat
        }
    }
}

proof fn lemma_waits_push(w: World, c: Call)
    ensures
        waits(w.then_asked(c).calls) == waits(w.calls) + if c is Poll {
            1nat
        } else {
            0nat
        },
{
    assert(w.calls.push(c).drop_last() =~= w.calls);
}

proof fn lemma_collect_does_not_wait(d: DecoderState, s: Script, limit: nat, any: bool)
    ensures
        waits(d.collect_more(s, limit, any).0.world.calls) == waits(d.world.calls),
    decreases limit,
{
    if limit > 0 {
        assert forall|w: World, c: Call| waits((#[trigger] w.then_asked(c)).calls) == waits(
            w.calls,
        ) + if c is Poll {
            1nat
        } else {
            0nat
        } by {
            lemma_waits_push(w, c);
        }
        let (d1, r) = d.take(s);
        if let Ok(Some(p)) = r {
            let d2 = match p {
                Some(f) => DecoderState { ready: d1.ready.push(f), ..d1 },
                None => d1,
            };
            lemma_collect_does_not_wait(d2, s, (limit - 1) as nat, true);
        }
    }
}

proof fn lemma_drain_output_does_not_wait(d: DecoderState, s: Script, any: bool, left: nat)
    ensures
        waits(d.drain_output(s, any, left).0.world.calls) == waits(d.world.calls),
    decreases left,
{
    if left > 0 {
        lemma_waits_push(d.world, Call::Dqbuf { buf_type: d.output.buf_type });
        let (w1, q1, r) = d.output.dequeued(s, d.world);
        let d1 = DecoderState { world: w1, output: q1, ..d };
        lemma_drain_output_does_not_wait(d1, s, true, (left - 1) as nat);
    }
}

proof fn lemma_rounds_are_counted(d: DecoderState, s: Script, rounds: nat)
    ensures
        waits(d.drain_rounds(s, rounds).0.world.calls) <= waits(d.world.calls) + rounds,
    decreases rounds,
{
    lemma_collect_does_not_wait(d, s, usize::MAX as nat, false);
    let (d1, r1) = d.collect(s, usize::MAX as nat);
    if r1 is Ok && rounds > 0 && !d1.saw_last {
        lemma_drain_output_does_not_wait(d1, s, false, PATIENCE as nat);
        let (d2, r2) = d1.drain_output(s, false, PATIENCE as nat);
        if r2 is Ok {
            lemma_waits_push(d2.world, Call::Poll { timeout_ms: POLL_STEP_MS });
            let (d3, r3) = d2.polled(s);
            if r3 is Ok {
                lemma_rounds_are_counted(d3, s, (rounds - 1) as nat);
            }
        }
    }
}

/// A driver that never marks the end of a sequence does not hold the decoder
/// up: the sequence's tail is waited for five times at most.
pub proof fn law_the_tail_is_waited_for_briefly(d: DecoderState, s: Script)
    ensures
        waits(d.drain_to_last(s).0.world.calls) <= waits(d.world.calls) + DRAIN_ROUNDS,
{
    lemma_rounds_are_counted(DecoderState { saw_last: false, ..d }, s, DRAIN_ROUNDS as nat);
}

} // verus!
