//! What the decoder asks of a device and what it makes of the answers, in numbers.
use vstd::prelude::*;
use crate::media::codec::{PixelFormat, RawFrameView};
use crate::media::crop::cropped;
use crate::v4l2::annexb::unit_fault;
use crate::v4l2::decoder::{
    capture_count, effective_caps, has_bit, known_size, picture, prepared, recycled, same_geometry,
    small_buffer, visible_rect, CaptureState, DecoderError, DecoderState,
};
use crate::v4l2::ops::{Call, Dequeue, Dequeued, Event, FormatInfo, OpsError, Script, World};
use crate::v4l2::queue::{QueueError, QueueState};

verus! {

// ---- opening ----

/// A device can do what it says of itself, or what it says of the driver where it
/// says nothing of itself; the highest bit tells which.
pub proof fn law_what_a_device_can_do(capabilities: u32, device_caps: u32)
    ensures
        capabilities & 0x8000_0000 != 0 ==> effective_caps(capabilities, device_caps)
            == device_caps,
        capabilities & 0x8000_0000 == 0 ==> effective_caps(capabilities, device_caps)
            == capabilities,
{
    assert(capabilities & 0x8000_0000 != 0 <==> capabilities / 0x8000_0000 % 2 == 1)
        by (bit_vector);
}

/// A device that is not a multiplanar codec from memory to memory is refused before
/// anything else is asked of it.
pub proof fn law_other_devices_are_refused(s: Script, w: World)
    requires
        (s.query_cap)(w.turn) is Ok,
        effective_caps(
            (s.query_cap)(w.turn)->Ok_0.capabilities,
            (s.query_cap)(w.turn)->Ok_0.device_caps,
        ) & 0x4000 == 0,
    ensures
        prepared(s, w).0 == w.then_asked(Call::QueryCap),
        prepared(s, w).1 is Err,
        prepared(s, w).1->Err_0 is NotM2m,
{
    let caps = effective_caps(
        (s.query_cap)(w.turn)->Ok_0.capabilities,
        (s.query_cap)(w.turn)->Ok_0.device_caps,
    );
    assert(caps & 0x4000 != 0 <==> caps / 0x4000 % 2 == 1) by (bit_vector);
}

/// Two buffers more than the driver needs are asked for, but at least six.
pub proof fn law_how_many_pictures_are_held(min: Result<i32, OpsError>)
    ensures
        min is Err ==> capture_count(min) == 6,
        min matches Ok(n) ==> n <= 4 ==> capture_count(min) == 6,
        min matches Ok(n) ==> n > 4 ==> capture_count(min) == n + 2,
{
}

/// What is visible is what the driver composes, or all of the picture where it
/// composes nothing.
pub proof fn law_what_is_visible(s: Script, w: World, coded: FormatInfo)
    ensures
        ({
            let (w1, r) = visible_rect(s, w, coded);
            let told = (s.compose)(w.turn);
            let composed = told matches Ok(c) && c.width > 0 && c.height > 0;
            &&& w1 == w.then_asked(Call::Compose { buf_type: 9 })
            &&& composed ==> r == told->Ok_0
            &&& !composed ==> r.left == 0 && r.top == 0 && r.width == coded.width && r.height
                == coded.height
        }),
{
}

/// Every input buffer has to hold a megabyte; the first that does not is named.
pub proof fn law_input_buffers_hold_a_megabyte(q: QueueState, k: int)
    ensures
        0 <= k < q.buffers.len() && q.buffers[k].mapping.len < 1_048_576 && (forall|i: int|
            0 <= i < k ==> (#[trigger] q.buffers[i]).mapping.len >= 1_048_576) ==> small_buffer(q, 0)
            == Some(q.buffers[k].mapping.len),
        (forall|i: int|
            0 <= i < q.buffers.len() ==> (#[trigger] q.buffers[i]).mapping.len >= 1_048_576)
            ==> small_buffer(q, 0) is None,
{
    lemma_small(q, k, 0);
}

proof fn lemma_small(q: QueueState, k: int, j: int)
    requires
        0 <= j,
    ensures
        j <= k < q.buffers.len() && q.buffers[k].mapping.len < 1_048_576 && (forall|i: int|
            0 <= i < k ==> (#[trigger] q.buffers[i]).mapping.len >= 1_048_576) ==> small_buffer(q, j)
            == Some(q.buffers[k].mapping.len),
        (forall|i: int|
            0 <= i < q.buffers.len() ==> (#[trigger] q.buffers[i]).mapping.len >= 1_048_576)
            ==> small_buffer(q, j) is None,
    decreases q.buffers.len() - j,
{
    if j < q.buffers.len() {
        lemma_small(q, k, j + 1);
    }
}

// ---- pictures ----

/// A buffer holds no picture before the stream's size is known, nor when it is
/// empty. Otherwise it holds the visible part of its surface as NV12 without slack,
/// at the time of its input, if that part lies in it; a negative corner counts as
/// zero.
pub proof fn law_what_a_buffer_holds(s: Script, w: World, c: CaptureState, d: Dequeued)
    ensures
        ({
            let (w1, r) = picture(s, w, c, d);
            let none = c.provisional || d.bytesused == 0;
            let src = (s.load)(w.turn);
            let left = if c.visible.left > 0 {
                c.visible.left as int
            } else {
                0
            };
            let top = if c.visible.top > 0 {
                c.visible.top as int
            } else {
                0
            };
            let (width, height) = (c.visible.width as int, c.visible.height as int);
            let (stride, rows) = (c.coded.bytesperline as int, c.coded.height as int);
            let inside = 3 * (stride * rows) <= 2 * src.len() + 1 && top + height <= rows && left
                + width <= stride;
            &&& none ==> w1 == w && r == Ok::<Option<RawFrameView>, DecoderError>(None)
            &&& !none && inside ==> r is Ok && r->Ok_0 is Some && {
                let f = r->Ok_0->0;
                &&& f.format == PixelFormat::Nv12
                &&& f.width == width && f.height == height && f.stride == width
                &&& f.timestamp_us == d.timestamp_us
                &&& f.data == cropped(src, stride, rows, left, top, width, height)
            }
            &&& !none && !inside ==> r is Err && r->Err_0 is Geometry
        }),
{
}

/// A buffer goes back to the driver unless it was the last of its sequence; and a
/// driver that will not take it as an argument has ended the sequence as well.
pub proof fn law_when_buffers_go_back(
    s: Script,
    w: World,
    c: CaptureState,
    index: usize,
    last: bool,
)
    ensures
        ({
            let (w1, c1, r) = recycled(s, w, c, index, last);
            let (w2, q, back) = c.queue.queued(s, w, index, 0, 0);
            &&& last ==> (w1, c1) == (w, c) && r == Ok::<bool, DecoderError>(true)
            &&& !last ==> w1 == w2 && c1 == (CaptureState { queue: q, ..c })
            &&& !last && back is Ok ==> r == Ok::<bool, DecoderError>(false)
            &&& !last && (back matches Err(QueueError::Device(e)) && e.errno == Some(22i32)) ==> r
                == Ok::<bool, DecoderError>(true)
            &&& !last && back is Err && !(back matches Err(QueueError::Device(e)) && e.errno == Some(
                22i32,
            )) ==> r is Err
        }),
{
}

/// The flag of the last buffer is the 21st bit.
pub proof fn law_the_last_flag(flags: u32)
    ensures
        has_bit(flags, 0x0010_0000) <==> flags & 0x0010_0000 != 0,
{
    assert(flags & 0x0010_0000 != 0 <==> flags / 0x0010_0000 % 2 == 1) by (bit_vector);
}

/// The size is known once the stream's own is; it is that of what is visible.
pub proof fn law_when_the_size_is_known(c: CaptureState)
    ensures
        c.provisional ==> known_size(Some(c)) is None,
        !c.provisional ==> known_size(Some(c)) == Some((c.visible.width, c.visible.height)),
        known_size(None) is None,
{
}

/// Buffers are kept over a change if the size, the row pitch and the image size are
/// those of before, and only once the stream's own size was known.
pub proof fn law_when_buffers_are_kept(old: CaptureState, reported: FormatInfo)
    ensures
        same_geometry(old, reported) <==> {
            &&& !old.provisional
            &&& reported.width == old.coded.width
            &&& reported.height == old.coded.height
            &&& reported.bytesperline == old.coded.bytesperline
            &&& reported.sizeimage == old.coded.sizeimage
        },
{
}

// ---- events ----

/// Event 5 with the first bit set is a new size and has the pictures' side set up
/// again; event 2 is the end; nothing else does anything.
pub proof fn law_what_events_do(d: DecoderState, s: Script, ev: Event)
    ensures
        ({
            let (t, r) = d.on_event(s, ev);
            let resized = ev.kind == 5 && ev.changes & 1 == 1;
            &&& resized ==> (t, r) == d.reconfigure(s)
            &&& ev.kind == 2 ==> t == (DecoderState { finished: true, ..d }) && r is Ok
            &&& !resized && ev.kind != 2 ==> t == d && r is Ok
        }),
{
    let x = ev.changes;
    assert(x & 1 == x % 2) by (bit_vector);
}

// ---- a call ----

/// What is refused before the device is asked anything: what is no access unit,
/// one of more than a megabyte, and any after the end.
pub proof fn law_what_is_refused_at_once(
    d: DecoderState,
    s: Script,
    data: Seq<u8>,
    timestamp_us: u64,
)
    ensures
        ({
            let (t, r) = d.decoded(s, data, timestamp_us);
            &&& unit_fault(data) is Err ==> t == d && r is Err && r->Err_0 is AccessUnit
            &&& unit_fault(data) is Ok && data.len() > 1_048_576 ==> t == d && r is Err && r->Err_0
                is TooLarge
            &&& unit_fault(data) is Ok && data.len() <= 1_048_576 && d.finished ==> t == d && r
                is Err && r->Err_0 is Finished
        }),
{
}

/// The oldest picture is handed over. With none, sixty unanswered inputs and two
/// seconds without a picture are a stall; one without the other is not.
pub proof fn law_when_a_stall_is_declared(d: DecoderState, s: Script)
    ensures
        ({
            let (t, r) = d.answered(s);
            let now = (s.now)(d.world.turn);
            let stalled = d.ready.len() == 0 && d.unanswered >= 60 && now.nanos
                >= d.last_picture.nanos + 2_000_000_000;
            &&& d.ready.len() > 0 ==> r == Ok::<Option<RawFrameView>, DecoderError>(
                Some(d.ready[0]),
            ) && t.ready == d.ready.drop_first()
            &&& stalled ==> r is Err && r->Err_0 is NoPicture
            &&& d.ready.len() == 0 && !stalled ==> r == Ok::<Option<RawFrameView>, DecoderError>(
                None,
            )
        }),
{
}

/// A free buffer is the first that is not with the driver.
pub proof fn law_the_first_free_buffer(q: QueueState, k: int)
    requires
        q.buffers.len() <= usize::MAX,
    ensures
        0 <= k < q.buffers.len() && !q.buffers[k].queued && (forall|i: int|
            0 <= i < k ==> (#[trigger] q.buffers[i]).queued) ==> q.free_from(0) == Some(k as usize),
        (forall|i: int| 0 <= i < q.buffers.len() ==> (#[trigger] q.buffers[i]).queued)
            ==> q.free_from(0) is None,
{
    lemma_free(q, k, 0);
}

proof fn lemma_free(q: QueueState, k: int, j: int)
    requires
        0 <= j,
    ensures
        j <= k < q.buffers.len() && !q.buffers[k].queued && (forall|i: int|
            0 <= i < k ==> (#[trigger] q.buffers[i]).queued) ==> q.free_from(j) == Some(k as usize),
        (forall|i: int| 0 <= i < q.buffers.len() ==> (#[trigger] q.buffers[i]).queued)
            ==> q.free_from(j) is None,
    decreases q.buffers.len() - j,
{
    if j < q.buffers.len() {
        lemma_free(q, k, j + 1);
    }
}

/// A free buffer is handed to the driver by its number, with the length of what it
/// holds and the time of it; it is the driver's from then on, if the driver takes it,
/// and no other buffer changes hands.
pub proof fn law_what_is_handed_to_the_driver(
    q: QueueState,
    s: Script,
    w: World,
    index: usize,
    bytesused: u32,
    timestamp_us: u64,
)
    requires
        index < q.buffers.len(),
        !q.buffers[index as int].queued,
    ensures
        ({
            let (w1, q1, r) = q.queued(s, w, index, bytesused, timestamp_us);
            &&& w1 == w.then_asked(
                Call::Qbuf {
                    buf_type: q.buf_type,
                    index: index as u32,
                    length: q.buffers[index as int].mapping.len as u32,
                    bytesused,
                    timestamp_us,
                },
            )
            &&& r is Ok <==> (s.qbuf)(w.turn) is Ok
            &&& r is Ok ==> q1.buffers[index as int].queued && forall|i: int|
                0 <= i < q.buffers.len() && i != index ==> #[trigger] q1.buffers[i] == q.buffers[i]
            &&& r is Err ==> q1 == q
        }),
{
}

/// A buffer that the driver gives back is free again; one that we do not have is an
/// error, and nothing else changes.
pub proof fn law_what_the_driver_gives_back(q: QueueState, s: Script, w: World)
    ensures
        ({
            let (w1, q1, r) = q.dequeued(s, w);
            let got = (s.dqbuf)(w.turn);
            &&& w1 == w.then_asked(Call::Dqbuf { buf_type: q.buf_type })
            &&& got matches Ok(Dequeue::Buffer(d)) ==> {
                &&& d.index < q.buffers.len() ==> r == Ok::<Dequeue, QueueError>(Dequeue::Buffer(d))
                    && !q1.buffers[d.index as int].queued
                    && forall|i: int|
                    0 <= i < q.buffers.len() && i != d.index ==> #[trigger] q1.buffers[i]
                        == q.buffers[i]
                &&& d.index >= q.buffers.len() ==> r is Err && q1 == q
            }
            &&& !(got matches Ok(Dequeue::Buffer(d))) ==> q1 == q
            &&& got is Err ==> r is Err
        }),
{
}

} // verus!
