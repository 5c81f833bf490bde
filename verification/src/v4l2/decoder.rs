//! `V4l2Decoder`: H.264 in, NV12 out, over a V4L2 memory-to-memory decoder.
use std::collections::VecDeque;
use vstd::prelude::*;
use crate::media::codec::{PixelFormat, RawFrame, RawFrameView};
use crate::media::crop::{crop_nv12, cropped, fits, fits_in};
use crate::time::{since, Instant};
use crate::v4l2::annexb::{check_access_unit, unit_fault, AccessUnitError};
use crate::v4l2::ops::{
    Call, Dequeue, Dequeued, Event, FormatInfo, Ops, OpsError, PollResult, Script, World,
};
use crate::v4l2::queue::{Queue, QueueError, QueueState};
use crate::v4l2::sys::{
    v4l2_rect, EINVAL, V4L2_BUF_FLAG_LAST, V4L2_BUF_TYPE_VIDEO_CAPTURE_MPLANE,
    V4L2_BUF_TYPE_VIDEO_OUTPUT_MPLANE, V4L2_CAP_DEVICE_CAPS, V4L2_CAP_VIDEO_M2M_MPLANE,
    V4L2_CID_MIN_BUFFERS_FOR_CAPTURE, V4L2_EVENT_EOS, V4L2_EVENT_SOURCE_CHANGE, V4L2_PIX_FMT_H264,
    V4L2_PIX_FMT_NV12,
};

verus! {

pub const DEFAULT_DEVICE: &'static str = "/dev/video10";

pub const OUTPUT_BUFFERS: u32 = 4;

pub const OUTPUT_BUFFER_SIZE: u32 = 1048576;

/// CAPTURE buffers requested, raised to `MIN_BUFFERS_FOR_CAPTURE + 2` when the
/// driver asks for more.
pub const CAPTURE_BUFFERS: u32 = 6;

/// Compressed frames queued but not yet consumed; bounds decoder latency.
pub const MAX_IN_FLIGHT: usize = 2;

/// Inputs queued with no picture back before we declare the decoder dead.
/// It takes STALL_POLL_MS of wall clock as well: 60 access units are 2 s of
/// video only when the caller feeds in real time, and a receiver catching up
/// after a jitter-buffer burst can legitimately push a whole second of video
/// into the hardware in a few milliseconds.
pub const STALL_INPUTS: u32 = 60;

/// Wall-clock budget for waiting on the hardware inside one `decode` call.
pub const STALL_POLL_MS: u64 = 2_000;

pub const POLL_STEP_MS: i32 = 200;

/// Poll rounds without progress that make a stall: the budget in steps.
pub const MAX_IDLE_ROUNDS: u64 = 10;

/// Poll rounds spent waiting for the end-of-sequence buffer when a resolution
/// change arrives, before the CAPTURE queue is rebuilt anyway.
pub const DRAIN_ROUNDS: u32 = 5;

/// The most that is ever collected in one go: more than any device has.
pub const PATIENCE: u64 = u64::MAX;

const OUT: u32 = V4L2_BUF_TYPE_VIDEO_OUTPUT_MPLANE;

const CAP: u32 = V4L2_BUF_TYPE_VIDEO_CAPTURE_MPLANE;

/// What was being done when a device refused.
#[derive(Debug, Clone, Copy, PartialEq, Eq, Structural)]
pub enum Step {
    QueryCap,
    EnumFmt,
    SetOutputFormat,
    SubscribeSourceChange,
    SubscribeEos,
    AllocateOutput,
    StreamonOutput,
    GetCaptureFormat,
    SetCaptureFormat,
    AllocateCapture,
    QueueCapture,
    StreamonCapture,
    StreamoffCapture,
    ReleaseCapture,
    Poll,
    Dqevent,
    DqbufOutput,
    DqbufCapture,
    RequeueCapture,
    QbufOutput,
}

/// Why the decoder failed.
#[derive(Debug, Clone)]
pub enum DecoderError {
    Device { step: Step, cause: OpsError },
    Queue { step: Step, cause: QueueError },
    /// Not a multiplanar memory-to-memory codec.
    NotM2m { caps: u32 },
    NoH264,
    NoNv12,
    RefusedNv12 { pixelformat: u32 },
    FewOutputBuffers { granted: usize },
    SmallOutputBuffer { len: usize },
    AccessUnit(AccessUnitError),
    TooLarge { len: usize },
    Finished,
    NoFreeBuffer,
    TooLargeForBuffer { len: usize, room: usize },
    Geometry {
        width: u32,
        height: u32,
        left: u32,
        top: u32,
        stride: u32,
        coded_height: u32,
        len: usize,
    },
    /// Nothing moved for as long as is waited.
    Stalled,
    /// Many inputs, and no picture for as long as is waited.
    NoPicture { unanswered: u32, idle_ms: u64 },
    /// The driver dropped the stream.
    PollError,
    CaptureMissing,
}

struct Capture {
    queue: Queue,
    /// Coded (allocated) size and stride reported by the driver.
    coded: FormatInfo,
    /// Visible picture inside the coded frame.
    visible: v4l2_rect,
    /// True until the first SOURCE_CHANGE. The queue streams with the
    /// driver's default (tiny) format so the M2M pipeline runs while the
    /// decoder parses the first SPS; no picture ever comes out of it.
    provisional: bool,
}

pub struct V4l2Decoder<O: Ops> {
    pub ops: O,
    pub output: Queue,
    capture: Option<Capture>,
    /// Pictures dequeued but not yet handed to the caller (a `decode` call
    /// returns at most one, and draining a sequence can produce several).
    ready: VecDeque<RawFrame>,
    unanswered: u32,
    /// When the decoder last produced a picture (or was opened).
    last_picture: Instant,
    finished: bool,
    /// Set when a CAPTURE buffer carried `V4L2_BUF_FLAG_LAST`, i.e. the
    /// driver has finished the sequence it was decoding.
    saw_last: bool,
}

// ---- the model ----

/// The CAPTURE side.
#[verifier::ext_equal]
pub struct CaptureState {
    pub queue: QueueState,
    pub coded: FormatInfo,
    pub visible: v4l2_rect,
    pub provisional: bool,
}

/// A decoder, together with what has been asked of its device.
#[verifier::ext_equal]
pub struct DecoderState {
    pub world: World,
    pub output: QueueState,
    pub capture: Option<CaptureState>,
    pub ready: Seq<RawFrameView>,
    pub unanswered: u32,
    pub last_picture: Instant,
    pub finished: bool,
    pub saw_last: bool,
}

pub open spec fn frames(v: Seq<RawFrame>) -> Seq<RawFrameView> {
    Seq::new(v.len(), |i: int| v[i]@)
}

/// A bit of a word of flags.
pub open spec fn has_bit(word: u32, bit: u32) -> bool {
    word / bit % 2 == 1
}

/// Whether the device lists a format from `i` on.
pub open spec fn supports(s: Script, w: World, buf_type: u32, fourcc: u32, i: u32) -> (
    World,
    Result<bool, DecoderError>,
)
    decreases u32::MAX - i,
{
    let w1 = w.then_asked(Call::EnumFmt { buf_type, index: i });
    match (s.enum_fmt)(w.turn) {
        Err(cause) => (w1, Err(DecoderError::Device { step: Step::EnumFmt, cause })),
        Ok(None) => (w1, Ok(false)),
        Ok(Some(f)) => if f == fourcc {
            (w1, Ok(true))
        } else if i == u32::MAX {
            (w1, Ok(false))
        } else {
            supports(s, w1, buf_type, fourcc, (i + 1) as u32)
        },
    }
}

/// The visible rectangle: what the driver composes, or all of the frame.
pub open spec fn visible_rect(s: Script, w: World, coded: FormatInfo) -> (World, v4l2_rect) {
    let w1 = w.then_asked(Call::Compose { buf_type: V4L2_BUF_TYPE_VIDEO_CAPTURE_MPLANE });
    match (s.compose)(w.turn) {
        Ok(r) if r.width > 0 && r.height > 0 => (w1, r),
        _ => (w1, v4l2_rect { left: 0, top: 0, width: coded.width, height: coded.height }),
    }
}

/// Every buffer from `i` on handed to the driver.
pub open spec fn queue_all(s: Script, w: World, q: QueueState, i: nat) -> (
    World,
    QueueState,
    Result<(), DecoderError>,
)
    decreases q.buffers.len() - i,
{
    if i >= q.buffers.len() {
        (w, q, Ok(()))
    } else {
        let (w1, q1, r) = q.queued(s, w, i as usize, 0, 0);
        match r {
            Err(cause) => (w1, q1, Err(DecoderError::Queue { step: Step::QueueCapture, cause })),
            Ok(_) => if q1.buffers.len() == q.buffers.len() {
                queue_all(s, w1, q1, i + 1)
            } else {
                (w1, q1, Ok(()))
            },
        }
    }
}

pub open spec fn queue_all_and_start(s: Script, w: World, q: QueueState) -> (
    World,
    QueueState,
    Result<(), DecoderError>,
) {
    let (w1, q1, r) = queue_all(s, w, q, 0);
    match r {
        Err(e) => (w1, q1, Err(e)),
        Ok(_) => {
            let (w2, q2, r2) = q1.started(s, w1);
            match r2 {
                Err(cause) => (
                    w2,
                    q2,
                    Err(DecoderError::Device { step: Step::StreamonCapture, cause }),
                ),
                Ok(_) => (w2, q2, Ok(())),
            }
        },
    }
}

pub open spec fn allocate_and_start(s: Script, w: World, q: QueueState, count: u32) -> (
    World,
    QueueState,
    Result<(), DecoderError>,
) {
    let (w1, q1, r) = q.allocated(s, w, count, true);
    match r {
        Err(cause) => (w1, q1, Err(DecoderError::Device { step: Step::AllocateCapture, cause })),
        Ok(_) => queue_all_and_start(s, w1, q1),
    }
}

/// How many CAPTURE buffers are asked for: what the driver needs at least, and
/// two more, but never fewer than the default.
pub open spec fn capture_count(min: Result<i32, OpsError>) -> u32 {
    match min {
        Ok(n) if n + 2 > CAPTURE_BUFFERS => (n + 2) as u32,
        _ => CAPTURE_BUFFERS,
    }
}

/// The CAPTURE queue formatted to NV12 at whatever size the driver reports,
/// with its buffers allocated and queued, and streaming. What was set up is
/// given back if a step fails.
pub open spec fn bring_up(s: Script, w: World, provisional: bool) -> (
    World,
    Result<CaptureState, DecoderError>,
) {
    let cap_type = V4L2_BUF_TYPE_VIDEO_CAPTURE_MPLANE;
    let w1 = w.then_asked(Call::GFmt { buf_type: cap_type });
    match (s.g_fmt)(w.turn) {
        Err(cause) => (w1, Err(DecoderError::Device { step: Step::GetCaptureFormat, cause })),
        Ok(reported) => {
            let want = FormatInfo { pixelformat: V4L2_PIX_FMT_NV12, ..reported };
            let w2 = w1.then_asked(Call::SFmt { buf_type: cap_type, want });
            match (s.s_fmt)(w1.turn) {
                Err(cause) => (
                    w2,
                    Err(DecoderError::Device { step: Step::SetCaptureFormat, cause }),
                ),
                Ok(coded) => if coded.pixelformat != V4L2_PIX_FMT_NV12 {
                    (w2, Err(DecoderError::RefusedNv12 { pixelformat: coded.pixelformat }))
                } else {
                    let w3 = w2.then_asked(Call::GCtrl { id: V4L2_CID_MIN_BUFFERS_FOR_CAPTURE });
                    let count = capture_count((s.g_ctrl)(w2.turn));
                    let (w4, q, r) = allocate_and_start(s, w3, QueueState::new(cap_type), count);
                    match r {
                        Err(e) => (q.released(s, w4).0, Err(e)),
                        Ok(_) => {
                            let (w5, visible) = visible_rect(s, w4, coded);
                            (w5, Ok(CaptureState { queue: q, coded, visible, provisional }))
                        },
                    }
                },
            }
        },
    }
}

/// The first output buffer from `i` on that is smaller than it must be.
pub open spec fn small_buffer(q: QueueState, i: int) -> Option<usize>
    decreases q.buffers.len() - i,
{
    if i >= q.buffers.len() {
        None
    } else if q.buffers[i].mapping.len < OUTPUT_BUFFER_SIZE {
        Some(q.buffers[i].mapping.len)
    } else {
        small_buffer(q, i + 1)
    }
}

/// What a device can do: its own capabilities, if it says so.
pub open spec fn effective_caps(capabilities: u32, device_caps: u32) -> u32 {
    if has_bit(capabilities, V4L2_CAP_DEVICE_CAPS) {
        device_caps
    } else {
        capabilities
    }
}

/// A device checked for what the decoder needs: up to and with its output
/// format and events.
pub open spec fn prepared(s: Script, w: World) -> (World, Result<(), DecoderError>) {
    let (out, cap) = (V4L2_BUF_TYPE_VIDEO_OUTPUT_MPLANE, V4L2_BUF_TYPE_VIDEO_CAPTURE_MPLANE);
    let w1 = w.then_asked(Call::QueryCap);
    match (s.query_cap)(w.turn) {
        Err(cause) => (w1, Err(DecoderError::Device { step: Step::QueryCap, cause })),
        Ok(c) => {
            let caps = effective_caps(c.capabilities, c.device_caps);
            if !has_bit(caps, V4L2_CAP_VIDEO_M2M_MPLANE) {
                (w1, Err(DecoderError::NotM2m { caps }))
            } else {
                let (w2, h264) = supports(s, w1, out, V4L2_PIX_FMT_H264, 0);
                match h264 {
                    Err(e) => (w2, Err(e)),
                    Ok(false) => (w2, Err(DecoderError::NoH264)),
                    Ok(true) => {
                        let (w3, nv12) = supports(s, w2, cap, V4L2_PIX_FMT_NV12, 0);
                        match nv12 {
                            Err(e) => (w3, Err(e)),
                            Ok(false) => (w3, Err(DecoderError::NoNv12)),
                            Ok(true) => configured(s, w3),
                        }
                    },
                }
            }
        },
    }
}

/// The output format set and the events subscribed to.
pub open spec fn configured(s: Script, w: World) -> (World, Result<(), DecoderError>) {
    let want = FormatInfo {
        width: 0,
        height: 0,
        pixelformat: V4L2_PIX_FMT_H264,
        bytesperline: 0,
        sizeimage: OUTPUT_BUFFER_SIZE,
    };
    let w1 = w.then_asked(Call::SFmt { buf_type: V4L2_BUF_TYPE_VIDEO_OUTPUT_MPLANE, want });
    match (s.s_fmt)(w.turn) {
        Err(cause) => (w1, Err(DecoderError::Device { step: Step::SetOutputFormat, cause })),
        Ok(_) => {
            let w2 = w1.then_asked(Call::Subscribe { event_type: V4L2_EVENT_SOURCE_CHANGE });
            match (s.subscribe)(w1.turn) {
                Err(cause) => (
                    w2,
                    Err(DecoderError::Device { step: Step::SubscribeSourceChange, cause }),
                ),
                Ok(_) => {
                    let w3 = w2.then_asked(Call::Subscribe { event_type: V4L2_EVENT_EOS });
                    match (s.subscribe)(w2.turn) {
                        Err(cause) => (
                            w3,
                            Err(DecoderError::Device { step: Step::SubscribeEos, cause }),
                        ),
                        Ok(_) => (w3, Ok(())),
                    }
                },
            }
        },
    }
}

/// The output queue allocated, large enough, and streaming.
pub open spec fn output_up(s: Script, w: World) -> (World, Result<QueueState, DecoderError>) {
    let (w1, q, r) = QueueState::new(V4L2_BUF_TYPE_VIDEO_OUTPUT_MPLANE).allocated(
        s,
        w,
        OUTPUT_BUFFERS,
        false,
    );
    match r {
        Err(cause) => (w1, Err(DecoderError::Device { step: Step::AllocateOutput, cause })),
        Ok(_) => if q.buffers.len() < MAX_IN_FLIGHT {
            (w1, Err(DecoderError::FewOutputBuffers { granted: q.buffers.len() as usize }))
        } else {
            match small_buffer(q, 0) {
                Some(len) => (w1, Err(DecoderError::SmallOutputBuffer { len })),
                None => {
                    let (w2, q2, r2) = q.started(s, w1);
                    match r2 {
                        Err(cause) => (
                            w2,
                            Err(DecoderError::Device { step: Step::StreamonOutput, cause }),
                        ),
                        Ok(_) => (w2, Ok(q2)),
                    }
                },
            }
        },
    }
}

/// A decoder opened on a device: both queues streaming before the first access
/// unit.
pub open spec fn opened(s: Script, w: World) -> Result<DecoderState, DecoderError> {
    let (w1, ready) = prepared(s, w);
    match ready {
        Err(e) => Err(e),
        Ok(_) => {
            let (w2, out) = output_up(s, w1);
            match out {
                Err(e) => Err(e),
                Ok(output) => {
                    let (w3, cap) = bring_up(s, w2, true);
                    match cap {
                        Err(e) => Err(e),
                        Ok(capture) => Ok(
                            DecoderState {
                                world: w3.then_asked(Call::Now),
                                output,
                                capture: Some(capture),
                                ready: Seq::empty(),
                                unanswered: 0,
                                last_picture: (s.now)(w3.turn),
                                finished: false,
                                saw_last: false,
                            },
                        ),
                    }
                },
            }
        },
    }
}

pub open spec fn not_negative(x: i32) -> u32 {
    if x > 0 {
        x as u32
    } else {
        0
    }
}

/// The picture in a dequeued CAPTURE buffer. Anything decoded before the first
/// source change is at the driver's default geometry rather than the stream's,
/// and is never handed on; an empty buffer is the driver's end marker.
pub open spec fn picture(
    s: Script,
    w: World,
    c: CaptureState,
    d: Dequeued,
) -> (World, Result<Option<RawFrameView>, DecoderError>) {
    if c.provisional || d.bytesused == 0 {
        (w, Ok(None))
    } else {
        let w1 = w.then_asked(Call::Load { mapping: c.queue.buffers[d.index as int].mapping });
        let src = (s.load)(w.turn);
        let (left, top) = (not_negative(c.visible.left), not_negative(c.visible.top));
        let (width, height) = (c.visible.width, c.visible.height);
        let (stride, coded_height) = (c.coded.bytesperline, c.coded.height);
        if fits(
            src.len() as int,
            stride as int,
            coded_height as int,
            left as int,
            top as int,
            width as int,
            height as int,
        ) {
            (
                w1,
                Ok(
                    Some(
                        RawFrameView {
                            format: PixelFormat::Nv12,
                            width,
                            height,
                            stride: width,
                            data: cropped(
                                src,
                                stride as int,
                                coded_height as int,
                                left as int,
                                top as int,
                                width as int,
                                height as int,
                            ),
                            timestamp_us: d.timestamp_us,
                        },
                    ),
                ),
            )
        } else {
            (
                w1,
                Err(
                    DecoderError::Geometry {
                        width,
                        height,
                        left,
                        top,
                        stride,
                        coded_height,
                        len: src.len() as usize,
                    },
                ),
            )
        }
    }
}

/// A CAPTURE buffer given back to the driver, unless it ended the sequence. A
/// refusal as an invalid argument means that the driver has re-formatted the
/// queue already: that ends the sequence too.
pub open spec fn recycled(
    s: Script,
    w: World,
    c: CaptureState,
    index: usize,
    last: bool,
) -> (World, CaptureState, Result<bool, DecoderError>) {
    if last {
        (w, c, Ok(true))
    } else {
        let (w1, q, r) = c.queue.queued(s, w, index, 0, 0);
        let c1 = CaptureState { queue: q, ..c };
        match r {
            Ok(_) => (w1, c1, Ok(false)),
            Err(cause) => if cause.errno() == Some(EINVAL) {
                (w1, c1, Ok(true))
            } else {
                (w1, c1, Err(DecoderError::Queue { step: Step::RequeueCapture, cause }))
            },
        }
    }
}

impl DecoderState {
    /// One decoded picture out of a CAPTURE buffer, which is requeued. Nothing
    /// means nothing was ready; nothing in something means that the buffer
    /// carried no picture.
    pub open spec fn take(self, s: Script) -> (
        DecoderState,
        Result<Option<Option<RawFrameView>>, DecoderError>,
    ) {
        match self.capture {
            None => (self, Ok(None)),
            Some(c) => {
                let (w1, q1, r) = c.queue.dequeued(s, self.world);
                let c1 = CaptureState { queue: q1, ..c };
                let d1 = DecoderState { world: w1, capture: Some(c1), ..self };
                match r {
                    Err(cause) => (
                        d1,
                        Err(DecoderError::Queue { step: Step::DqbufCapture, cause }),
                    ),
                    Ok(Dequeue::Idle) => (d1, Ok(None)),
                    Ok(Dequeue::EndOfSequence) => (
                        DecoderState { saw_last: true, ..d1 },
                        Ok(None),
                    ),
                    Ok(Dequeue::Buffer(b)) => d1.taken(s, c1, b),
                }
            },
        }
    }

    /// The rest of `take`, with a buffer dequeued.
    pub open spec fn taken(self, s: Script, c: CaptureState, b: Dequeued) -> (
        DecoderState,
        Result<Option<Option<RawFrameView>>, DecoderError>,
    ) {
        let (w2, frame) = picture(s, self.world, c, b);
        let (w3, c3, back) = recycled(
            s,
            w2,
            c,
            b.index as usize,
            has_bit(b.flags, V4L2_BUF_FLAG_LAST),
        );
        let d3 = DecoderState {
            world: w3,
            capture: Some(c3),
            saw_last: self.saw_last || back == Ok::<bool, DecoderError>(true),
            ..self
        };
        match (back, frame) {
            (Err(e), _) => (d3, Err(e)),
            (Ok(_), Err(e)) => (d3, Err(e)),
            (Ok(_), Ok(None)) => (d3, Ok(Some(None))),
            (Ok(_), Ok(Some(f))) => (
                DecoderState {
                    unanswered: 0,
                    last_picture: (s.now)(w3.turn),
                    world: w3.then_asked(Call::Now),
                    ..d3
                },
                Ok(Some(Some(f))),
            ),
        }
    }

    /// Up to `limit` CAPTURE buffers dequeued, their pictures held for the
    /// caller.
    pub open spec fn collect_more(self, s: Script, limit: nat, any: bool) -> (
        DecoderState,
        Result<bool, DecoderError>,
    )
        decreases limit,
    {
        if limit == 0 {
            (self, Ok(any))
        } else {
            let (d, r) = self.take(s);
            match r {
                Err(e) => (d, Err(e)),
                Ok(None) => (d, Ok(any)),
                Ok(Some(p)) => {
                    let d1 = match p {
                        Some(f) => DecoderState { ready: d.ready.push(f), ..d },
                        None => d,
                    };
                    if d1.saw_last {
                        (d1, Ok(true))
                    } else {
                        d1.collect_more(s, (limit - 1) as nat, true)
                    }
                },
            }
        }
    }

    /// As `collect_more`; once the sequence has ended, nothing is asked for.
    pub open spec fn collect(self, s: Script, limit: nat) -> (
        DecoderState,
        Result<bool, DecoderError>,
    ) {
        if self.saw_last {
            (self, Ok(false))
        } else {
            self.collect_more(s, limit, false)
        }
    }

    /// Every OUTPUT buffer that is ready dequeued.
    pub open spec fn drain_output(self, s: Script, any: bool, left: nat) -> (
        DecoderState,
        Result<bool, DecoderError>,
    )
        decreases left,
    {
        if left == 0 {
            (self, Ok(any))
        } else {
            let (w1, q1, r) = self.output.dequeued(s, self.world);
            let d1 = DecoderState { world: w1, output: q1, ..self };
            match r {
                Err(cause) => (d1, Err(DecoderError::Queue { step: Step::DqbufOutput, cause })),
                Ok(Dequeue::Buffer(_)) => d1.drain_output(s, true, (left - 1) as nat),
                Ok(_) => (d1, Ok(any)),
            }
        }
    }

    /// One wait on the device.
    pub open spec fn polled(self, s: Script) -> (DecoderState, Result<(), DecoderError>) {
        let d1 = DecoderState {
            world: self.world.then_asked(Call::Poll { timeout_ms: POLL_STEP_MS }),
            ..self
        };
        match (s.poll)(self.world.turn) {
            Err(cause) => (d1, Err(DecoderError::Device { step: Step::Poll, cause })),
            Ok(p) => if p.error {
                (d1, Err(DecoderError::PollError))
            } else {
                (d1, Ok(()))
            },
        }
    }

    /// The tail of the current sequence, over at most `rounds` waits.
    pub open spec fn drain_rounds(self, s: Script, rounds: nat) -> (
        DecoderState,
        Result<(), DecoderError>,
    )
        decreases rounds,
    {
        let (d1, r1) = self.collect(s, usize::MAX as nat);
        match r1 {
            Err(e) => (d1, Err(e)),
            Ok(_) => if rounds == 0 || d1.saw_last {
                (d1, Ok(()))
            } else {
                let (d2, r2) = d1.drain_output(s, false, PATIENCE as nat);
                match r2 {
                    Err(e) => (d2, Err(e)),
                    Ok(_) => {
                        let (d3, r3) = d2.polled(s);
                        match r3 {
                            Err(e) => (d3, Err(e)),
                            Ok(_) => d3.drain_rounds(s, (rounds - 1) as nat),
                        }
                    },
                }
            },
        }
    }

    pub open spec fn drain_to_last(self, s: Script) -> (DecoderState, Result<(), DecoderError>) {
        DecoderState { saw_last: false, ..self }.drain_rounds(s, DRAIN_ROUNDS as nat)
    }

    /// A source change applied: the old sequence is finished first, then the
    /// queue is restarted, with new buffers unless the geometry is the same.
    pub open spec fn reconfigure(self, s: Script) -> (DecoderState, Result<(), DecoderError>) {
        let provisional = self.capture matches Some(c) && c.provisional;
        let (d1, r1) = if provisional {
            (self, Ok(()))
        } else {
            self.drain_to_last(s)
        };
        match r1 {
            Err(e) => (d1, Err(e)),
            Ok(_) => match d1.capture {
                None => (d1, Err(DecoderError::CaptureMissing)),
                Some(old) => DecoderState { capture: None, ..d1 }.rebuilt(s, old),
            },
        }
    }

    /// The rest of `reconfigure`, with the old CAPTURE side in hand.
    pub open spec fn rebuilt(self, s: Script, old: CaptureState) -> (
        DecoderState,
        Result<(), DecoderError>,
    ) {
        let (w1, q1, r1) = if old.queue.streaming {
            old.queue.stopped(s, self.world)
        } else {
            (self.world, old.queue, Ok(()))
        };
        match r1 {
            Err(cause) => (
                DecoderState { world: w1, ..self },
                Err(DecoderError::Device { step: Step::StreamoffCapture, cause }),
            ),
            Ok(_) => {
                let w2 = w1.then_asked(
                    Call::GFmt { buf_type: V4L2_BUF_TYPE_VIDEO_CAPTURE_MPLANE },
                );
                match (s.g_fmt)(w1.turn) {
                    Err(cause) => (
                        DecoderState { world: w2, ..self },
                        Err(DecoderError::Device { step: Step::GetCaptureFormat, cause }),
                    ),
                    Ok(reported) => if same_geometry(old, reported) {
                        let (w3, visible) = visible_rect(s, w2, old.coded);
                        let (w4, q4, r4) = queue_all_and_start(s, w3, q1);
                        match r4 {
                            Err(e) => (DecoderState { world: w4, ..self }, Err(e)),
                            Ok(_) => (
                                DecoderState {
                                    world: w4,
                                    saw_last: false,
                                    capture: Some(CaptureState { queue: q4, visible, ..old }),
                                    ..self
                                },
                                Ok(()),
                            ),
                        }
                    } else {
                        let (w3, _, r3) = q1.released(s, w2);
                        match r3 {
                            Err(cause) => (
                                DecoderState { world: w3, ..self },
                                Err(DecoderError::Device { step: Step::ReleaseCapture, cause }),
                            ),
                            Ok(_) => {
                                let (w4, r4) = bring_up(s, w3, false);
                                match r4 {
                                    Err(e) => (DecoderState { world: w4, ..self }, Err(e)),
                                    Ok(c) => (
                                        DecoderState {
                                            world: w4,
                                            saw_last: false,
                                            capture: Some(c),
                                            ..self
                                        },
                                        Ok(()),
                                    ),
                                }
                            },
                        }
                    },
                }
            },
        }
    }

    /// What one event does.
    pub open spec fn on_event(self, s: Script, ev: Event) -> (
        DecoderState,
        Result<(), DecoderError>,
    ) {
        if ev.kind == V4L2_EVENT_SOURCE_CHANGE {
            if ev.changes % 2 == 1 {
                self.reconfigure(s)
            } else {
                (self, Ok(()))
            }
        } else if ev.kind == V4L2_EVENT_EOS {
            (DecoderState { finished: true, ..self }, Ok(()))
        } else {
            (self, Ok(()))
        }
    }

    /// Every pending event handled; the result says whether there was any.
    pub open spec fn drain_events(self, s: Script, any: bool, left: nat) -> (
        DecoderState,
        Result<bool, DecoderError>,
    )
        decreases left,
    {
        if left == 0 {
            (self, Ok(any))
        } else {
            let d1 = DecoderState { world: self.world.then_asked(Call::Dqevent), ..self };
            match (s.dqevent)(self.world.turn) {
                Err(cause) => (d1, Err(DecoderError::Device { step: Step::Dqevent, cause })),
                Ok(None) => (d1, Ok(any)),
                Ok(Some(ev)) => {
                    let (d2, r2) = d1.on_event(s, ev);
                    match r2 {
                        Err(e) => (d2, Err(e)),
                        Ok(_) => d2.drain_events(s, true, (left - 1) as nat),
                    }
                },
            }
        }
    }

    /// One round of waiting for a slot: events, finished inputs, and a picture
    /// if there is budget for one. The result says whether anything moved, and
    /// what budget is left.
    pub open spec fn serviced(self, s: Script, budget: nat) -> (
        DecoderState,
        Result<(bool, nat), DecoderError>,
    ) {
        let (d1, r1) = self.polled(s);
        match r1 {
            Err(e) => (d1, Err(e)),
            Ok(_) => {
                let (d2, r2) = d1.drain_events(s, false, PATIENCE as nat);
                match r2 {
                    Err(e) => (d2, Err(e)),
                    Ok(events) => {
                        let (d3, r3) = d2.drain_output(s, false, PATIENCE as nat);
                        match r3 {
                            Err(e) => (d3, Err(e)),
                            Ok(outputs) => if budget == 0 {
                                (d3, Ok((events || outputs, budget)))
                            } else {
                                let (d4, r4) = d3.collect(s, 1);
                                match r4 {
                                    Err(e) => (d4, Err(e)),
                                    Ok(true) => (d4, Ok((true, (budget - 1) as nat))),
                                    Ok(false) => (d4, Ok((events || outputs, budget))),
                                }
                            },
                        }
                    },
                }
            },
        }
    }

    /// Waited until an OUTPUT slot is free. A round in which nothing moves
    /// recycles one picture anyway, once, since the driver may be waiting for
    /// the buffer it is in; ten such rounds in a row are a stall.
    pub open spec fn wait(
        self,
        s: Script,
        budget: nat,
        fallback: nat,
        idle: nat,
        left: nat,
    ) -> (DecoderState, Result<nat, DecoderError>)
        decreases left,
    {
        if self.output.flying() < MAX_IN_FLIGHT {
            (self, Ok(budget))
        } else if left == 0 {
            (self, Err(DecoderError::Stalled))
        } else {
            let (d1, r1) = self.serviced(s, budget);
            match r1 {
                Err(e) => (d1, Err(e)),
                Ok((true, budget1)) => d1.wait(s, budget1, fallback, 0, (left - 1) as nat),
                Ok((false, budget1)) => {
                    let (d2, r2) = if fallback > 0 {
                        d1.collect(s, 1)
                    } else {
                        (d1, Ok(false))
                    };
                    match r2 {
                        Err(e) => (d2, Err(e)),
                        Ok(true) => d2.wait(
                            s,
                            budget1,
                            (fallback - 1) as nat,
                            0,
                            (left - 1) as nat,
                        ),
                        Ok(false) => if idle + 1 >= MAX_IDLE_ROUNDS {
                            (d2, Err(DecoderError::Stalled))
                        } else {
                            d2.wait(s, budget1, fallback, idle + 1, (left - 1) as nat)
                        },
                    }
                },
            }
        }
    }

    /// One access unit fed in, and at most one picture out.
    pub open spec fn decoded(self, s: Script, data: Seq<u8>, timestamp_us: u64) -> (
        DecoderState,
        Result<Option<RawFrameView>, DecoderError>,
    ) {
        match unit_fault(data) {
            Err(e) => (self, Err(DecoderError::AccessUnit(e))),
            Ok(_) => if data.len() > OUTPUT_BUFFER_SIZE {
                (self, Err(DecoderError::TooLarge { len: data.len() as usize }))
            } else if self.finished {
                (self, Err(DecoderError::Finished))
            } else {
                let (d1, r1) = self.wait(s, 1, 1, 0, PATIENCE as nat);
                match r1 {
                    Err(e) => (d1, Err(e)),
                    Ok(budget) => match d1.output.free_from(0) {
                        None => (d1, Err(DecoderError::NoFreeBuffer)),
                        Some(slot) => d1.fed(s, data, timestamp_us, slot, budget),
                    },
                }
            },
        }
    }

    /// The rest of `decoded`, with a slot to put the unit in.
    pub open spec fn fed(
        self,
        s: Script,
        data: Seq<u8>,
        timestamp_us: u64,
        slot: usize,
        budget: nat,
    ) -> (DecoderState, Result<Option<RawFrameView>, DecoderError>) {
        let mapping = self.output.buffers[slot as int].mapping;
        if data.len() > mapping.len {
            (
                self,
                Err(
                    DecoderError::TooLargeForBuffer {
                        len: data.len() as usize,
                        room: mapping.len,
                    },
                ),
            )
        } else {
            let w1 = self.world.then_asked(Call::Store { mapping, data });
            let (w2, q2, r2) = self.output.queued(s, w1, slot, data.len() as u32, timestamp_us);
            let d2 = DecoderState { world: w2, output: q2, ..self };
            match r2 {
                Err(cause) => (d2, Err(DecoderError::Queue { step: Step::QbufOutput, cause })),
                Ok(_) => {
                    let d3 = DecoderState {
                        unanswered: if d2.unanswered < u32::MAX {
                            (d2.unanswered + 1) as u32
                        } else {
                            u32::MAX
                        },
                        ..d2
                    };
                    let (d4, r4) = d3.drain_events(s, false, PATIENCE as nat);
                    match r4 {
                        Err(e) => (d4, Err(e)),
                        Ok(_) => {
                            let (d5, r5) = if budget > 0 {
                                d4.collect(s, budget)
                            } else {
                                (d4, Ok(false))
                            };
                            match r5 {
                                Err(e) => (d5, Err(e)),
                                Ok(_) => d5.answered(s),
                            }
                        },
                    }
                },
            }
        }
    }

    /// The rest of `decoded`: the oldest picture that is ready, or the verdict
    /// that the decoder has stalled.
    pub open spec fn answered(self, s: Script) -> (
        DecoderState,
        Result<Option<RawFrameView>, DecoderError>,
    ) {
        let idle = since((s.now)(self.world.turn), self.last_picture);
        let d1 = DecoderState { world: self.world.then_asked(Call::Now), ..self };
        if self.ready.len() == 0 && self.unanswered >= STALL_INPUTS && idle >= STALL_POLL_MS
            * 1_000_000 {
            (
                d1,
                Err(
                    DecoderError::NoPicture {
                        unanswered: self.unanswered,
                        idle_ms: (idle / 1_000_000) as u64,
                    },
                ),
            )
        } else {
            d1.handed_over()
        }
    }

    /// The oldest picture that is ready, taken off.
    pub open spec fn handed_over(self) -> (
        DecoderState,
        Result<Option<RawFrameView>, DecoderError>,
    ) {
        if self.ready.len() == 0 {
            (self, Ok(None))
        } else {
            (
                DecoderState { ready: self.ready.drop_first(), ..self },
                Ok(Some(self.ready[0])),
            )
        }
    }

    /// A picture that the decoder has produced already, without feeding it.
    pub open spec fn polled_frame(self, s: Script) -> (
        DecoderState,
        Result<Option<RawFrameView>, DecoderError>,
    ) {
        if self.ready.len() > 0 {
            self.handed_over()
        } else {
            let (d1, r1) = self.polled(s);
            match r1 {
                Err(e) => (d1, Err(e)),
                Ok(_) => {
                    let (d2, r2) = d1.drain_events(s, false, PATIENCE as nat);
                    match r2 {
                        Err(e) => (d2, Err(e)),
                        Ok(_) => {
                            let (d3, r3) = d2.drain_output(s, false, PATIENCE as nat);
                            match r3 {
                                Err(e) => (d3, Err(e)),
                                Ok(_) => {
                                    let (d4, r4) = d3.collect(s, 1);
                                    match r4 {
                                        Err(e) => (d4, Err(e)),
                                        Ok(_) => d4.handed_over(),
                                    }
                                },
                            }
                        },
                    }
                },
            }
        }
    }

    /// Both queues released.
    pub open spec fn closed_down(self, s: Script) -> World {
        let w1 = match self.capture {
            Some(c) => c.queue.released(s, self.world).0,
            None => self.world,
        };
        self.output.released(s, w1).0
    }
}

/// The size of the visible picture, once the stream's own size is known.
pub open spec fn known_size(capture: Option<CaptureState>) -> Option<(u32, u32)> {
    match capture {
        Some(c) if !c.provisional => Some((c.visible.width, c.visible.height)),
        _ => None,
    }
}

pub open spec fn same_geometry(old: CaptureState, reported: FormatInfo) -> bool {
    !old.provisional && reported.width == old.coded.width && reported.height == old.coded.height
        && reported.bytesperline == old.coded.bytesperline && reported.sizeimage
        == old.coded.sizeimage
}

/// A picture result as its contents.
pub open spec fn result_view(r: Result<Option<RawFrame>, DecoderError>) -> Result<
    Option<RawFrameView>,
    DecoderError,
> {
    match r {
        Err(e) => Err(e),
        Ok(None) => Ok(None),
        Ok(Some(f)) => Ok(Some(f@)),
    }
}

// ---- the code ----

impl Capture {
    spec fn state(self) -> CaptureState {
        CaptureState {
            queue: self.queue@,
            coded: self.coded,
            visible: self.visible,
            provisional: self.provisional,
        }
    }
}

spec fn capture_state(c: Option<Capture>) -> Option<CaptureState> {
    match c {
        Some(c) => Some(c.state()),
        None => None,
    }
}

impl<O: Ops> View for V4l2Decoder<O> {
    type V = DecoderState;

    closed spec fn view(&self) -> DecoderState {
        DecoderState {
            world: self.ops.world(),
            output: self.output@,
            capture: capture_state(self.capture),
            ready: frames(self.ready@),
            unanswered: self.unanswered,
            last_picture: self.last_picture,
            finished: self.finished,
            saw_last: self.saw_last,
        }
    }
}

fn has_bit_of(word: u32, bit: u32) -> (r: bool)
    requires
        bit > 0,
    ensures
        r == has_bit(word, bit),
{
    word / bit % 2 == 1
}

fn not_negative_of(x: i32) -> (r: u32)
    ensures
        r == not_negative(x),
{
    if x > 0 {
        x as u32
    } else {
        0
    }
}

impl<O: Ops> V4l2Decoder<O> {
    /// The answers that the device will give.
    pub closed spec fn script(&self) -> Script {
        self.ops.script()
    }

    /// The device, checked for what the decoder needs.
    fn prepare(ops: &mut O) -> (r: Result<(), DecoderError>)
        ensures
            final(ops).script() == old(ops).script(),
            (final(ops).world(), r) == prepared(old(ops).script(), old(ops).world()),
    {
        let cap = match ops.query_cap() {
            Ok(c) => c,
            Err(cause) => return Err(DecoderError::Device { step: Step::QueryCap, cause }),
        };
        let caps: u32 = if has_bit_of(cap.capabilities, V4L2_CAP_DEVICE_CAPS) {
            cap.device_caps
        } else {
            cap.capabilities
        };
        if !has_bit_of(caps, V4L2_CAP_VIDEO_M2M_MPLANE) {
            return Err(DecoderError::NotM2m { caps });
        }
        match Self::supports(ops, OUT, V4L2_PIX_FMT_H264) {
            Err(e) => return Err(e),
            Ok(false) => return Err(DecoderError::NoH264),
            Ok(true) => {},
        }
        match Self::supports(ops, CAP, V4L2_PIX_FMT_NV12) {
            Err(e) => return Err(e),
            Ok(false) => return Err(DecoderError::NoNv12),
            Ok(true) => {},
        }
        let want = FormatInfo {
            width: 0,
            height: 0,
            pixelformat: V4L2_PIX_FMT_H264,
            bytesperline: 0,
            sizeimage: OUTPUT_BUFFER_SIZE,
        };
        match ops.s_fmt(OUT, &want) {
            Ok(_) => {},
            Err(cause) => return Err(DecoderError::Device { step: Step::SetOutputFormat, cause }),
        }
        match ops.subscribe(V4L2_EVENT_SOURCE_CHANGE) {
            Ok(_) => {},
            Err(cause) => return Err(
                DecoderError::Device { step: Step::SubscribeSourceChange, cause },
            ),
        }
        match ops.subscribe(V4L2_EVENT_EOS) {
            Ok(_) => Ok(()),
            Err(cause) => Err(DecoderError::Device { step: Step::SubscribeEos, cause }),
        }
    }

    /// The first output buffer that is smaller than it must be.
    fn small_buffer_of(q: &Queue) -> (r: Option<usize>)
        ensures
            r == small_buffer(q@, 0),
    {
        let n: usize = q.len();
        let mut i: usize = 0;
        while i < n
            invariant
                i <= n,
                n == q@.buffers.len(),
                small_buffer(q@, 0) == small_buffer(q@, i as int),
            decreases n - i,
        {
            let b = q.get(i);
            if b.mapping.len < OUTPUT_BUFFER_SIZE as usize {
                return Some(b.mapping.len);
            }
            i = i + 1;
        }
        None
    }

    /// The OUTPUT queue, allocated, large enough, and streaming.
    fn bring_up_output(ops: &mut O) -> (r: Result<Queue, DecoderError>)
        ensures
            final(ops).script() == old(ops).script(),
            final(ops).world() == output_up(old(ops).script(), old(ops).world()).0,
            match r {
                Ok(q) => output_up(old(ops).script(), old(ops).world()).1 == Ok::<
                    QueueState,
                    DecoderError,
                >(q@),
                Err(e) => output_up(old(ops).script(), old(ops).world()).1 == Err::<
                    QueueState,
                    DecoderError,
                >(e),
            },
    {
        let mut output = Queue::new(OUT);
        match output.allocate(ops, OUTPUT_BUFFERS, false) {
            Ok(_) => {},
            Err(cause) => return Err(DecoderError::Device { step: Step::AllocateOutput, cause }),
        }
        if output.len() < MAX_IN_FLIGHT {
            return Err(DecoderError::FewOutputBuffers { granted: output.len() });
        }
        if let Some(len) = Self::small_buffer_of(&output) {
            return Err(DecoderError::SmallOutputBuffer { len });
        }
        match output.stream_on(ops) {
            Ok(_) => Ok(output),
            Err(cause) => Err(DecoderError::Device { step: Step::StreamonOutput, cause }),
        }
    }

    /// Opens a decoder on a device.
    ///
    /// The CAPTURE side is brought up provisionally (driver-default format,
    /// real buffers) before the first access unit: an M2M job only runs when
    /// both queues are streaming with buffers queued, so the pipeline is
    /// running during the warm-up, the pictures decoded from the access units
    /// fed meanwhile survive the reconfiguration, and the first source change
    /// takes exactly the same path as every later one.
    pub fn with_ops(ops: O) -> (r: Result<Self, DecoderError>)
        ensures
            match r {
                Ok(d) => d.script() == ops.script() && opened(ops.script(), ops.world()) == Ok::<
                    DecoderState,
                    DecoderError,
                >(d@),
                Err(e) => opened(ops.script(), ops.world()) == Err::<DecoderState, DecoderError>(
                    e,
                ),
            },
    {
        let mut ops = ops;
        match Self::prepare(&mut ops) {
            Ok(_) => {},
            Err(e) => return Err(e),
        }
        let mut output = match Self::bring_up_output(&mut ops) {
            Ok(q) => q,
            Err(e) => return Err(e),
        };
        let capture = match Self::bring_up_capture(&mut ops, true) {
            Ok(c) => c,
            Err(e) => {
                let _ = output.release(&mut ops);
                return Err(e);
            },
        };
        let last_picture = ops.now();
        let d = V4l2Decoder {
            ops,
            output,
            capture: Some(capture),
            ready: VecDeque::new(),
            unanswered: 0,
            last_picture,
            finished: false,
            saw_last: false,
        };
        assert(frames(d.ready@) =~= Seq::empty());
        Ok(d)
    }

    fn supports(ops: &mut O, buf_type: u32, fourcc: u32) -> (r: Result<bool, DecoderError>)
        ensures
            final(ops).script() == old(ops).script(),
            (final(ops).world(), r) == supports(
                old(ops).script(),
                old(ops).world(),
                buf_type,
                fourcc,
                0,
            ),
    {
        let ghost s = ops.script();
        let ghost whole = supports(s, ops.world(), buf_type, fourcc, 0);
        let mut i: u32 = 0;
        loop
            invariant
                s == ops.script(),
                s == old(ops).script(),
                whole == supports(s, old(ops).world(), buf_type, fourcc, 0),
                whole == supports(s, ops.world(), buf_type, fourcc, i),
            decreases u32::MAX - i,
        {
            match ops.enum_fmt(buf_type, i) {
                Err(cause) => return Err(DecoderError::Device { step: Step::EnumFmt, cause }),
                Ok(None) => return Ok(false),
                Ok(Some(f)) => {
                    if f == fourcc {
                        return Ok(true);
                    }
                    if i == u32::MAX {
                        return Ok(false);
                    }
                },
            }
            i = i + 1;
        }
    }

    /// Visible (width, height) once the stream's SPS has been parsed.
    pub fn frame_size(&self) -> (r: Option<(u32, u32)>)
        ensures
            r == known_size(self@.capture),
    {
        match &self.capture {
            Some(c) => if c.provisional {
                None
            } else {
                Some((c.visible.width, c.visible.height))
            },
            None => None,
        }
    }

    /// Format the CAPTURE queue to NV12 at whatever size the driver reports,
    /// allocate and queue buffers, and start it streaming.
    fn bring_up_capture(ops: &mut O, provisional: bool) -> (r: Result<Capture, DecoderError>)
        ensures
            final(ops).script() == old(ops).script(),
            final(ops).world() == bring_up(old(ops).script(), old(ops).world(), provisional).0,
            match r {
                Ok(c) => bring_up(old(ops).script(), old(ops).world(), provisional).1 == Ok::<
                    CaptureState,
                    DecoderError,
                >(c.state()),
                Err(e) => bring_up(old(ops).script(), old(ops).world(), provisional).1 == Err::<
                    CaptureState,
                    DecoderError,
                >(e),
            },
    {
        let reported = match ops.g_fmt(CAP) {
            Ok(f) => f,
            Err(cause) => return Err(DecoderError::Device { step: Step::GetCaptureFormat, cause }),
        };
        let want = FormatInfo { pixelformat: V4L2_PIX_FMT_NV12, ..reported };
        let coded = match ops.s_fmt(CAP, &want) {
            Ok(f) => f,
            Err(cause) => return Err(DecoderError::Device { step: Step::SetCaptureFormat, cause }),
        };
        if coded.pixelformat != V4L2_PIX_FMT_NV12 {
            return Err(DecoderError::RefusedNv12 { pixelformat: coded.pixelformat });
        }
        // The driver may need more buffers than our default to keep decoding.
        let min: i64 = match ops.g_ctrl(V4L2_CID_MIN_BUFFERS_FOR_CAPTURE) {
            Ok(n) => n as i64,
            Err(_) => 0,
        };
        let count: u32 = if min + 2 > CAPTURE_BUFFERS as i64 {
            (min + 2) as u32
        } else {
            CAPTURE_BUFFERS
        };
        let mut queue = Queue::new(CAP);
        // If allocation, queueing, or STREAMON fails partway through, release
        // whatever was set up so a half-built capture queue isn't leaked.
        match Self::allocate_and_start(ops, &mut queue, count) {
            Ok(_) => {},
            Err(e) => {
                let _ = queue.release(ops);
                return Err(e);
            },
        }
        let visible = Self::visible_rect(ops, &coded);
        Ok(Capture { queue, coded, visible, provisional })
    }

    fn allocate_and_start(ops: &mut O, queue: &mut Queue, count: u32) -> (r: Result<
        (),
        DecoderError,
    >)
        ensures
            final(ops).script() == old(ops).script(),
            (final(ops).world(), final(queue)@, r) == allocate_and_start(
                old(ops).script(),
                old(ops).world(),
                old(queue)@,
                count,
            ),
    {
        match queue.allocate(ops, count, true) {
            Ok(_) => {},
            Err(cause) => return Err(DecoderError::Device { step: Step::AllocateCapture, cause }),
        }
        Self::queue_all_and_start(ops, queue)
    }

    fn queue_all_and_start(ops: &mut O, queue: &mut Queue) -> (r: Result<(), DecoderError>)
        ensures
            final(ops).script() == old(ops).script(),
            (final(ops).world(), final(queue)@, r) == queue_all_and_start(
                old(ops).script(),
                old(ops).world(),
                old(queue)@,
            ),
    {
        let n: usize = queue.len();
        let ghost s = ops.script();
        let ghost whole = queue_all(s, ops.world(), queue@, 0);
        let mut i: usize = 0;
        while i < n
            invariant
                i <= n,
                n == queue@.buffers.len(),
                s == ops.script(),
                s == old(ops).script(),
                whole == queue_all(s, old(ops).world(), old(queue)@, 0),
                whole == queue_all(s, ops.world(), queue@, i as nat),
            decreases n - i,
        {
            match queue.queue(ops, i, 0, 0) {
                Ok(_) => {},
                Err(cause) => return Err(DecoderError::Queue { step: Step::QueueCapture, cause }),
            }
            i = i + 1;
        }
        match queue.stream_on(ops) {
            Ok(_) => Ok(()),
            Err(cause) => Err(DecoderError::Device { step: Step::StreamonCapture, cause }),
        }
    }

    fn visible_rect(ops: &mut O, coded: &FormatInfo) -> (r: v4l2_rect)
        ensures
            final(ops).script() == old(ops).script(),
            (final(ops).world(), r) == visible_rect(old(ops).script(), old(ops).world(), *coded),
    {
        let full = v4l2_rect { left: 0, top: 0, width: coded.width, height: coded.height };
        match ops.g_selection_compose(CAP) {
            Ok(r) => if r.width > 0 && r.height > 0 {
                r
            } else {
                full
            },
            Err(_) => full,
        }
    }

    /// Apply a SOURCE_CHANGE.
    ///
    /// The kernel's stateful decoder contract is that the old sequence is
    /// finished first: pictures already decoded keep coming until one is
    /// marked `V4L2_BUF_FLAG_LAST`. Stopping the queue before that throws
    /// those pictures away - including the new sequence's IDR, after which
    /// every following delta frame decodes to nothing.
    fn reconfigure_capture(&mut self) -> (r: Result<(), DecoderError>)
        ensures
            final(self).script() == old(self).script(),
            (final(self)@, r) == old(self)@.reconfigure(old(self).script()),
    {
        let provisional = match &self.capture {
            Some(c) => c.provisional,
            None => false,
        };
        if !provisional {
            match self.drain_to_last() {
                Ok(_) => {},
                Err(e) => return Err(e),
            }
        }
        match self.capture.take() {
            None => Err(DecoderError::CaptureMissing),
            Some(old_capture) => self.rebuild(old_capture),
        }
    }

    fn rebuild(&mut self, old_capture: Capture) -> (r: Result<(), DecoderError>)
        requires
            old(self)@.capture is None,
        ensures
            final(self).script() == old(self).script(),
            (final(self)@, r) == old(self)@.rebuilt(
                old(self).script(),
                old_capture.state(),
            ),
    {
        let mut capture = old_capture;
        if capture.queue.is_streaming() {
            match capture.queue.stream_off(&mut self.ops) {
                Ok(_) => {},
                Err(cause) => return Err(
                    DecoderError::Device { step: Step::StreamoffCapture, cause },
                ),
            }
        }
        let reported = match self.ops.g_fmt(CAP) {
            Ok(f) => f,
            Err(cause) => return Err(DecoderError::Device { step: Step::GetCaptureFormat, cause }),
        };
        let unchanged = !capture.provisional && reported.width == capture.coded.width
            && reported.height == capture.coded.height && reported.bytesperline
            == capture.coded.bytesperline && reported.sizeimage == capture.coded.sizeimage;
        if unchanged {
            // Same coded geometry: the buffers are still the right size, so
            // only restart the queue and re-read the compose rectangle.
            capture.visible = Self::visible_rect(&mut self.ops, &capture.coded);
            match Self::queue_all_and_start(&mut self.ops, &mut capture.queue) {
                Ok(_) => {},
                Err(e) => return Err(e),
            }
            self.saw_last = false;
            self.capture = Some(capture);
            return Ok(());
        }
        match capture.queue.release(&mut self.ops) {
            Ok(_) => {},
            Err(cause) => return Err(DecoderError::Device { step: Step::ReleaseCapture, cause }),
        }
        match Self::bring_up_capture(&mut self.ops, false) {
            Ok(c) => {
                self.capture = Some(c);
                self.saw_last = false;
                Ok(())
            },
            Err(e) => Err(e),
        }
    }

    /// One wait on the device.
    fn poll_device(&mut self) -> (r: Result<(), DecoderError>)
        ensures
            final(self).script() == old(self).script(),
            (final(self)@, r) == old(self)@.polled(old(self).script()),
    {
        match self.ops.poll(POLL_STEP_MS) {
            Err(cause) => Err(DecoderError::Device { step: Step::Poll, cause }),
            Ok(p) => if p.error {
                Err(DecoderError::PollError)
            } else {
                Ok(())
            },
        }
    }

    /// Collect the tail of the current sequence, up to the buffer the driver
    /// flags `LAST`. Bounded: a driver that never sends one must not wedge us.
    fn drain_to_last(&mut self) -> (r: Result<(), DecoderError>)
        ensures
            final(self).script() == old(self).script(),
            (final(self)@, r) == old(self)@.drain_to_last(old(self).script()),
    {
        self.saw_last = false;
        let ghost s = self.script();
        let ghost whole = self@.drain_rounds(s, DRAIN_ROUNDS as nat);
        let mut rounds: u32 = DRAIN_ROUNDS;
        loop
            invariant
                s == self.script(),
                s == old(self).script(),
                whole == old(self)@.drain_to_last(s),
                whole == self@.drain_rounds(s, rounds as nat),
            decreases rounds,
        {
            match self.collect_capture(usize::MAX) {
                Ok(_) => {},
                Err(e) => return Err(e),
            }
            if rounds == 0 || self.saw_last {
                return Ok(());
            }
            match self.drain_output() {
                Ok(_) => {},
                Err(e) => return Err(e),
            }
            match self.poll_device() {
                Ok(_) => {},
                Err(e) => return Err(e),
            }
            rounds = rounds - 1;
        }
    }

    fn handle_event(&mut self, ev: Event) -> (r: Result<(), DecoderError>)
        ensures
            final(self).script() == old(self).script(),
            (final(self)@, r) == old(self)@.on_event(old(self).script(), ev),
    {
        if ev.kind == V4L2_EVENT_SOURCE_CHANGE {
            if ev.changes % 2 == 1 {
                return self.reconfigure_capture();
            }
        } else if ev.kind == V4L2_EVENT_EOS {
            self.finished = true;
        }
        Ok(())
    }

    /// Returns whether any event was handled.
    fn drain_events(&mut self) -> (r: Result<bool, DecoderError>)
        ensures
            final(self).script() == old(self).script(),
            (final(self)@, r) == old(self)@.drain_events(
                old(self).script(),
                false,
                PATIENCE as nat,
            ),
    {
        let mut any = false;
        let mut left: u64 = PATIENCE;
        let ghost s = self.script();
        let ghost whole = self@.drain_events(s, false, PATIENCE as nat);
        while left > 0
            invariant
                s == self.script(),
                s == old(self).script(),
                whole == old(self)@.drain_events(s, false, PATIENCE as nat),
                whole == self@.drain_events(s, any, left as nat),
            decreases left,
        {
            match self.ops.dqevent() {
                Err(cause) => return Err(DecoderError::Device { step: Step::Dqevent, cause }),
                Ok(None) => return Ok(any),
                Ok(Some(ev)) => {
                    any = true;
                    match self.handle_event(ev) {
                        Ok(_) => {},
                        Err(e) => return Err(e),
                    }
                },
            }
            left = left - 1;
        }
        Ok(any)
    }

    fn drain_output(&mut self) -> (r: Result<bool, DecoderError>)
        ensures
            final(self).script() == old(self).script(),
            (final(self)@, r) == old(self)@.drain_output(
                old(self).script(),
                false,
                PATIENCE as nat,
            ),
    {
        let mut any = false;
        let mut left: u64 = PATIENCE;
        let ghost s = self.script();
        let ghost whole = self@.drain_output(s, false, PATIENCE as nat);
        while left > 0
            invariant
                s == self.script(),
                s == old(self).script(),
                whole == old(self)@.drain_output(s, false, PATIENCE as nat),
                whole == self@.drain_output(s, any, left as nat),
            decreases left,
        {
            match self.output.dequeue(&mut self.ops) {
                Err(cause) => return Err(DecoderError::Queue { step: Step::DqbufOutput, cause }),
                Ok(Dequeue::Buffer(_)) => {
                    any = true;
                },
                // Nothing ready, or the driver has finished the sequence it
                // was fed; either way there is nothing more to collect here.
                Ok(_) => return Ok(any),
            }
            left = left - 1;
        }
        Ok(any)
    }

    /// Dequeue up to `limit` CAPTURE buffers, queueing their pictures for the
    /// caller. Taking one at a time in the steady state leaves the backlog in
    /// the driver's own buffers, which is what back-pressures a decoder fed
    /// faster than it can decode. Returns whether anything was dequeued.
    fn collect_capture(&mut self, limit: usize) -> (r: Result<bool, DecoderError>)
        ensures
            final(self).script() == old(self).script(),
            (final(self)@, r) == old(self)@.collect(old(self).script(), limit as nat),
    {
        // The sequence has ended (LAST buffer, end of sequence, or a refused
        // requeue): the driver produces nothing more until the queue is
        // restarted, so stop asking.
        if self.saw_last {
            return Ok(false);
        }
        let mut any = false;
        let mut left: usize = limit;
        let ghost s = self.script();
        let ghost whole = self@.collect_more(s, limit as nat, false);
        while left > 0
            invariant
                s == self.script(),
                s == old(self).script(),
                whole == old(self)@.collect(s, limit as nat),
                whole == self@.collect_more(s, left as nat, any),
            decreases left,
        {
            let taken = match self.take_capture() {
                Ok(t) => t,
                Err(e) => return Err(e),
            };
            match taken {
                None => return Ok(any),
                Some(picture) => {
                    any = true;
                    if let Some(f) = picture {
                        let ghost before = frames(self.ready@);
                        let ghost view = f@;
                        self.ready.push_back(f);
                        assert(frames(self.ready@) =~= before.push(view));
                    }
                    if self.saw_last {
                        return Ok(true);
                    }
                },
            }
            left = left - 1;
        }
        Ok(any)
    }

    /// The picture in a dequeued CAPTURE buffer.
    fn read_picture(ops: &mut O, cap: &Capture, d: Dequeued) -> (r: Result<
        Option<RawFrame>,
        DecoderError,
    >)
        requires
            d.index < cap.state().queue.buffers.len(),
        ensures
            final(ops).script() == old(ops).script(),
            (final(ops).world(), result_view(r)) == picture(
                old(ops).script(),
                old(ops).world(),
                cap.state(),
                d,
            ),
    {
        if cap.provisional || d.bytesused == 0 {
            return Ok(None);
        }
        let (width, height) = (cap.visible.width, cap.visible.height);
        let (stride, coded_height) = (cap.coded.bytesperline, cap.coded.height);
        let top = not_negative_of(cap.visible.top);
        let left = not_negative_of(cap.visible.left);
        let mapping = cap.queue.get(d.index as usize).mapping;
        let src = ops.load(&mapping);
        // The size of the buffer and the geometry come from separate driver
        // reports; a bad compose rect or a driver that disagrees with itself
        // must not be allowed to index past the mapping.
        if !fits_in(src.len(), stride, coded_height, left, top, width, height) {
            return Err(
                DecoderError::Geometry {
                    width,
                    height,
                    left,
                    top,
                    stride,
                    coded_height,
                    len: src.len(),
                },
            );
        }
        let data = crop_nv12(&src, stride, coded_height, left, top, width, height);
        Ok(
            Some(
                RawFrame {
                    format: PixelFormat::Nv12,
                    width,
                    height,
                    stride: width,
                    data,
                    timestamp_us: d.timestamp_us,
                },
            ),
        )
    }

    /// Gives a CAPTURE buffer back to the driver. Returns whether that ended
    /// the sequence.
    ///
    /// An invalid argument means the driver has already re-formatted the
    /// CAPTURE queue for a source change it has not yet told us about, so our
    /// buffer is now the wrong size for it. That is the end of the old
    /// sequence; the pending SOURCE_CHANGE rebuilds the queue. If none
    /// follows, the driver produces nothing more and the stall detector fires.
    fn recycle(ops: &mut O, cap: &mut Capture, index: usize, last: bool) -> (r: Result<
        bool,
        DecoderError,
    >)
        ensures
            final(ops).script() == old(ops).script(),
            (final(ops).world(), final(cap).state(), r) == recycled(
                old(ops).script(),
                old(ops).world(),
                old(cap).state(),
                index,
                last,
            ),
    {
        if last {
            return Ok(true);
        }
        match cap.queue.queue(ops, index, 0, 0) {
            Ok(_) => Ok(false),
            Err(cause) => match cause.raw_os_error() {
                Some(n) => if n == EINVAL {
                    Ok(true)
                } else {
                    Err(DecoderError::Queue { step: Step::RequeueCapture, cause })
                },
                None => Err(DecoderError::Queue { step: Step::RequeueCapture, cause }),
            },
        }
    }

    /// Copy one decoded picture out of a capture buffer and requeue it.
    /// `None` means nothing was ready; `Some(None)` means the buffer carried
    /// no picture (the driver's end-of-sequence marker).
    fn take_capture(&mut self) -> (r: Result<Option<Option<RawFrame>>, DecoderError>)
        ensures
            final(self).script() == old(self).script(),
            final(self)@ == old(self)@.take(old(self).script()).0,
            taken_view(r) == old(self)@.take(old(self).script()).1,
            frames(final(self).ready@) == frames(old(self).ready@),
    {
        let mut cap = match self.capture.take() {
            Some(c) => c,
            None => return Ok(None),
        };
        let got = cap.queue.dequeue(&mut self.ops);
        let d = match got {
            Err(cause) => {
                self.capture = Some(cap);
                return Err(DecoderError::Queue { step: Step::DqbufCapture, cause });
            },
            Ok(Dequeue::Idle) => {
                self.capture = Some(cap);
                return Ok(None);
            },
            // The driver already handed over the sequence's last picture and
            // now refuses further dequeues until the queue is restarted.
            Ok(Dequeue::EndOfSequence) => {
                self.capture = Some(cap);
                self.saw_last = true;
                return Ok(None);
            },
            Ok(Dequeue::Buffer(d)) => d,
        };
        let last = has_bit_of(d.flags, V4L2_BUF_FLAG_LAST);
        let frame = Self::read_picture(&mut self.ops, &cap, d);
        // Requeue regardless of outcome so a geometry error doesn't leak the
        // capture buffer out of the driver's rotation - except for the
        // end-of-sequence buffer, which the driver will not take back until
        // the queue has been restarted.
        let back = Self::recycle(&mut self.ops, &mut cap, d.index as usize, last);
        self.capture = Some(cap);
        match back {
            Err(e) => return Err(e),
            Ok(ended) => {
                if ended {
                    self.saw_last = true;
                }
            },
        }
        match frame {
            Err(e) => Err(e),
            Ok(None) => Ok(Some(None)),
            Ok(Some(f)) => {
                self.unanswered = 0;
                self.last_picture = self.ops.now();
                Ok(Some(Some(f)))
            },
        }
    }

    /// One round of waiting for a slot. Returns whether anything moved.
    fn service(&mut self, budget: &mut usize) -> (r: Result<bool, DecoderError>)
        ensures
            final(self).script() == old(self).script(),
            final(self)@ == old(self)@.serviced(old(self).script(), *old(budget) as nat).0,
            match r {
                Err(e) => old(self)@.serviced(old(self).script(), *old(budget) as nat).1
                    == Err::<(bool, nat), DecoderError>(e),
                Ok(moved) => old(self)@.serviced(old(self).script(), *old(budget) as nat).1
                    == Ok::<(bool, nat), DecoderError>((moved, *final(budget) as nat)),
            },
    {
        match self.poll_device() {
            Ok(_) => {},
            Err(e) => return Err(e),
        }
        let events = match self.drain_events() {
            Ok(b) => b,
            Err(e) => return Err(e),
        };
        let outputs = match self.drain_output() {
            Ok(b) => b,
            Err(e) => return Err(e),
        };
        if *budget == 0 {
            return Ok(events || outputs);
        }
        match self.collect_capture(1) {
            Err(e) => Err(e),
            Ok(true) => {
                *budget = *budget - 1;
                Ok(true)
            },
            Ok(false) => Ok(events || outputs),
        }
    }

    /// Wait until an OUTPUT slot is free (at most MAX_IN_FLIGHT queued),
    /// servicing events and pictures meanwhile. Progress is measured in poll
    /// rounds, not wall clock.
    fn wait_for_slot(&mut self, budget: &mut usize) -> (r: Result<(), DecoderError>)
        ensures
            final(self).script() == old(self).script(),
            final(self)@ == old(self)@.wait(
                old(self).script(),
                *old(budget) as nat,
                1,
                0,
                PATIENCE as nat,
            ).0,
            match r {
                Err(e) => old(self)@.wait(
                    old(self).script(),
                    *old(budget) as nat,
                    1,
                    0,
                    PATIENCE as nat,
                ).1 == Err::<nat, DecoderError>(e),
                Ok(_) => old(self)@.wait(
                    old(self).script(),
                    *old(budget) as nat,
                    1,
                    0,
                    PATIENCE as nat,
                ).1 == Ok::<nat, DecoderError>(*final(budget) as nat),
            },
    {
        let mut idle: u64 = 0;
        // The deadlock-breaking recycle below copies a picture, so like
        // `budget` it is spent at most once per decode call.
        let mut fallback: usize = 1;
        let mut left: u64 = PATIENCE;
        let ghost s = self.script();
        let ghost whole = self@.wait(s, *budget as nat, 1, 0, PATIENCE as nat);
        while self.output.in_flight() >= MAX_IN_FLIGHT
            invariant
                s == self.script(),
                s == old(self).script(),
                idle < MAX_IDLE_ROUNDS,
                whole == old(self)@.wait(s, *old(budget) as nat, 1, 0, PATIENCE as nat),
                whole == self@.wait(
                    s,
                    *budget as nat,
                    fallback as nat,
                    idle as nat,
                    left as nat,
                ),
            decreases left,
        {
            if left == 0 {
                return Err(DecoderError::Stalled);
            }
            left = left - 1;
            let moved = match self.service(budget) {
                Ok(b) => b,
                Err(e) => return Err(e),
            };
            if moved {
                idle = 0;
                continue ;
            }
            // Nothing moved. The driver may be waiting for a CAPTURE buffer we
            // are holding back to bound this call's latency, so recycle one
            // anyway rather than deadlocking against our own budget.
            if fallback > 0 {
                match self.collect_capture(1) {
                    Err(e) => return Err(e),
                    Ok(true) => {
                        fallback = fallback - 1;
                        idle = 0;
                        continue ;
                    },
                    Ok(false) => {},
                }
            }
            idle = idle + 1;
            if idle >= MAX_IDLE_ROUNDS {
                return Err(DecoderError::Stalled);
            }
        }
        Ok(())
    }

    /// Takes the oldest ready picture off.
    fn hand_over(&mut self) -> (r: Option<RawFrame>)
        ensures
            final(self).script() == old(self).script(),
            (final(self)@, result_view(Ok(r))) == old(self)@.handed_over(),
    {
        let f = self.ready.pop_front();
        assert(f is Some ==> frames(self.ready@) =~= frames(old(self).ready@).drop_first());
        assert(f is None ==> frames(self.ready@) =~= frames(old(self).ready@));
        f
    }

    /// Feeds one complete access unit (Annex B). Returns zero or one frame.
    ///
    /// Copying a picture out of the driver's (uncached) buffer is the
    /// expensive part of a decode call, so at most one is copied per call.
    /// That still recycles one CAPTURE buffer per access unit, which is
    /// exactly the steady-state rate.
    pub fn decode(&mut self, data: &[u8], timestamp_us: u64) -> (r: Result<
        Option<RawFrame>,
        DecoderError,
    >)
        ensures
            final(self).script() == old(self).script(),
            (final(self)@, result_view(r)) == old(self)@.decoded(
                old(self).script(),
                data@,
                timestamp_us,
            ),
    {
        match check_access_unit(data) {
            Ok(_) => {},
            Err(e) => return Err(DecoderError::AccessUnit(e)),
        }
        if data.len() > OUTPUT_BUFFER_SIZE as usize {
            return Err(DecoderError::TooLarge { len: data.len() });
        }
        if self.finished {
            return Err(DecoderError::Finished);
        }
        let mut budget: usize = 1;
        match self.wait_for_slot(&mut budget) {
            Ok(_) => {},
            Err(e) => return Err(e),
        }
        match self.output.free_slot() {
            None => Err(DecoderError::NoFreeBuffer),
            Some(slot) => self.feed(data, timestamp_us, slot, budget),
        }
    }

    fn feed(&mut self, data: &[u8], timestamp_us: u64, slot: usize, budget: usize) -> (r: Result<
        Option<RawFrame>,
        DecoderError,
    >)
        requires
            slot < old(self)@.output.buffers.len(),
        ensures
            final(self).script() == old(self).script(),
            (final(self)@, result_view(r)) == old(self)@.fed(
                old(self).script(),
                data@,
                timestamp_us,
                slot,
                budget as nat,
            ),
    {
        let mapping = self.output.get(slot).mapping;
        if data.len() > mapping.len {
            return Err(
                DecoderError::TooLargeForBuffer { len: data.len(), room: mapping.len },
            );
        }
        self.ops.store(&mapping, data);
        match self.output.queue(&mut self.ops, slot, data.len() as u32, timestamp_us) {
            Ok(_) => {},
            Err(cause) => return Err(DecoderError::Queue { step: Step::QbufOutput, cause }),
        }
        self.unanswered = self.unanswered.saturating_add(1);
        match self.drain_events() {
            Ok(_) => {},
            Err(e) => return Err(e),
        }
        if budget > 0 {
            match self.collect_capture(budget) {
                Ok(_) => {},
                Err(e) => return Err(e),
            }
        }
        self.answer()
    }

    fn answer(&mut self) -> (r: Result<Option<RawFrame>, DecoderError>)
        ensures
            final(self).script() == old(self).script(),
            (final(self)@, result_view(r)) == old(self)@.answered(old(self).script()),
    {
        let now = self.ops.now();
        let idle = now.saturating_duration_since(self.last_picture);
        if self.ready.len() == 0 && self.unanswered >= STALL_INPUTS && idle.nanos
            >= STALL_POLL_MS * 1_000_000 {
            return Err(
                DecoderError::NoPicture {
                    unanswered: self.unanswered,
                    idle_ms: idle.nanos / 1_000_000,
                },
            );
        }
        Ok(self.hand_over())
    }

    /// Collect a picture the decoder has already produced, without feeding it
    /// anything. Waits up to one poll step for one to appear.
    ///
    /// The driver is pipelined - a picture comes out a few access units after
    /// the one that produced it - and it batches heavily when it is fed faster
    /// than real time, so a caller that has run out of input needs a way to
    /// pull the tail out rather than growing its latency.
    pub fn poll_frame(&mut self) -> (r: Result<Option<RawFrame>, DecoderError>)
        ensures
            final(self).script() == old(self).script(),
            (final(self)@, result_view(r)) == old(self)@.polled_frame(old(self).script()),
    {
        if self.ready.len() > 0 {
            return Ok(self.hand_over());
        }
        match self.poll_device() {
            Ok(_) => {},
            Err(e) => return Err(e),
        }
        match self.drain_events() {
            Ok(_) => {},
            Err(e) => return Err(e),
        }
        match self.drain_output() {
            Ok(_) => {},
            Err(e) => return Err(e),
        }
        match self.collect_capture(1) {
            Ok(_) => {},
            Err(e) => return Err(e),
        }
        Ok(self.hand_over())
    }

    pub fn name(&self) -> (s: &'static str)
        ensures
            s@ == "v4l2-bcm2835"@,
    {
        "v4l2-bcm2835"
    }

    /// Stops both queues, gives their buffers back, and hands the device back.
    pub fn close(self) -> (ops: O)
        ensures
            ops.script() == self.script(),
            ops.world() == self@.closed_down(self.script()),
    {
        let mut this = self;
        if let Some(mut c) = this.capture.take() {
            let _ = c.queue.release(&mut this.ops);
        }
        let _ = this.output.release(&mut this.ops);
        this.ops
    }
}

spec fn taken_view(r: Result<Option<Option<RawFrame>>, DecoderError>) -> Result<
    Option<Option<RawFrameView>>,
    DecoderError,
> {
    match r {
        Err(e) => Err(e),
        Ok(None) => Ok(None),
        Ok(Some(None)) => Ok(Some(None)),
        Ok(Some(Some(f))) => Ok(Some(Some(f@))),
    }
}

} // verus!
