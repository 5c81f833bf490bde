//! The order of the calls that drive an encoder.
//!
//! A synchronous encoder takes input whenever there is some. An asynchronous
//! one says by events when it wants input and when it has output: a picture may
//! be fed only against a request, and output taken only against an
//! announcement. What it puts out at any other moment than at the end of a
//! picture is held back, oldest first, so that no access unit is ever dropped
//! and none overtakes another.
use vstd::prelude::*;
use std::collections::VecDeque;
use crate::media::codec::{
    encoded_view, EncodedFrame, EncodedFrameView, EncoderConfig, Mode, PixelFormat, RawFrame,
    RawFrameView,
};
use crate::mf::attributes::{gop_fits, micros, micros_of, rate_control, steered, RateControl};
use crate::time::Instant;

verus! {

/// `METransformNeedInput`.
pub const EVENT_NEED_INPUT: u32 = 601;

/// `METransformHaveOutput`.
pub const EVENT_HAVE_OUTPUT: u32 = 602;

/// `MFT_OUTPUT_STREAM_PROVIDES_SAMPLES` and
/// `MFT_OUTPUT_STREAM_CAN_PROVIDE_SAMPLES`.
pub const PROVIDES_SAMPLES: u32 = 0x100;

pub const CAN_PROVIDE_SAMPLES: u32 = 0x200;

/// The least room for a sample.
pub const LEAST_OUTPUT: u32 = 1_048_576;

/// How long an encoder may take to ask for input, in nanoseconds.
pub const INPUT_WAIT: u64 = 200_000_000;

/// How long it is listened to in one go meanwhile.
pub const INPUT_POLL: u64 = 5_000_000;

/// How long the first pictures may take.
pub const FIRST_WAIT: u64 = 200_000_000;

/// How many pictures are first ones.
pub const FIRST_PICTURES: u64 = 3;

/// How long any other picture may take.
pub const PICTURE_WAIT: u64 = 100_000_000;

/// Why a picture is not encoded.
#[derive(Debug, Clone, Copy, PartialEq, Eq, Structural)]
pub enum FlowError {
    Format,
    Size,
    /// The encoder never asked for input.
    Stuck,
}

impl FlowError {
    pub open spec fn text(self) -> Seq<char> {
        match self {
            FlowError::Format => "MfEncoder expects NV12"@,
            FlowError::Size => "frame size mismatch"@,
            FlowError::Stuck => "encoder never requested input"@,
        }
    }

    pub fn message(&self) -> (s: &'static str)
        ensures
            s@ == self.text(),
    {
        match self {
            FlowError::Format => "MfEncoder expects NV12",
            FlowError::Size => "frame size mismatch",
            FlowError::Stuck => "encoder never requested input",
        }
    }
}

/// What is to be done next.
#[derive(Debug)]
pub enum FlowAction {
    /// Look for an event, without waiting.
    Poll,
    /// Wait a millisecond, then look for an event.
    Nap,
    /// Feed the picture.
    Feed,
    /// Take output.
    Take,
    /// The call is over, with the oldest output there is.
    Done(Option<EncodedFrame>),
    Fail(FlowError),
}

/// What an action is.
#[verifier::ext_equal]
pub enum ActionView {
    Poll,
    Nap,
    Feed,
    Take,
    Done(Option<EncodedFrameView>),
    Fail(FlowError),
}

impl View for FlowAction {
    type V = ActionView;

    open spec fn view(&self) -> ActionView {
        match *self {
            FlowAction::Poll => ActionView::Poll,
            FlowAction::Nap => ActionView::Nap,
            FlowAction::Feed => ActionView::Feed,
            FlowAction::Take => ActionView::Take,
            FlowAction::Done(f) => ActionView::Done(encoded_view(f)),
            FlowAction::Fail(e) => ActionView::Fail(e),
        }
    }
}

/// Where a call stands.
#[derive(Debug, Clone, Copy, PartialEq, Eq, Structural)]
pub enum Phase {
    Idle,
    /// Listening for a request for input.
    AwaitInput,
    /// Taking output that came while listening for one.
    AwaitInputTake,
    /// Feeding.
    Feeding,
    /// Listening for the picture's output.
    AwaitOutput,
    /// Taking it.
    TakeFirst,
    /// Looking whether there is more.
    PollMore,
    TakeMore,
}

pub struct EncoderFlow {
    cfg: EncoderConfig,
    asynchronous: bool,
    provides_samples: bool,
    output_size: u32,
    credits: u32,
    frame_index: u64,
    pending: VecDeque<EncodedFrame>,
    phase: Phase,
    deadline: Instant,
    until: Instant,
}

#[verifier::ext_equal]
pub struct FlowState {
    pub cfg: EncoderConfig,
    pub asynchronous: bool,
    pub provides_samples: bool,
    pub output_size: u32,
    /// Requests for input that are not met yet.
    pub credits: u32,
    /// Pictures fed so far.
    pub frame_index: u64,
    pub pending: Seq<EncodedFrameView>,
    pub phase: Phase,
    /// When the encoder has to have asked for input.
    pub deadline: Instant,
    /// Until when it is listened to.
    pub until: Instant,
}

pub open spec fn encoded_views(v: Seq<EncodedFrame>) -> Seq<EncodedFrameView> {
    Seq::new(v.len(), |i: int| v[i]@)
}

impl View for EncoderFlow {
    type V = FlowState;

    closed spec fn view(&self) -> FlowState {
        FlowState {
            cfg: self.cfg,
            asynchronous: self.asynchronous,
            provides_samples: self.provides_samples,
            output_size: self.output_size,
            credits: self.credits,
            frame_index: self.frame_index,
            pending: encoded_views(self.pending@),
            phase: self.phase,
            deadline: self.deadline,
            until: self.until,
        }
    }
}

/// Some time after a moment.
pub open spec fn later(t: Instant, nanos: u64) -> Instant {
    Instant {
        nanos: if t.nanos + nanos <= u64::MAX {
            (t.nanos + nanos) as u64
        } else {
            u64::MAX
        },
    }
}

impl FlowState {
    /// A call that has ended.
    pub open spec fn over(self) -> (FlowState, ActionView) {
        if self.pending.len() > 0 {
            (
                FlowState { pending: self.pending.skip(1), phase: Phase::Idle, ..self },
                ActionView::Done(Some(self.pending[0])),
            )
        } else {
            (FlowState { phase: Phase::Idle, ..self }, ActionView::Done(None))
        }
    }

    /// Meets a request for input, or listens for one.
    pub open spec fn want_input(self, now: Instant) -> (FlowState, ActionView) {
        if self.credits > 0 {
            (
                FlowState { credits: (self.credits - 1) as u32, phase: Phase::Feeding, ..self },
                ActionView::Feed,
            )
        } else {
            (
                FlowState { until: later(now, INPUT_POLL), phase: Phase::AwaitInput, ..self },
                ActionView::Poll,
            )
        }
    }

    /// Goes on waiting for a request, unless that has taken too long.
    pub open spec fn still_waiting(self, now: Instant) -> (FlowState, ActionView) {
        if now.nanos >= self.deadline.nanos {
            (FlowState { phase: Phase::Idle, ..self }, ActionView::Fail(FlowError::Stuck))
        } else {
            self.want_input(now)
        }
    }

    /// Looks whether there is more output.
    pub open spec fn want_more(self, now: Instant) -> (FlowState, ActionView) {
        if self.asynchronous {
            (FlowState { until: now, phase: Phase::PollMore, ..self }, ActionView::Poll)
        } else {
            (FlowState { phase: Phase::TakeMore, ..self }, ActionView::Take)
        }
    }

    /// With output put behind what is held back.
    pub open spec fn holding(self, f: Option<EncodedFrameView>) -> FlowState {
        match f {
            Some(f) => FlowState { pending: self.pending.push(f), ..self },
            None => self,
        }
    }

    /// The beginning of a call.
    pub open spec fn begun(self, now: Instant) -> (FlowState, ActionView) {
        if self.asynchronous {
            (FlowState { deadline: later(now, INPUT_WAIT), ..self }).want_input(now)
        } else {
            (FlowState { phase: Phase::Feeding, ..self }, ActionView::Feed)
        }
    }

    /// The picture has been fed.
    pub open spec fn fed(self, now: Instant) -> (FlowState, ActionView) {
        let index = (self.frame_index + 1) % 0x1_0000_0000_0000_0000;
        let s = FlowState { frame_index: index as u64, ..self };
        if self.asynchronous {
            let wait = if index <= FIRST_PICTURES {
                FIRST_WAIT
            } else {
                PICTURE_WAIT
            };
            (
                FlowState { until: later(now, wait), phase: Phase::AwaitOutput, ..s },
                ActionView::Poll,
            )
        } else {
            (FlowState { phase: Phase::TakeFirst, ..s }, ActionView::Take)
        }
    }

    /// An event was looked for.
    pub open spec fn polled(self, event: Option<u32>, now: Instant) -> (FlowState, ActionView) {
        match event {
            Some(t) => if t == EVENT_NEED_INPUT {
                (
                    FlowState {
                        credits: ((self.credits + 1) % 0x1_0000_0000) as u32,
                        ..self
                    },
                    ActionView::Poll,
                )
            } else if t == EVENT_HAVE_OUTPUT {
                (
                    FlowState {
                        phase: match self.phase {
                            Phase::AwaitInput => Phase::AwaitInputTake,
                            Phase::AwaitOutput => Phase::TakeFirst,
                            _ => Phase::TakeMore,
                        },
                        ..self
                    },
                    ActionView::Take,
                )
            } else {
                (self, ActionView::Poll)
            },
            None => if now.nanos < self.until.nanos {
                (self, ActionView::Nap)
            } else {
                match self.phase {
                    Phase::AwaitInput => self.still_waiting(now),
                    _ => self.over(),
                }
            },
        }
    }

    /// Output was taken, if there was any.
    pub open spec fn taken(self, f: Option<EncodedFrameView>, now: Instant) -> (
        FlowState,
        ActionView,
    ) {
        let s = self.holding(f);
        match self.phase {
            Phase::AwaitInputTake => s.still_waiting(now),
            Phase::TakeFirst => s.want_more(now),
            _ => if f is Some {
                s.want_more(now)
            } else {
                s.over()
            },
        }
    }
}

/// Whether either of two bits is set.
pub open spec fn provides(flags: u32) -> bool {
    (flags / PROVIDES_SAMPLES) % 2 == 1 || (flags / CAN_PROVIDE_SAMPLES) % 2 == 1
}

/// What a picture is refused for, if it is.
pub open spec fn flow_refused(cfg: EncoderConfig, f: RawFrameView) -> Option<FlowError> {
    if f.format != PixelFormat::Nv12 {
        Some(FlowError::Format)
    } else if f.width != cfg.width || f.height != cfg.height {
        Some(FlowError::Size)
    } else {
        None
    }
}

fn later_of(t: Instant, nanos: u64) -> (r: Instant)
    ensures
        r == later(t, nanos),
{
    Instant { nanos: t.nanos.saturating_add(nanos) }
}

impl EncoderFlow {
    /// An encoder that has been opened: whether it works by events, the buffer
    /// size it asks for, and the flags of its output.
    pub fn new(cfg: EncoderConfig, asynchronous: bool, buffer_size: u32, flags: u32) -> (f: Self)
        ensures
            f@ == (FlowState {
                cfg,
                asynchronous,
                provides_samples: provides(flags),
                output_size: if buffer_size >= LEAST_OUTPUT {
                    buffer_size
                } else {
                    LEAST_OUTPUT
                },
                credits: 0,
                frame_index: 0,
                pending: Seq::empty(),
                phase: Phase::Idle,
                deadline: Instant { nanos: 0 },
                until: Instant { nanos: 0 },
            }),
    {
        let f = EncoderFlow {
            cfg,
            asynchronous,
            provides_samples: (flags / PROVIDES_SAMPLES) % 2 == 1 || (flags / CAN_PROVIDE_SAMPLES)
                % 2 == 1,
            output_size: if buffer_size >= LEAST_OUTPUT {
                buffer_size
            } else {
                LEAST_OUTPUT
            },
            credits: 0,
            frame_index: 0,
            pending: VecDeque::new(),
            phase: Phase::Idle,
            deadline: Instant { nanos: 0 },
            until: Instant { nanos: 0 },
        };
        assert(f@.pending =~= Seq::empty());
        f
    }

    pub fn config(&self) -> (c: EncoderConfig)
        ensures
            c == self@.cfg,
    {
        self.cfg
    }

    /// The room a sample needs, where the encoder does not bring its own.
    pub fn sample_room(&self) -> (r: Option<u32>)
        ensures
            r == if self@.provides_samples {
                None
            } else {
                Some(self@.output_size)
            },
    {
        if self.provides_samples {
            None
        } else {
            Some(self.output_size)
        }
    }

    /// How long a picture lasts, in microseconds, if it is one that the encoder
    /// takes.
    pub fn check(&self, frame: &RawFrame) -> (r: Result<u64, FlowError>)
        requires
            flow_refused(self@.cfg, frame@) is None ==> self@.cfg.fps > 0,
        ensures
            r == match flow_refused(self@.cfg, frame@) {
                Some(e) => Err::<u64, FlowError>(e),
                None => Ok((1_000_000int / (self@.cfg.fps as int)) as u64),
            },
    {
        if frame.format != PixelFormat::Nv12 {
            return Err(FlowError::Format);
        }
        if frame.width != self.cfg.width || frame.height != self.cfg.height {
            return Err(FlowError::Size);
        }
        Ok(1_000_000 / self.cfg.fps as u64)
    }

    fn over(&mut self) -> (a: FlowAction)
        ensures
            (final(self)@, a@) == old(self)@.over(),
    {
        self.phase = Phase::Idle;
        let ghost before = self.pending@;
        let f = self.pending.pop_front();
        assert(before.len() > 0 ==> encoded_views(before)[0] == before[0]@);
        assert(before.len() > 0 ==> encoded_views(self.pending@) =~= encoded_views(before).skip(1));
        assert(before.len() == 0 ==> encoded_views(self.pending@) =~= encoded_views(before));
        FlowAction::Done(f)
    }

    fn want_input(&mut self, now: Instant) -> (a: FlowAction)
        ensures
            (final(self)@, a@) == old(self)@.want_input(now),
    {
        if self.credits > 0 {
            self.credits = self.credits - 1;
            self.phase = Phase::Feeding;
            FlowAction::Feed
        } else {
            self.until = later_of(now, INPUT_POLL);
            self.phase = Phase::AwaitInput;
            FlowAction::Poll
        }
    }

    fn still_waiting(&mut self, now: Instant) -> (a: FlowAction)
        ensures
            (final(self)@, a@) == old(self)@.still_waiting(now),
    {
        if now.nanos >= self.deadline.nanos {
            self.phase = Phase::Idle;
            FlowAction::Fail(FlowError::Stuck)
        } else {
            self.want_input(now)
        }
    }

    fn want_more(&mut self, now: Instant) -> (a: FlowAction)
        ensures
            (final(self)@, a@) == old(self)@.want_more(now),
    {
        if self.asynchronous {
            self.until = now;
            self.phase = Phase::PollMore;
            FlowAction::Poll
        } else {
            self.phase = Phase::TakeMore;
            FlowAction::Take
        }
    }

    fn hold(&mut self, f: Option<EncodedFrame>)
        ensures
            final(self)@ == old(self)@.holding(encoded_view(f)),
    {
        if let Some(f) = f {
            let ghost before = self.pending@;
            let ghost v = f@;
            self.pending.push_back(f);
            assert(encoded_views(self.pending@) =~= encoded_views(before).push(v));
        }
    }

    /// Begins a call for a picture.
    pub fn begin(&mut self, now: Instant) -> (a: FlowAction)
        ensures
            (final(self)@, a@) == old(self)@.begun(now),
    {
        if self.asynchronous {
            self.deadline = later_of(now, INPUT_WAIT);
            self.want_input(now)
        } else {
            self.phase = Phase::Feeding;
            FlowAction::Feed
        }
    }

    /// The picture has been fed.
    pub fn on_fed(&mut self, now: Instant) -> (a: FlowAction)
        ensures
            (final(self)@, a@) == old(self)@.fed(now),
    {
        self.frame_index = self.frame_index.wrapping_add(1);
        if self.asynchronous {
            let wait: u64 = if self.frame_index <= FIRST_PICTURES {
                FIRST_WAIT
            } else {
                PICTURE_WAIT
            };
            self.until = later_of(now, wait);
            self.phase = Phase::AwaitOutput;
            FlowAction::Poll
        } else {
            self.phase = Phase::TakeFirst;
            FlowAction::Take
        }
    }

    /// An event was looked for: its type, if there was one.
    pub fn on_polled(&mut self, event: Option<u32>, now: Instant) -> (a: FlowAction)
        ensures
            (final(self)@, a@) == old(self)@.polled(event, now),
    {
        match event {
            Some(t) => {
                if t == EVENT_NEED_INPUT {
                    self.credits = self.credits.wrapping_add(1);
                    FlowAction::Poll
                } else if t == EVENT_HAVE_OUTPUT {
                    self.phase = match self.phase {
                        Phase::AwaitInput => Phase::AwaitInputTake,
                        Phase::AwaitOutput => Phase::TakeFirst,
                        _ => Phase::TakeMore,
                    };
                    FlowAction::Take
                } else {
                    FlowAction::Poll
                }
            },
            None => {
                if now.nanos < self.until.nanos {
                    return FlowAction::Nap;
                }
                match self.phase {
                    Phase::AwaitInput => self.still_waiting(now),
                    _ => self.over(),
                }
            },
        }
    }

    /// Output was taken, if there was any.
    pub fn on_taken(&mut self, f: Option<EncodedFrame>, now: Instant) -> (a: FlowAction)
        ensures
            (final(self)@, a@) == old(self)@.taken(encoded_view(f), now),
    {
        let any = f.is_some();
        self.hold(f);
        match self.phase {
            Phase::AwaitInputTake => self.still_waiting(now),
            Phase::TakeFirst => self.want_more(now),
            _ => if any {
                self.want_more(now)
            } else {
                self.over()
            },
        }
    }

    pub fn set_bitrate(&mut self, bitrate_bps: u32)
        ensures
            final(self)@ == (FlowState {
                cfg: EncoderConfig { bitrate_bps, ..old(self)@.cfg },
                ..old(self)@
            }),
    {
        self.cfg.bitrate_bps = bitrate_bps;
    }

    /// Changes the mode, and says how it steers the rate.
    pub fn set_mode(&mut self, mode: Mode) -> (r: RateControl)
        requires
            gop_fits(EncoderConfig { mode, ..old(self)@.cfg }),
        ensures
            final(self)@ == (FlowState {
                cfg: EncoderConfig { mode, ..old(self)@.cfg },
                ..old(self)@
            }),
            r == steered(final(self)@.cfg),
    {
        self.cfg.mode = mode;
        rate_control(&self.cfg)
    }
}

/// The access unit of a sample, if it has one: a keyframe where the sample is
/// marked as a clean point, at the sample's time.
pub open spec fn unit_of(data: Seq<u8>, clean_point: Option<u32>, time: Option<i64>) -> Option<
    EncodedFrameView,
> {
    if data.len() == 0 {
        None
    } else {
        Some(
            EncodedFrameView {
                data,
                keyframe: clean_point == Some(1u32),
                timestamp_us: match time {
                    Some(t) => micros_of(t),
                    None => 0,
                },
            },
        )
    }
}

/// The access unit of a sample, if it has one.
pub fn output_frame(data: Vec<u8>, clean_point: Option<u32>, time: Option<i64>) -> (r: Option<
    EncodedFrame,
>)
    ensures
        encoded_view(r) == unit_of(data@, clean_point, time),
{
    if data.len() == 0 {
        return None;
    }
    let keyframe = match clean_point {
        Some(c) => c == 1,
        None => false,
    };
    let timestamp_us: u64 = match time {
        Some(t) => micros(t),
        None => 0,
    };
    Some(EncodedFrame { data, keyframe, timestamp_us })
}

// ---- laws ----

/// What an action hands out.
pub open spec fn handed_out(a: ActionView) -> Seq<EncodedFrameView> {
    match a {
        ActionView::Done(Some(f)) => seq![f],
        _ => seq![],
    }
}

/// What came in with an event.
pub open spec fn came_in(f: Option<EncodedFrameView>) -> Seq<EncodedFrameView> {
    match f {
        Some(f) => seq![f],
        None => seq![],
    }
}

/// No access unit is dropped and none overtakes another: what is handed out and
/// what is held back are together what was held back and what came in, in that
/// order.
pub proof fn law_no_unit_is_lost(s: FlowState, f: Option<EncodedFrameView>, now: Instant)
    ensures
        ({
            let (t, a) = s.taken(f, now);
            handed_out(a) + t.pending == s.pending + came_in(f)
        }),
{
    let (t, a) = s.taken(f, now);
    assert(handed_out(a) + t.pending =~= s.pending + came_in(f));
}

/// Nor do the other steps lose any.
pub proof fn law_no_step_loses_a_unit(s: FlowState, event: Option<u32>, now: Instant)
    ensures
        handed_out(s.polled(event, now).1) + s.polled(event, now).0.pending == s.pending,
        handed_out(s.begun(now).1) + s.begun(now).0.pending == s.pending,
        handed_out(s.fed(now).1) + s.fed(now).0.pending == s.pending,
{
    assert(handed_out(s.polled(event, now).1) + s.polled(event, now).0.pending =~= s.pending);
    assert(handed_out(s.begun(now).1) + s.begun(now).0.pending =~= s.pending);
    assert(handed_out(s.fed(now).1) + s.fed(now).0.pending =~= s.pending);
}

/// An asynchronous encoder is fed only against a request, which that uses up.
pub proof fn law_feeding_meets_a_request(s: FlowState, now: Instant)
    requires
        s.asynchronous,
        s.begun(now).1 == ActionView::Feed,
    ensures
        s.credits > 0,
        s.begun(now).0.credits == s.credits - 1,
{
}

/// An asynchronous encoder's output is taken only against an announcement.
pub proof fn law_taking_follows_an_announcement(
    s: FlowState,
    f: Option<EncodedFrameView>,
    event: Option<u32>,
    now: Instant,
)
    requires
        s.asynchronous,
    ensures
        s.polled(event, now).1 == ActionView::Take ==> event == Some(EVENT_HAVE_OUTPUT),
        s.taken(f, now).1 != ActionView::Take,
        s.fed(now).1 != ActionView::Take,
        s.begun(now).1 != ActionView::Take,
{
}

/// An encoder that never asks for input is given up on.
pub proof fn law_a_stuck_encoder_is_given_up_on(s: FlowState, now: Instant)
    requires
        s.phase == Phase::AwaitInput,
        now.nanos >= s.until.nanos,
        now.nanos >= s.deadline.nanos,
    ensures
        s.polled(None, now).1 == ActionView::Fail(FlowError::Stuck),
{
}

} // verus!
