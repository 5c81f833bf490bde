//! The decoder's errors in words.
use vstd::prelude::*;
use crate::number::{dec, hex, hex_of, push_dec};
use crate::text::{push_chars, push_str, to_string};
use crate::v4l2::annexb::AccessUnitError;
use crate::v4l2::decoder::{DecoderError, Step, MAX_IN_FLIGHT, OUTPUT_BUFFER_SIZE, STALL_POLL_MS};
use crate::v4l2::queue::QueueError;

verus! {

/// What was being done, in words.
pub open spec fn step_text(step: Step) -> Seq<char> {
    match step {
        Step::QueryCap => "QUERYCAP"@,
        Step::EnumFmt => "ENUM_FMT"@,
        Step::SetOutputFormat => "S_FMT output"@,
        Step::SubscribeSourceChange => "subscribe SOURCE_CHANGE"@,
        Step::SubscribeEos => "subscribe EOS"@,
        Step::AllocateOutput => "allocate output buffers"@,
        Step::StreamonOutput => "STREAMON output"@,
        Step::GetCaptureFormat => "G_FMT capture"@,
        Step::SetCaptureFormat => "S_FMT capture"@,
        Step::AllocateCapture => "allocate capture buffers"@,
        Step::QueueCapture => "queue capture buffer"@,
        Step::StreamonCapture => "STREAMON capture"@,
        Step::StreamoffCapture => "STREAMOFF capture"@,
        Step::ReleaseCapture => "release old capture buffers"@,
        Step::Poll => "poll"@,
        Step::Dqevent => "DQEVENT"@,
        Step::DqbufOutput => "DQBUF output"@,
        Step::DqbufCapture => "DQBUF capture"@,
        Step::RequeueCapture => "requeue capture buffer"@,
        Step::QbufOutput => "QBUF output"@,
    }
}

pub fn step_str(step: Step) -> (s: &'static str)
    ensures
        s@ == step_text(step),
{
    match step {
        Step::QueryCap => "QUERYCAP",
        Step::EnumFmt => "ENUM_FMT",
        Step::SetOutputFormat => "S_FMT output",
        Step::SubscribeSourceChange => "subscribe SOURCE_CHANGE",
        Step::SubscribeEos => "subscribe EOS",
        Step::AllocateOutput => "allocate output buffers",
        Step::StreamonOutput => "STREAMON output",
        Step::GetCaptureFormat => "G_FMT capture",
        Step::SetCaptureFormat => "S_FMT capture",
        Step::AllocateCapture => "allocate capture buffers",
        Step::QueueCapture => "queue capture buffer",
        Step::StreamonCapture => "STREAMON capture",
        Step::StreamoffCapture => "STREAMOFF capture",
        Step::ReleaseCapture => "release old capture buffers",
        Step::Poll => "poll",
        Step::Dqevent => "DQEVENT",
        Step::DqbufOutput => "DQBUF output",
        Step::DqbufCapture => "DQBUF capture",
        Step::RequeueCapture => "requeue capture buffer",
        Step::QbufOutput => "QBUF output",
    }
}

/// A queue's error in words.
pub open spec fn queue_text(e: QueueError) -> Seq<char> {
    match e {
        QueueError::OutOfRange => "buffer index out of range"@,
        QueueError::AlreadyQueued(i) => "buffer "@ + dec(i as nat) + " already queued"@,
        QueueError::UnknownBuffer(i) => "driver dequeued unknown buffer "@ + dec(i as nat),
        QueueError::Device(e) => e.message@,
    }
}

impl QueueError {
    /// The error in words.
    pub fn message(&self) -> (s: String)
        ensures
            s@ == queue_text(*self),
    {
        let mut out: Vec<char> = Vec::new();
        match self {
            QueueError::OutOfRange => {
                push_str(&mut out, "buffer index out of range");
            },
            QueueError::AlreadyQueued(i) => {
                push_str(&mut out, "buffer ");
                push_dec(&mut out, *i as u64);
                push_str(&mut out, " already queued");
            },
            QueueError::UnknownBuffer(i) => {
                push_str(&mut out, "driver dequeued unknown buffer ");
                push_dec(&mut out, *i as u64);
            },
            QueueError::Device(e) => {
                push_str(&mut out, e.message.as_str());
            },
        }
        assert(out@ =~= queue_text(*self));
        to_string(&out)
    }
}

/// The decoder's error in words: the outermost of what went wrong.
pub open spec fn decoder_text(e: DecoderError) -> Seq<char> {
    match e {
        DecoderError::Device { step, .. } => step_text(step),
        DecoderError::Queue { step, .. } => step_text(step),
        DecoderError::NotM2m { caps } =>
            "device is not a multiplanar memory-to-memory codec (caps 0x"@ + hex(caps as nat)
                + ")"@,
        DecoderError::NoH264 => "device does not accept H.264"@,
        DecoderError::NoNv12 => "device does not produce NV12"@,
        DecoderError::RefusedNv12 { pixelformat } => "driver refused NV12 (gave 0x"@ + hex(
            pixelformat as nat,
        ) + ")"@,
        DecoderError::FewOutputBuffers { granted } => "driver granted only "@ + dec(granted as nat)
            + " output buffer(s), need at least "@ + dec(MAX_IN_FLIGHT as nat),
        DecoderError::SmallOutputBuffer { len } => "driver granted an output buffer of "@ + dec(
            len as nat,
        ) + " bytes, need at least "@ + dec(OUTPUT_BUFFER_SIZE as nat),
        DecoderError::AccessUnit(AccessUnitError::Empty) => "empty access unit"@,
        DecoderError::AccessUnit(AccessUnitError::NoStartCode) =>
            "access unit is not Annex B (no start code)"@,
        DecoderError::TooLarge { len } => "access unit of "@ + dec(len as nat)
            + " bytes exceeds the "@ + dec(OUTPUT_BUFFER_SIZE as nat) + " byte decoder buffer"@,
        DecoderError::Finished => "decoder reported end of stream"@,
        DecoderError::NoFreeBuffer => "no free output buffer"@,
        DecoderError::TooLargeForBuffer { len, room } => "access unit of "@ + dec(len as nat)
            + " bytes exceeds the "@ + dec(room as nat)
            + " byte output buffer actually allocated"@,
        DecoderError::Geometry { width, height, left, top, stride, coded_height, len } =>
            "capture geometry out of bounds: visible "@ + dec(width as nat) + "x"@ + dec(
                height as nat,
            ) + " at ("@ + dec(left as nat) + ","@ + dec(top as nat) + ") in "@ + dec(
                stride as nat,
            ) + "x"@ + dec(coded_height as nat) + " coded, mapping "@ + dec(len as nat)
                + " bytes"@,
        DecoderError::Stalled => "decoder stalled: no progress for "@ + dec(STALL_POLL_MS as nat)
            + " ms"@,
        DecoderError::NoPicture { unanswered, idle_ms } => "decoder stalled: "@ + dec(
            unanswered as nat,
        ) + " access units queued with no picture for "@ + dec(idle_ms as nat) + " ms"@,
        DecoderError::PollError =>
            "decoder failed: poll reported POLLERR on the device (the driver dropped the stream)"@,
        DecoderError::CaptureMissing => "capture queue missing"@,
    }
}

impl DecoderError {
    /// The error in words.
    pub fn message(&self) -> (s: String)
        ensures
            s@ == decoder_text(*self),
    {
        let mut out: Vec<char> = Vec::new();
        match self {
            DecoderError::Device { step, .. } => push_str(&mut out, step_str(*step)),
            DecoderError::Queue { step, .. } => push_str(&mut out, step_str(*step)),
            DecoderError::NotM2m { caps } => {
                push_str(
                    &mut out,
                    "device is not a multiplanar memory-to-memory codec (caps 0x",
                );
                push_chars(&mut out, &hex_of(*caps as u64));
                push_str(&mut out, ")");
            },
            DecoderError::NoH264 => push_str(&mut out, "device does not accept H.264"),
            DecoderError::NoNv12 => push_str(&mut out, "device does not produce NV12"),
            DecoderError::RefusedNv12 { pixelformat } => {
                push_str(&mut out, "driver refused NV12 (gave 0x");
                push_chars(&mut out, &hex_of(*pixelformat as u64));
                push_str(&mut out, ")");
            },
            DecoderError::FewOutputBuffers { granted } => {
                push_str(&mut out, "driver granted only ");
                push_dec(&mut out, *granted as u64);
                push_str(&mut out, " output buffer(s), need at least ");
                push_dec(&mut out, MAX_IN_FLIGHT as u64);
            },
            DecoderError::SmallOutputBuffer { len } => {
                push_str(&mut out, "driver granted an output buffer of ");
                push_dec(&mut out, *len as u64);
                push_str(&mut out, " bytes, need at least ");
                push_dec(&mut out, OUTPUT_BUFFER_SIZE as u64);
            },
            DecoderError::AccessUnit(e) => push_str(&mut out, e.message()),
            DecoderError::TooLarge { len } => {
                push_str(&mut out, "access unit of ");
                push_dec(&mut out, *len as u64);
                push_str(&mut out, " bytes exceeds the ");
                push_dec(&mut out, OUTPUT_BUFFER_SIZE as u64);
                push_str(&mut out, " byte decoder buffer");
            },
            DecoderError::Finished => push_str(&mut out, "decoder reported end of stream"),
            DecoderError::NoFreeBuffer => push_str(&mut out, "no free output buffer"),
            DecoderError::TooLargeForBuffer { len, room } => {
                push_str(&mut out, "access unit of ");
                push_dec(&mut out, *len as u64);
                push_str(&mut out, " bytes exceeds the ");
                push_dec(&mut out, *room as u64);
                push_str(&mut out, " byte output buffer actually allocated");
            },
            DecoderError::Geometry { width, height, left, top, stride, coded_height, len } => {
                push_str(&mut out, "capture geometry out of bounds: visible ");
                push_dec(&mut out, *width as u64);
                push_str(&mut out, "x");
                push_dec(&mut out, *height as u64);
                push_str(&mut out, " at (");
                push_dec(&mut out, *left as u64);
                push_str(&mut out, ",");
                push_dec(&mut out, *top as u64);
                push_str(&mut out, ") in ");
                push_dec(&mut out, *stride as u64);
                push_str(&mut out, "x");
                push_dec(&mut out, *coded_height as u64);
                push_str(&mut out, " coded, mapping ");
                push_dec(&mut out, *len as u64);
                push_str(&mut out, " bytes");
            },
            DecoderError::Stalled => {
                push_str(&mut out, "decoder stalled: no progress for ");
                push_dec(&mut out, STALL_POLL_MS);
                push_str(&mut out, " ms");
            },
            DecoderError::NoPicture { unanswered, idle_ms } => {
                push_str(&mut out, "decoder stalled: ");
                push_dec(&mut out, *unanswered as u64);
                push_str(&mut out, " access units queued with no picture for ");
                push_dec(&mut out, *idle_ms);
                push_str(&mut out, " ms");
            },
            DecoderError::PollError => push_str(
                &mut out,
                "decoder failed: poll reported POLLERR on the device (the driver dropped the stream)",
            ),
            DecoderError::CaptureMissing => push_str(&mut out, "capture queue missing"),
        }
        assert(out@ =~= decoder_text(*self));
        to_string(&out)
    }
}

} // verus!
