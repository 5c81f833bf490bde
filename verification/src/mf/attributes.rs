//! Attributes of media types and samples.
use vstd::prelude::*;
use crate::media::codec::{EncoderConfig, Mode};

verus! {

/// Two numbers in one attribute, the first in the upper half.
pub open spec fn packed(hi: u32, lo: u32) -> int {
    hi * 0x1_0000_0000 + lo
}

/// Two numbers in one attribute, the first in the upper half.
pub fn pack(hi: u32, lo: u32) -> (r: u64)
    ensures
        r == packed(hi, lo),
{
    hi as u64 * 0x1_0000_0000 + lo as u64
}

/// The two numbers of an attribute.
pub open spec fn unpacked(x: u64) -> (u32, u32) {
    ((x / 0x1_0000_0000) as u32, (x % 0x1_0000_0000) as u32)
}

/// The two numbers of an attribute.
pub fn unpack(x: u64) -> (r: (u32, u32))
    ensures
        r == unpacked(x),
{
    ((x / 0x1_0000_0000) as u32, (x % 0x1_0000_0000) as u32)
}

/// The attributes of a video type.
#[derive(Debug, Clone, Copy, PartialEq, Eq, Structural)]
pub struct VideoType {
    pub h264: bool,
    pub frame_size: u64,
    pub frame_rate: u64,
    pub pixel_aspect_ratio: u64,
    pub avg_bitrate: Option<u32>,
    /// Only what is coded has a profile.
    pub main_profile: bool,
}

pub open spec fn video_type_of(h264: bool, w: u32, h: u32, fps: u32, bitrate: Option<u32>) -> VideoType {
    VideoType {
        h264,
        frame_size: packed(w, h) as u64,
        frame_rate: packed(fps, 1) as u64,
        pixel_aspect_ratio: packed(1, 1) as u64,
        avg_bitrate: bitrate,
        main_profile: h264,
    }
}

pub fn video_type(h264: bool, w: u32, h: u32, fps: u32, bitrate: Option<u32>) -> (t: VideoType)
    ensures
        t == video_type_of(h264, w, h, fps, bitrate),
{
    VideoType {
        h264,
        frame_size: pack(w, h),
        frame_rate: pack(fps, 1),
        pixel_aspect_ratio: pack(1, 1),
        avg_bitrate: bitrate,
        main_profile: h264,
    }
}

/// Microseconds in the units of 100 ns that samples count in.
pub fn sample_time(us: u64) -> (t: i64)
    requires
        us * 10 <= i64::MAX,
    ensures
        t == us * 10,
{
    (us * 10) as i64
}

/// The microseconds of a sample's time; one before the beginning counts as the
/// beginning.
pub open spec fn micros_of(t: i64) -> u64 {
    if t > 0 {
        (t / 10) as u64
    } else {
        0
    }
}

pub fn micros(t: i64) -> (us: u64)
    ensures
        us == micros_of(t),
{
    if t > 0 {
        t as u64 / 10
    } else {
        0
    }
}

/// `MF_E_TRANSFORM_NEED_MORE_INPUT`.
pub const NEED_MORE_INPUT: u32 = 0xC00D_6D72;

/// `MF_E_TRANSFORM_STREAM_CHANGE`.
pub const STREAM_CHANGE: u32 = 0xC00D_6D61;

/// What an attempt to get output came to.
#[derive(Debug, Clone, Copy, PartialEq, Eq, Structural)]
pub enum OutputStep {
    /// There is a sample.
    Sample,
    /// There is nothing until there is more input.
    NeedInput,
    /// The output type has to be set again.
    StreamChange,
    Failed,
}

/// What an attempt to get output came to, by its error's code if it failed.
pub fn output_step(error: Option<u32>) -> (r: OutputStep)
    ensures
        r == match error {
            None => OutputStep::Sample,
            Some(c) => if c == NEED_MORE_INPUT {
                OutputStep::NeedInput
            } else if c == STREAM_CHANGE {
                OutputStep::StreamChange
            } else {
                OutputStep::Failed
            },
        },
{
    match error {
        None => OutputStep::Sample,
        Some(c) => if c == NEED_MORE_INPUT {
            OutputStep::NeedInput
        } else if c == STREAM_CHANGE {
            OutputStep::StreamChange
        } else {
            OutputStep::Failed
        },
    }
}

/// How a mode steers the rate: the control mode and the distance between
/// keyframes.
#[derive(Debug, Clone, Copy, PartialEq, Eq, Structural)]
pub struct RateControl {
    pub mode: u32,
    pub gop: u32,
    pub mean_bitrate: u32,
}

/// `eAVEncCommonRateControlMode_CBR`.
pub const RATE_CBR: u32 = 0;

/// `eAVEncCommonRateControlMode_UnconstrainedVBR`.
pub const RATE_UNCONSTRAINED_VBR: u32 = 2;

/// Game mode holds the rate and spaces keyframes ten seconds apart; Quality
/// mode lets the rate vary and spaces them two.
pub open spec fn steered(cfg: EncoderConfig) -> RateControl {
    match cfg.mode {
        Mode::Game => RateControl {
            mode: RATE_CBR,
            gop: (cfg.fps * 10) as u32,
            mean_bitrate: cfg.bitrate_bps,
        },
        Mode::Quality => RateControl {
            mode: RATE_UNCONSTRAINED_VBR,
            gop: (cfg.fps * 2) as u32,
            mean_bitrate: cfg.bitrate_bps,
        },
    }
}

/// Whether the space between keyframes can be counted in frames.
pub open spec fn gop_fits(cfg: EncoderConfig) -> bool {
    match cfg.mode {
        Mode::Game => cfg.fps * 10 <= u32::MAX,
        Mode::Quality => cfg.fps * 2 <= u32::MAX,
    }
}

pub fn rate_control(cfg: &EncoderConfig) -> (r: RateControl)
    requires
        gop_fits(*cfg),
    ensures
        r == steered(*cfg),
{
    match cfg.mode {
        Mode::Game => RateControl {
            mode: RATE_CBR,
            gop: cfg.fps * 10,
            mean_bitrate: cfg.bitrate_bps,
        },
        Mode::Quality => RateControl {
            mode: RATE_UNCONSTRAINED_VBR,
            gop: cfg.fps * 2,
            mean_bitrate: cfg.bitrate_bps,
        },
    }
}

// ---- laws ----

/// What is packed into an attribute is what comes out of it.
pub proof fn law_packed_pairs_read_back(a: u32, b: u32)
    ensures
        0 <= packed(a, b) <= u64::MAX,
        unpacked(packed(a, b) as u64) == (a, b),
{
}

/// A sample's time reads back as the microseconds it was given.
pub proof fn law_sample_times_read_back(us: u64, t: i64)
    requires
        us * 10 <= i64::MAX,
        t == us * 10,
    ensures
        micros_of(t) == us,
{
}

} // verus!
