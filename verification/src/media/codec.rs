//! Raw and encoded pictures, and what a codec offers.
use vstd::prelude::*;
pub use crate::proto::Mode;
use crate::wire::copy_bytes;

verus! {

#[derive(Debug, Clone, Copy, PartialEq, Eq, Structural)]
pub enum PixelFormat {
    Bgra,
    I420,
    Nv12,
}

/// A raw picture. `data` holds all planes contiguously. For I420: Y (w*h), U (w/2*h/2), V.
/// For NV12: Y, then interleaved UV. For BGRA: `stride` bytes per row.
#[derive(Debug, Clone)]
pub struct RawFrame {
    pub format: PixelFormat,
    pub width: u32,
    pub height: u32,
    pub stride: u32,
    pub data: Vec<u8>,
    pub timestamp_us: u64,
}

/// What a `RawFrame` holds.
pub struct RawFrameView {
    pub format: PixelFormat,
    pub width: u32,
    pub height: u32,
    pub stride: u32,
    pub data: Seq<u8>,
    pub timestamp_us: u64,
}

impl View for RawFrame {
    type V = RawFrameView;

    open spec fn view(&self) -> RawFrameView {
        RawFrameView {
            format: self.format,
            width: self.width,
            height: self.height,
            stride: self.stride,
            data: self.data@,
            timestamp_us: self.timestamp_us,
        }
    }
}

impl RawFrame {
    /// The same picture again.
    pub fn copied(&self) -> (f: RawFrame)
        ensures
            f@ == self@,
    {
        RawFrame {
            format: self.format,
            width: self.width,
            height: self.height,
            stride: self.stride,
            data: copy_bytes(&self.data),
            timestamp_us: self.timestamp_us,
        }
    }
}

#[derive(Debug, Clone)]
pub struct EncodedFrame {
    pub data: Vec<u8>,
    pub keyframe: bool,
    pub timestamp_us: u64,
}

/// What an `EncodedFrame` holds.
#[verifier::ext_equal]
pub struct EncodedFrameView {
    pub data: Seq<u8>,
    pub keyframe: bool,
    pub timestamp_us: u64,
}

impl View for EncodedFrame {
    type V = EncodedFrameView;

    open spec fn view(&self) -> EncodedFrameView {
        EncodedFrameView {
            data: self.data@,
            keyframe: self.keyframe,
            timestamp_us: self.timestamp_us,
        }
    }
}

/// What an encoder handed out, if anything.
pub open spec fn encoded_view(f: Option<EncodedFrame>) -> Option<EncodedFrameView> {
    match f {
        Some(f) => Some(f@),
        None => None,
    }
}

#[derive(Debug, Clone, Copy, PartialEq, Eq, Structural)]
pub struct EncoderConfig {
    pub width: u32,
    pub height: u32,
    pub fps: u32,
    pub bitrate_bps: u32,
    pub mode: Mode,
}

} // verus!
