//! The subset of `<linux/videodev2.h>` the decoder needs, on 64-bit
//! little-endian Linux: numbers, and the few values that the logic reads.
#![allow(non_camel_case_types)]
use vstd::prelude::*;

verus! {

pub const V4L2_BUF_TYPE_VIDEO_CAPTURE_MPLANE: u32 = 9;

pub const V4L2_BUF_TYPE_VIDEO_OUTPUT_MPLANE: u32 = 10;

pub const V4L2_MEMORY_MMAP: u32 = 1;

pub const V4L2_FIELD_NONE: u32 = 1;

pub const V4L2_CAP_VIDEO_M2M_MPLANE: u32 = 0x0000_4000;

pub const V4L2_CAP_STREAMING: u32 = 0x0400_0000;

pub const V4L2_CAP_DEVICE_CAPS: u32 = 0x8000_0000;

pub const V4L2_EVENT_EOS: u32 = 2;

pub const V4L2_EVENT_SOURCE_CHANGE: u32 = 5;

pub const V4L2_EVENT_SRC_CH_RESOLUTION: u32 = 1;

pub const V4L2_SEL_TGT_COMPOSE: u32 = 0x0100;

pub const V4L2_BUF_FLAG_LAST: u32 = 0x0010_0000;

pub const V4L2_CID_MIN_BUFFERS_FOR_CAPTURE: u32 = 0x0098_0927;

pub const VIDEO_MAX_PLANES: usize = 8;

/// `fourcc('H', '2', '6', '4')`.
pub const V4L2_PIX_FMT_H264: u32 = 0x3436_3248;

/// `fourcc('N', 'V', '1', '2')`.
pub const V4L2_PIX_FMT_NV12: u32 = 0x3231_564E;

/// The error number for an invalid argument.
pub const EINVAL: i32 = 22;

/// A four-character code: the first character in the lowest byte.
pub open spec fn four(a: u8, b: u8, c: u8, d: u8) -> int {
    a + b * 256 + c * 65536 + d * 16777216
}

/// A four-character code: the first character in the lowest byte.
pub fn fourcc(a: u8, b: u8, c: u8, d: u8) -> (r: u32)
    ensures
        r == four(a, b, c, d),
{
    a as u32 + b as u32 * 256 + c as u32 * 65536 + d as u32 * 16777216
}

// Request numbers: two bits of direction, fourteen of size, then the letter
// `V` and the number of the request.

/// A request that writes to the kernel.
pub const IOC_WRITE: u32 = 1;

/// A request that reads from the kernel.
pub const IOC_READ: u32 = 2;

/// The number of a request with this direction, of this many bytes.
pub open spec fn request(dir: int, nr: int, size: int) -> int {
    dir * 1073741824 + size * 65536 + 0x56 * 256 + nr
}

/// The number of a request with this direction, of this many bytes.
pub fn ioc(dir: u32, nr: u32, size: usize) -> (r: u64)
    requires
        dir < 4,
        nr < 256,
        size < 16384,
    ensures
        r == request(dir as int, nr as int, size as int),
{
    dir as u64 * 1073741824 + size as u64 * 65536 + 0x56 * 256 + nr as u64
}

pub const VIDIOC_QUERYCAP: u64 = 0x8068_5600;

pub const VIDIOC_ENUM_FMT: u64 = 0xC040_5602;

pub const VIDIOC_G_FMT: u64 = 0xC0D0_5604;

pub const VIDIOC_S_FMT: u64 = 0xC0D0_5605;

pub const VIDIOC_REQBUFS: u64 = 0xC014_5608;

pub const VIDIOC_QUERYBUF: u64 = 0xC058_5609;

pub const VIDIOC_QBUF: u64 = 0xC058_560F;

pub const VIDIOC_EXPBUF: u64 = 0xC040_5610;

pub const VIDIOC_DQBUF: u64 = 0xC058_5611;

pub const VIDIOC_STREAMON: u64 = 0x4004_5612;

pub const VIDIOC_STREAMOFF: u64 = 0x4004_5613;

pub const VIDIOC_DQEVENT: u64 = 0x8088_5659;

pub const VIDIOC_SUBSCRIBE_EVENT: u64 = 0x4020_565A;

pub const VIDIOC_G_SELECTION: u64 = 0xC040_565E;

/// What a device says it can do.
#[derive(Clone, Copy, Debug, PartialEq, Eq, Structural)]
pub struct v4l2_capability {
    pub capabilities: u32,
    pub device_caps: u32,
}

#[derive(Clone, Copy, Debug, PartialEq, Eq, Structural)]
pub struct v4l2_rect {
    pub left: i32,
    pub top: i32,
    pub width: u32,
    pub height: u32,
}

impl Default for v4l2_rect {
    fn default() -> (r: Self)
        ensures
            r == (v4l2_rect { left: 0, top: 0, width: 0, height: 0 }),
    {
        v4l2_rect { left: 0, top: 0, width: 0, height: 0 }
    }
}

/// Seconds and microseconds.
#[derive(Clone, Copy, Debug, PartialEq, Eq, Structural)]
pub struct v4l2_timeval {
    pub tv_sec: i64,
    pub tv_usec: i64,
}

/// An event as the device reports it.
#[derive(Clone, Copy)]
pub struct v4l2_event {
    pub type_: u32,
    /// Union payload; for SOURCE_CHANGE the first four bytes are the changes.
    pub u: [u8; 64],
}

impl v4l2_event {
    /// What changed, for a SOURCE_CHANGE.
    pub fn src_changes(&self) -> (r: u32)
        ensures
            r == self.u@[0] + self.u@[1] * 256 + self.u@[2] * 65536 + self.u@[3] * 16777216,
    {
        fourcc(self.u[0], self.u[1], self.u[2], self.u[3])
    }
}

/// A timestamp in microseconds as the kernel takes it.
pub fn split_ts(ts_us: u64) -> (tv: v4l2_timeval)
    ensures
        tv.tv_sec == ts_us / 1_000_000,
        tv.tv_usec == ts_us % 1_000_000,
{
    v4l2_timeval { tv_sec: (ts_us / 1_000_000) as i64, tv_usec: (ts_us % 1_000_000) as i64 }
}

pub open spec fn joined(tv: v4l2_timeval) -> int {
    (if tv.tv_sec > 0 {
        tv.tv_sec as int
    } else {
        0
    }) * 1_000_000 + (if tv.tv_usec > 0 {
        tv.tv_usec as int
    } else {
        0
    })
}

/// The kernel's timestamp in microseconds; a negative part counts as zero.
pub fn join_ts(tv: v4l2_timeval) -> (r: u64)
    requires
        joined(tv) <= u64::MAX,
    ensures
        r == joined(tv),
{
    let sec: u64 = if tv.tv_sec > 0 {
        tv.tv_sec as u64
    } else {
        0
    };
    let usec: u64 = if tv.tv_usec > 0 {
        tv.tv_usec as u64
    } else {
        0
    };
    sec * 1_000_000 + usec
}

/// A timestamp survives the trip through the kernel.
pub proof fn law_timestamps_round_trip(ts_us: u64, tv: v4l2_timeval)
    requires
        tv.tv_sec == ts_us / 1_000_000,
        tv.tv_usec == ts_us % 1_000_000,
    ensures
        joined(tv) == ts_us,
{
}

/// The parts of a request's number: two bits of direction, fourteen of size, the
/// letter, and the number itself.
pub proof fn law_the_parts_of_a_request(dir: int, nr: int, size: int)
    requires
        0 <= dir < 4,
        0 <= nr < 256,
        0 <= size < 16384,
    ensures
        ({
            let r = request(dir, nr, size);
            &&& r / 1073741824 == dir
            &&& r / 65536 % 16384 == size
            &&& r / 256 % 256 == 0x56
            &&& r % 256 == nr
        }),
{
    let r = request(dir, nr, size);
    assert(r / 256 == dir * 4194304 + size * 256 + 0x56);
    assert(r / 65536 == dir * 16384 + size);
}

/// The requests that are made: what each reads and writes, its number, and how
/// many bytes it hands over.
pub proof fn law_the_requests(dir: int, nr: int, size: int)
    requires
        0 <= dir < 4,
        0 <= nr < 256,
        0 <= size < 16384,
    ensures
        request(dir, nr, size) == VIDIOC_QUERYCAP <==> (dir, nr, size) == (2int, 0int, 104int),
        request(dir, nr, size) == VIDIOC_ENUM_FMT <==> (dir, nr, size) == (3int, 2int, 64int),
        request(dir, nr, size) == VIDIOC_G_FMT <==> (dir, nr, size) == (3int, 4int, 208int),
        request(dir, nr, size) == VIDIOC_S_FMT <==> (dir, nr, size) == (3int, 5int, 208int),
        request(dir, nr, size) == VIDIOC_REQBUFS <==> (dir, nr, size) == (3int, 8int, 20int),
        request(dir, nr, size) == VIDIOC_QUERYBUF <==> (dir, nr, size) == (3int, 9int, 88int),
        request(dir, nr, size) == VIDIOC_QBUF <==> (dir, nr, size) == (3int, 15int, 88int),
        request(dir, nr, size) == VIDIOC_EXPBUF <==> (dir, nr, size) == (3int, 16int, 64int),
        request(dir, nr, size) == VIDIOC_DQBUF <==> (dir, nr, size) == (3int, 17int, 88int),
        request(dir, nr, size) == VIDIOC_STREAMON <==> (dir, nr, size) == (1int, 18int, 4int),
        request(dir, nr, size) == VIDIOC_STREAMOFF <==> (dir, nr, size) == (1int, 19int, 4int),
        request(dir, nr, size) == VIDIOC_DQEVENT <==> (dir, nr, size) == (2int, 89int, 136int),
        request(dir, nr, size) == VIDIOC_SUBSCRIBE_EVENT <==> (dir, nr, size) == (
            1int,
            90int,
            32int,
        ),
        request(dir, nr, size) == VIDIOC_G_SELECTION <==> (dir, nr, size) == (3int, 94int, 64int),
{
    law_the_parts_of_a_request(dir, nr, size);
}

} // verus!
