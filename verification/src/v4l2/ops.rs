//! What the queue and the decoder ask of a device.
//!
//! A device is whatever implements `Ops`. The logic holds for every device:
//! each contract says what is asked, and what is done with each answer. For
//! that a device has a ghost `Script`, the answers it will give, turn by turn,
//! which is fixed but unknown, and a ghost `World`, what has been asked so far.
use vstd::prelude::*;
use crate::time::Instant;
use crate::v4l2::sys::{v4l2_capability, v4l2_rect};

verus! {

/// Why a device refused.
#[derive(Clone, Debug)]
pub struct OpsError {
    /// The operating system's error number, if there is one.
    pub errno: Option<i32>,
    pub message: String,
}

#[derive(Clone, Copy, Debug, PartialEq, Eq, Structural)]
pub struct PlaneInfo {
    pub length: u32,
    pub mem_offset: u32,
}

#[derive(Clone, Copy, Debug, PartialEq, Eq, Structural)]
pub struct Dequeued {
    pub index: u32,
    pub bytesused: u32,
    pub timestamp_us: u64,
    pub flags: u32,
}

/// What a dequeue brings.
#[derive(Clone, Copy, Debug, PartialEq, Eq, Structural)]
pub enum Dequeue {
    Buffer(Dequeued),
    /// Nothing is ready.
    Idle,
    /// The device has finished the sequence that it was decoding.
    EndOfSequence,
}

impl Dequeue {
    /// The buffer, if there is one.
    pub fn buffer(self) -> (r: Option<Dequeued>)
        ensures
            r == (match self {
                Dequeue::Buffer(d) => Some(d),
                _ => None,
            }),
    {
        match self {
            Dequeue::Buffer(d) => Some(d),
            _ => None,
        }
    }
}

#[derive(Clone, Copy, Debug, PartialEq, Eq, Structural)]
pub struct Event {
    pub kind: u32,
    pub changes: u32,
}

#[derive(Clone, Copy, Debug, PartialEq, Eq, Structural)]
pub struct PollResult {
    pub readable: bool,
    pub writable: bool,
    pub event: bool,
    pub error: bool,
}

impl Default for PollResult {
    fn default() -> (r: Self)
        ensures
            r == (PollResult { readable: false, writable: false, event: false, error: false }),
    {
        PollResult { readable: false, writable: false, event: false, error: false }
    }
}

#[derive(Clone, Copy, Debug, PartialEq, Eq, Structural)]
pub struct FormatInfo {
    pub width: u32,
    pub height: u32,
    pub pixelformat: u32,
    pub bytesperline: u32,
    pub sizeimage: u32,
}

impl Default for FormatInfo {
    fn default() -> (r: Self)
        ensures
            r == (FormatInfo {
                width: 0,
                height: 0,
                pixelformat: 0,
                bytesperline: 0,
                sizeimage: 0,
            }),
    {
        FormatInfo { width: 0, height: 0, pixelformat: 0, bytesperline: 0, sizeimage: 0 }
    }
}

/// A buffer that the device has mapped, by the number it gave it.
#[derive(Clone, Copy, Debug, PartialEq, Eq, Structural)]
pub struct Mapping {
    pub id: u64,
    pub len: usize,
}

impl Mapping {
    pub fn len(&self) -> (n: usize)
        ensures
            n == self.len,
    {
        self.len
    }

    pub fn is_empty(&self) -> (r: bool)
        ensures
            r == (self.len == 0),
    {
        self.len == 0
    }
}

/// One thing that is asked of a device.
pub enum Call {
    QueryCap,
    EnumFmt { buf_type: u32, index: u32 },
    GFmt { buf_type: u32 },
    SFmt { buf_type: u32, want: FormatInfo },
    Reqbufs { buf_type: u32, count: u32 },
    Querybuf { buf_type: u32, index: u32 },
    Mmap { length: usize, offset: u32 },
    Expbuf { buf_type: u32, index: u32 },
    Qbuf { buf_type: u32, index: u32, length: u32, bytesused: u32, timestamp_us: u64 },
    Dqbuf { buf_type: u32 },
    Streamon { buf_type: u32 },
    Streamoff { buf_type: u32 },
    Subscribe { event_type: u32 },
    Dqevent,
    Poll { timeout_ms: i32 },
    Compose { buf_type: u32 },
    GCtrl { id: u32 },
    Now,
    Load { mapping: Mapping },
    Store { mapping: Mapping, data: Seq<u8> },
}

/// The answers of a device, turn by turn.
pub struct Script {
    pub query_cap: spec_fn(nat) -> Result<v4l2_capability, OpsError>,
    pub enum_fmt: spec_fn(nat) -> Result<Option<u32>, OpsError>,
    pub g_fmt: spec_fn(nat) -> Result<FormatInfo, OpsError>,
    pub s_fmt: spec_fn(nat) -> Result<FormatInfo, OpsError>,
    pub reqbufs: spec_fn(nat) -> Result<u32, OpsError>,
    pub querybuf: spec_fn(nat) -> Result<PlaneInfo, OpsError>,
    pub mmap: spec_fn(nat) -> Result<Mapping, OpsError>,
    pub expbuf: spec_fn(nat) -> Result<i32, OpsError>,
    pub qbuf: spec_fn(nat) -> Result<(), OpsError>,
    pub dqbuf: spec_fn(nat) -> Result<Dequeue, OpsError>,
    pub streamon: spec_fn(nat) -> Result<(), OpsError>,
    pub streamoff: spec_fn(nat) -> Result<(), OpsError>,
    pub subscribe: spec_fn(nat) -> Result<(), OpsError>,
    pub dqevent: spec_fn(nat) -> Result<Option<Event>, OpsError>,
    pub poll: spec_fn(nat) -> Result<PollResult, OpsError>,
    pub compose: spec_fn(nat) -> Result<v4l2_rect, OpsError>,
    pub g_ctrl: spec_fn(nat) -> Result<i32, OpsError>,
    pub now: spec_fn(nat) -> Instant,
    pub load: spec_fn(nat) -> Seq<u8>,
}

/// What has been asked of a device so far.
pub struct World {
    pub turn: nat,
    pub calls: Seq<Call>,
}

impl World {
    pub open spec fn then_asked(self, c: Call) -> World {
        World { turn: self.turn + 1, calls: self.calls.push(c) }
    }
}

pub trait Ops: Sized {
    /// The answers that this device will give.
    spec fn script(&self) -> Script;

    /// What has been asked so far.
    spec fn world(&self) -> World;

    fn query_cap(&mut self) -> (r: Result<v4l2_capability, OpsError>)
        ensures
            final(self).script() == old(self).script(),
            r == (old(self).script().query_cap)(old(self).world().turn),
            final(self).world() == old(self).world().then_asked(Call::QueryCap),
    ;

    /// Pixel format at `index` for the queue type, or None past the end.
    fn enum_fmt(&mut self, buf_type: u32, index: u32) -> (r: Result<Option<u32>, OpsError>)
        ensures
            final(self).script() == old(self).script(),
            r == (old(self).script().enum_fmt)(old(self).world().turn),
            final(self).world() == old(self).world().then_asked(Call::EnumFmt { buf_type, index }),
    ;

    fn g_fmt(&mut self, buf_type: u32) -> (r: Result<FormatInfo, OpsError>)
        ensures
            final(self).script() == old(self).script(),
            r == (old(self).script().g_fmt)(old(self).world().turn),
            final(self).world() == old(self).world().then_asked(Call::GFmt { buf_type }),
    ;

    /// Sets the format; returns what the driver actually accepted.
    fn s_fmt(&mut self, buf_type: u32, want: &FormatInfo) -> (r: Result<FormatInfo, OpsError>)
        ensures
            final(self).script() == old(self).script(),
            r == (old(self).script().s_fmt)(old(self).world().turn),
            final(self).world() == old(self).world().then_asked(
                Call::SFmt { buf_type, want: *want },
            ),
    ;

    /// Returns the count granted (drivers may round up).
    fn reqbufs(&mut self, buf_type: u32, count: u32) -> (r: Result<u32, OpsError>)
        ensures
            final(self).script() == old(self).script(),
            r == (old(self).script().reqbufs)(old(self).world().turn),
            final(self).world() == old(self).world().then_asked(Call::Reqbufs { buf_type, count }),
    ;

    fn querybuf(&mut self, buf_type: u32, index: u32) -> (r: Result<PlaneInfo, OpsError>)
        ensures
            final(self).script() == old(self).script(),
            r == (old(self).script().querybuf)(old(self).world().turn),
            final(self).world() == old(self).world().then_asked(Call::Querybuf { buf_type, index }),
    ;

    fn mmap(&mut self, length: usize, offset: u32) -> (r: Result<Mapping, OpsError>)
        ensures
            final(self).script() == old(self).script(),
            r == (old(self).script().mmap)(old(self).world().turn),
            final(self).world() == old(self).world().then_asked(Call::Mmap { length, offset }),
    ;

    fn expbuf(&mut self, buf_type: u32, index: u32) -> (r: Result<i32, OpsError>)
        ensures
            final(self).script() == old(self).script(),
            r == (old(self).script().expbuf)(old(self).world().turn),
            final(self).world() == old(self).world().then_asked(Call::Expbuf { buf_type, index }),
    ;

    fn qbuf(
        &mut self,
        buf_type: u32,
        index: u32,
        length: u32,
        bytesused: u32,
        timestamp_us: u64,
    ) -> (r: Result<(), OpsError>)
        ensures
            final(self).script() == old(self).script(),
            r == (old(self).script().qbuf)(old(self).world().turn),
            final(self).world() == old(self).world().then_asked(
                Call::Qbuf { buf_type, index, length, bytesused, timestamp_us },
            ),
    ;

    fn dqbuf(&mut self, buf_type: u32) -> (r: Result<Dequeue, OpsError>)
        ensures
            final(self).script() == old(self).script(),
            r == (old(self).script().dqbuf)(old(self).world().turn),
            final(self).world() == old(self).world().then_asked(Call::Dqbuf { buf_type }),
    ;

    fn streamon(&mut self, buf_type: u32) -> (r: Result<(), OpsError>)
        ensures
            final(self).script() == old(self).script(),
            r == (old(self).script().streamon)(old(self).world().turn),
            final(self).world() == old(self).world().then_asked(Call::Streamon { buf_type }),
    ;

    fn streamoff(&mut self, buf_type: u32) -> (r: Result<(), OpsError>)
        ensures
            final(self).script() == old(self).script(),
            r == (old(self).script().streamoff)(old(self).world().turn),
            final(self).world() == old(self).world().then_asked(Call::Streamoff { buf_type }),
    ;

    fn subscribe(&mut self, event_type: u32) -> (r: Result<(), OpsError>)
        ensures
            final(self).script() == old(self).script(),
            r == (old(self).script().subscribe)(old(self).world().turn),
            final(self).world() == old(self).world().then_asked(Call::Subscribe { event_type }),
    ;

    /// None when no event is pending.
    fn dqevent(&mut self) -> (r: Result<Option<Event>, OpsError>)
        ensures
            final(self).script() == old(self).script(),
            r == (old(self).script().dqevent)(old(self).world().turn),
            final(self).world() == old(self).world().then_asked(Call::Dqevent),
    ;

    fn poll(&mut self, timeout_ms: i32) -> (r: Result<PollResult, OpsError>)
        ensures
            final(self).script() == old(self).script(),
            r == (old(self).script().poll)(old(self).world().turn),
            final(self).world() == old(self).world().then_asked(Call::Poll { timeout_ms }),
    ;

    fn g_selection_compose(&mut self, buf_type: u32) -> (r: Result<v4l2_rect, OpsError>)
        ensures
            final(self).script() == old(self).script(),
            r == (old(self).script().compose)(old(self).world().turn),
            final(self).world() == old(self).world().then_asked(Call::Compose { buf_type }),
    ;

    fn g_ctrl(&mut self, id: u32) -> (r: Result<i32, OpsError>)
        ensures
            final(self).script() == old(self).script(),
            r == (old(self).script().g_ctrl)(old(self).world().turn),
            final(self).world() == old(self).world().then_asked(Call::GCtrl { id }),
    ;

    /// The time on the clock that the stall rules go by.
    fn now(&mut self) -> (r: Instant)
        ensures
            final(self).script() == old(self).script(),
            r == (old(self).script().now)(old(self).world().turn),
            final(self).world() == old(self).world().then_asked(Call::Now),
    ;

    /// The bytes in a mapped buffer.
    fn load(&mut self, mapping: &Mapping) -> (r: Vec<u8>)
        ensures
            final(self).script() == old(self).script(),
            r@ == (old(self).script().load)(old(self).world().turn),
            final(self).world() == old(self).world().then_asked(Call::Load { mapping: *mapping }),
    ;

    /// Puts bytes at the front of a mapped buffer.
    fn store(&mut self, mapping: &Mapping, data: &[u8])
        requires
            data@.len() <= mapping.len,
        ensures
            final(self).script() == old(self).script(),
            final(self).world() == old(self).world().then_asked(
                Call::Store { mapping: *mapping, data: data@ },
            ),
    ;
}

} // verus!
