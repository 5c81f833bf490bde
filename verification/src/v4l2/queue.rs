//! One V4L2 buffer queue (OUTPUT or CAPTURE): allocation, mapping, DMABUF
//! export, queue/dequeue bookkeeping and teardown. Pure bookkeeping over `Ops`.
use vstd::prelude::*;
use crate::v4l2::ops::{Call, Dequeue, Mapping, Ops, OpsError, Script, World};

verus! {

#[derive(Clone, Copy, Debug, PartialEq, Eq, Structural)]
pub struct Buffer {
    pub mapping: Mapping,
    /// DMABUF handle exported at allocation; unused for now, reserved for a
    /// zero-copy present path.
    pub dmabuf: Option<i32>,
    pub queued: bool,
}

/// Why a queue refused.
#[derive(Clone, Debug)]
pub enum QueueError {
    /// There is no buffer of that index.
    OutOfRange,
    /// The buffer is with the driver already.
    AlreadyQueued(usize),
    /// The driver handed back a buffer that there is not.
    UnknownBuffer(u32),
    Device(OpsError),
}

impl QueueError {
    /// The operating system's error number, if there is one.
    pub fn raw_os_error(&self) -> (r: Option<i32>)
        ensures
            r == self.errno(),
    {
        match self {
            QueueError::Device(e) => e.errno,
            _ => None,
        }
    }

    pub open spec fn errno(&self) -> Option<i32> {
        match self {
            QueueError::Device(e) => e.errno,
            _ => None,
        }
    }
}

pub struct Queue {
    pub buf_type: u32,
    pub buffers: Vec<Buffer>,
    streaming: bool,
}

// ---- the model ----

/// What a queue holds.
#[verifier::ext_equal]
pub struct QueueState {
    pub buf_type: u32,
    pub buffers: Seq<Buffer>,
    pub streaming: bool,
}

impl View for Queue {
    type V = QueueState;

    closed spec fn view(&self) -> QueueState {
        QueueState {
            buf_type: self.buf_type,
            buffers: self.buffers@,
            streaming: self.streaming,
        }
    }
}

/// Buffers from `index` up to what was granted, each queried, mapped and, if
/// it is to be, exported.
pub open spec fn filled(
    s: Script,
    w: World,
    q: QueueState,
    index: nat,
    granted: nat,
    export: bool,
) -> (World, QueueState, Result<(), OpsError>)
    decreases granted - index,
{
    if index >= granted {
        (w, q, Ok(()))
    } else {
        let w1 = w.then_asked(Call::Querybuf { buf_type: q.buf_type, index: index as u32 });
        match (s.querybuf)(w.turn) {
            Err(e) => (w1, q, Err(e)),
            Ok(info) => {
                let w2 = w1.then_asked(
                    Call::Mmap { length: info.length as usize, offset: info.mem_offset },
                );
                match (s.mmap)(w1.turn) {
                    Err(e) => (w2, q, Err(e)),
                    Ok(mapping) => if export {
                        let w3 = w2.then_asked(
                            Call::Expbuf { buf_type: q.buf_type, index: index as u32 },
                        );
                        match (s.expbuf)(w2.turn) {
                            Err(e) => (w3, q, Err(e)),
                            Ok(fd) => filled(
                                s,
                                w3,
                                q.with(Buffer { mapping, dmabuf: Some(fd), queued: false }),
                                index + 1,
                                granted,
                                export,
                            ),
                        }
                    } else {
                        filled(
                            s,
                            w2,
                            q.with(Buffer { mapping, dmabuf: None, queued: false }),
                            index + 1,
                            granted,
                            export,
                        )
                    },
                }
            },
        }
    }
}

impl QueueState {
    pub open spec fn new(buf_type: u32) -> QueueState {
        QueueState { buf_type, buffers: Seq::empty(), streaming: false }
    }

    pub open spec fn with(self, b: Buffer) -> QueueState {
        QueueState { buffers: self.buffers.push(b), ..self }
    }

    /// As many buffers as the driver grants.
    pub open spec fn allocated(self, s: Script, w: World, count: u32, export: bool) -> (
        World,
        QueueState,
        Result<(), OpsError>,
    ) {
        let w1 = w.then_asked(Call::Reqbufs { buf_type: self.buf_type, count });
        match (s.reqbufs)(w.turn) {
            Err(e) => (w1, self, Err(e)),
            Ok(granted) => filled(
                s,
                w1,
                QueueState { buffers: Seq::empty(), ..self },
                0,
                granted as nat,
                export,
            ),
        }
    }

    pub open spec fn started(self, s: Script, w: World) -> (
        World,
        QueueState,
        Result<(), OpsError>,
    ) {
        let w1 = w.then_asked(Call::Streamon { buf_type: self.buf_type });
        match (s.streamon)(w.turn) {
            Err(e) => (w1, self, Err(e)),
            Ok(_) => (w1, QueueState { streaming: true, ..self }, Ok(())),
        }
    }

    /// With every buffer back from the driver.
    pub open spec fn all_free(self) -> Seq<Buffer> {
        Seq::new(
            self.buffers.len(),
            |i: int| Buffer { queued: false, ..self.buffers[i] },
        )
    }

    pub open spec fn stopped(self, s: Script, w: World) -> (
        World,
        QueueState,
        Result<(), OpsError>,
    ) {
        let w1 = w.then_asked(Call::Streamoff { buf_type: self.buf_type });
        match (s.streamoff)(w.turn) {
            Err(e) => (w1, self, Err(e)),
            Ok(_) => (
                w1,
                QueueState { streaming: false, buffers: self.all_free(), ..self },
                Ok(()),
            ),
        }
    }

    /// The first buffer from `i` on that is not with the driver.
    pub open spec fn free_from(self, i: int) -> Option<usize>
        decreases self.buffers.len() - i,
    {
        if i >= self.buffers.len() {
            None
        } else if !self.buffers[i].queued {
            Some(i as usize)
        } else {
            self.free_from(i + 1)
        }
    }

    /// How many of the first `n` buffers are with the driver.
    pub open spec fn count_queued(self, n: int) -> nat
        decreases n,
    {
        if n <= 0 {
            0
        } else {
            self.count_queued(n - 1) + if self.buffers[n - 1].queued {
                1nat
            } else {
                0nat
            }
        }
    }

    /// How many buffers are with the driver.
    pub open spec fn flying(self) -> nat {
        self.count_queued(self.buffers.len() as int)
    }

    pub open spec fn marked(self, index: int, queued: bool) -> QueueState {
        QueueState {
            buffers: self.buffers.update(index, Buffer { queued, ..self.buffers[index] }),
            ..self
        }
    }

    /// A buffer handed to the driver.
    pub open spec fn queued(
        self,
        s: Script,
        w: World,
        index: usize,
        bytesused: u32,
        timestamp_us: u64,
    ) -> (World, QueueState, Result<(), QueueError>) {
        if index >= self.buffers.len() {
            (w, self, Err(QueueError::OutOfRange))
        } else if self.buffers[index as int].queued {
            (w, self, Err(QueueError::AlreadyQueued(index)))
        } else {
            let w1 = w.then_asked(
                Call::Qbuf {
                    buf_type: self.buf_type,
                    index: index as u32,
                    length: self.buffers[index as int].mapping.len as u32,
                    bytesused,
                    timestamp_us,
                },
            );
            match (s.qbuf)(w.turn) {
                Err(e) => (w1, self, Err(QueueError::Device(e))),
                Ok(_) => (w1, self.marked(index as int, true), Ok(())),
            }
        }
    }

    /// A buffer taken back from the driver, if one is ready.
    pub open spec fn dequeued(self, s: Script, w: World) -> (
        World,
        QueueState,
        Result<Dequeue, QueueError>,
    ) {
        let w1 = w.then_asked(Call::Dqbuf { buf_type: self.buf_type });
        match (s.dqbuf)(w.turn) {
            Err(e) => (w1, self, Err(QueueError::Device(e))),
            Ok(Dequeue::Buffer(d)) => if d.index < self.buffers.len() {
                (w1, self.marked(d.index as int, false), Ok(Dequeue::Buffer(d)))
            } else {
                (w1, self, Err(QueueError::UnknownBuffer(d.index)))
            },
            Ok(other) => (w1, self, Ok(other)),
        }
    }

    /// Stopped, if it was streaming, and with its buffers given back.
    pub open spec fn released(self, s: Script, w: World) -> (
        World,
        QueueState,
        Result<(), OpsError>,
    ) {
        let (w1, q1, r1) = if self.streaming {
            self.stopped(s, w)
        } else {
            (w, self, Ok(()))
        };
        match r1 {
            Err(e) => (w1, q1, Err(e)),
            Ok(_) => {
                let w2 = w1.then_asked(Call::Reqbufs { buf_type: q1.buf_type, count: 0 });
                let q2 = QueueState { buffers: Seq::empty(), ..q1 };
                match (s.reqbufs)(w1.turn) {
                    Err(e) => (w2, q2, Err(e)),
                    Ok(_) => (w2, q2, Ok(())),
                }
            },
        }
    }
}

// ---- the code ----

impl Queue {
    pub fn new(buf_type: u32) -> (q: Self)
        ensures
            q@ == QueueState::new(buf_type),
    {
        let q = Queue { buf_type, buffers: Vec::new(), streaming: false };
        assert(q@ =~= QueueState::new(buf_type));
        q
    }

    pub fn allocate<O: Ops>(&mut self, ops: &mut O, count: u32, export: bool) -> (r: Result<
        (),
        OpsError,
    >)
        ensures
            final(ops).script() == old(ops).script(),
            (final(ops).world(), final(self)@, r) == old(self)@.allocated(
                old(ops).script(),
                old(ops).world(),
                count,
                export,
            ),
    {
        let granted = match ops.reqbufs(self.buf_type, count) {
            Ok(n) => n,
            Err(e) => return Err(e),
        };
        self.buffers.clear();
        assert(self@.buffers =~= Seq::empty());
        let ghost s = ops.script();
        let ghost whole = filled(s, ops.world(), self@, 0, granted as nat, export);
        let mut index: u32 = 0;
        while index < granted
            invariant
                index <= granted,
                s == ops.script(),
                s == old(ops).script(),
                whole == old(self)@.allocated(old(ops).script(), old(ops).world(), count, export),
                whole == filled(s, ops.world(), self@, index as nat, granted as nat, export),
            decreases granted - index,
        {
            let info = match ops.querybuf(self.buf_type, index) {
                Ok(i) => i,
                Err(e) => return Err(e),
            };
            let mapping = match ops.mmap(info.length as usize, info.mem_offset) {
                Ok(m) => m,
                Err(e) => return Err(e),
            };
            let dmabuf: Option<i32> = if export {
                match ops.expbuf(self.buf_type, index) {
                    Ok(fd) => Some(fd),
                    Err(e) => return Err(e),
                }
            } else {
                None
            };
            self.buffers.push(Buffer { mapping, dmabuf, queued: false });
            index = index + 1;
        }
        Ok(())
    }

    pub fn is_streaming(&self) -> (r: bool)
        ensures
            r == self@.streaming,
    {
        self.streaming
    }

    pub fn stream_on<O: Ops>(&mut self, ops: &mut O) -> (r: Result<(), OpsError>)
        ensures
            final(ops).script() == old(ops).script(),
            (final(ops).world(), final(self)@, r) == old(self)@.started(
                old(ops).script(),
                old(ops).world(),
            ),
    {
        match ops.streamon(self.buf_type) {
            Ok(_) => {},
            Err(e) => return Err(e),
        }
        self.streaming = true;
        Ok(())
    }

    /// STREAMOFF returns every queued buffer to us without a DQBUF.
    pub fn stream_off<O: Ops>(&mut self, ops: &mut O) -> (r: Result<(), OpsError>)
        ensures
            final(ops).script() == old(ops).script(),
            (final(ops).world(), final(self)@, r) == old(self)@.stopped(
                old(ops).script(),
                old(ops).world(),
            ),
    {
        match ops.streamoff(self.buf_type) {
            Ok(_) => {},
            Err(e) => return Err(e),
        }
        self.streaming = false;
        let n: usize = self.buffers.len();
        let ghost all = old(self)@.all_free();
        let mut i: usize = 0;
        while i < n
            invariant
                i <= n,
                n == self.buffers@.len(),
                n == old(self)@.buffers.len(),
                all == old(self)@.all_free(),
                !self.streaming,
                self.buf_type == old(self)@.buf_type,
                forall|j: int| 0 <= j < i ==> self.buffers@[j] == all[j],
                forall|j: int| i <= j < n ==> self.buffers@[j] == old(self)@.buffers[j],
            decreases n - i,
        {
            let b = self.buffers[i];
            self.buffers[i] = Buffer { queued: false, ..b };
            i = i + 1;
        }
        assert(self.buffers@ =~= all);
        Ok(())
    }

    /// How many buffers there are.
    pub fn len(&self) -> (n: usize)
        ensures
            n == self@.buffers.len(),
    {
        self.buffers.len()
    }

    /// The buffer of an index.
    pub fn get(&self, i: usize) -> (b: Buffer)
        requires
            i < self@.buffers.len(),
        ensures
            b == self@.buffers[i as int],
    {
        self.buffers[i]
    }

    pub fn free_slot(&self) -> (r: Option<usize>)
        ensures
            r == self@.free_from(0),
            r matches Some(i) ==> i < self@.buffers.len() && !self@.buffers[i as int].queued,
    {
        let mut i: usize = 0;
        while i < self.buffers.len()
            invariant
                i <= self.buffers@.len(),
                self@.free_from(0) == self@.free_from(i as int),
            decreases self.buffers@.len() - i,
        {
            if !self.buffers[i].queued {
                return Some(i);
            }
            i = i + 1;
        }
        None
    }

    pub fn in_flight(&self) -> (r: usize)
        ensures
            r == self@.flying(),
    {
        let mut n: usize = 0;
        let mut i: usize = 0;
        while i < self.buffers.len()
            invariant
                i <= self.buffers@.len(),
                n <= i,
                n == self@.count_queued(i as int),
            decreases self.buffers@.len() - i,
        {
            if self.buffers[i].queued {
                n = n + 1;
            }
            i = i + 1;
        }
        n
    }

    pub fn queue<O: Ops>(
        &mut self,
        ops: &mut O,
        index: usize,
        bytesused: u32,
        timestamp_us: u64,
    ) -> (r: Result<(), QueueError>)
        ensures
            final(ops).script() == old(ops).script(),
            (final(ops).world(), final(self)@, r) == old(self)@.queued(
                old(ops).script(),
                old(ops).world(),
                index,
                bytesused,
                timestamp_us,
            ),
    {
        if index >= self.buffers.len() {
            return Err(QueueError::OutOfRange);
        }
        let b = self.buffers[index];
        if b.queued {
            return Err(QueueError::AlreadyQueued(index));
        }
        match ops.qbuf(
            self.buf_type,
            index as u32,
            b.mapping.len as u32,
            bytesused,
            timestamp_us,
        ) {
            Ok(_) => {},
            Err(e) => return Err(QueueError::Device(e)),
        }
        self.buffers[index] = Buffer { queued: true, ..b };
        Ok(())
    }

    pub fn dequeue<O: Ops>(&mut self, ops: &mut O) -> (r: Result<Dequeue, QueueError>)
        ensures
            final(ops).script() == old(ops).script(),
            (final(ops).world(), final(self)@, r) == old(self)@.dequeued(
                old(ops).script(),
                old(ops).world(),
            ),
    {
        match ops.dqbuf(self.buf_type) {
            Err(e) => Err(QueueError::Device(e)),
            Ok(Dequeue::Buffer(d)) => {
                let i: usize = d.index as usize;
                if i >= self.buffers.len() {
                    return Err(QueueError::UnknownBuffer(d.index));
                }
                let b = self.buffers[i];
                self.buffers[i] = Buffer { queued: false, ..b };
                Ok(Dequeue::Buffer(d))
            },
            Ok(other) => Ok(other),
        }
    }

    pub fn release<O: Ops>(&mut self, ops: &mut O) -> (r: Result<(), OpsError>)
        ensures
            final(ops).script() == old(ops).script(),
            (final(ops).world(), final(self)@, r) == old(self)@.released(
                old(ops).script(),
                old(ops).world(),
            ),
    {
        if self.streaming {
            match self.stream_off(ops) {
                Ok(_) => {},
                Err(e) => return Err(e),
            }
        }
        self.buffers.clear();
        assert(self.buffers@ =~= Seq::empty());
        match ops.reqbufs(self.buf_type, 0) {
            Ok(_) => Ok(()),
            Err(e) => Err(e),
        }
    }
}

} // verus!
