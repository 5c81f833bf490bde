//! RTP parsing and a small reordering window.
//!
//! Wi-Fi Display carries MPEG-TS in RTP payload type 33. The network can
//! deliver packets out of order, so a short window is held before they are
//! handed on; what never arrives inside the window is counted as lost, which
//! is what drives the sink's keyframe requests.
use vstd::prelude::*;
use crate::wire::{be16_at, be32_at, copy_bytes, part, read_be16, read_be32};

verus! {

#[derive(Debug, Clone, PartialEq, Eq)]
pub struct Packet {
    pub sequence: u16,
    pub timestamp: u32,
    pub payload_type: u8,
    pub payload: Vec<u8>,
}

/// What a `Packet` holds.
pub struct PacketView {
    pub sequence: u16,
    pub timestamp: u32,
    pub payload_type: u8,
    pub payload: Seq<u8>,
}

impl View for Packet {
    type V = PacketView;

    open spec fn view(&self) -> PacketView {
        PacketView {
            sequence: self.sequence,
            timestamp: self.timestamp,
            payload_type: self.payload_type,
            payload: self.payload@,
        }
    }
}

/// What a run of packets holds.
pub open spec fn packets(v: Seq<Packet>) -> Seq<PacketView> {
    Seq::new(v.len(), |i: int| v[i]@)
}

// ---- parsing ----

/// Where the payload of an RTP datagram begins: after the fixed header, the
/// contributing sources, and the header extension if there is one.
pub open spec fn payload_start(b: Seq<u8>) -> Option<int> {
    if b.len() < 12 || b[0] / 64 != 2 {
        None
    } else {
        let off = 12 + b[0] % 16 * 4;
        if b[0] / 16 % 2 == 0 {
            if b.len() < off {
                None
            } else {
                Some(off)
            }
        } else if b.len() < off + 4 || b.len() < off + 4 + be16_at(b, off + 2) * 4 {
            None
        } else {
            Some(off + 4 + be16_at(b, off + 2) * 4)
        }
    }
}

/// The packet in an RTP datagram.
pub open spec fn parsed(b: Seq<u8>) -> Option<PacketView> {
    match payload_start(b) {
        None => None,
        Some(off) => Some(
            PacketView {
                sequence: be16_at(b, 2) as u16,
                timestamp: be32_at(b, 4) as u32,
                payload_type: (b[1] % 128) as u8,
                payload: b.subrange(off, b.len() as int),
            },
        ),
    }
}

pub fn parse(buf: &[u8]) -> (r: Option<Packet>)
    ensures
        r is Some <==> parsed(buf@) is Some,
        r matches Some(p) ==> parsed(buf@) == Some(p@),
{
    if buf.len() < 12 || buf[0] / 64 != 2 {
        return None;
    }
    let csrc: usize = (buf[0] % 16) as usize;
    let extension = buf[0] / 16 % 2 == 1;
    let mut off: usize = 12 + csrc * 4;
    if extension {
        if buf.len() < off + 4 {
            return None;
        }
        let words: usize = read_be16(buf, off + 2) as usize;
        off = off + 4 + words * 4;
    }
    if buf.len() < off {
        return None;
    }
    Some(
        Packet {
            sequence: read_be16(buf, 2),
            timestamp: read_be32(buf, 4),
            payload_type: buf[1] % 128,
            payload: copy_bytes(part(buf, off, buf.len())),
        },
    )
}

// ---- reordering ----

/// How far `a` is ahead of `b` in sequence-number space, going round.
pub open spec fn ahead(a: u16, b: u16) -> int {
    (a - b) % 65536
}

/// Whether `a` is at or after `b` in sequence-number space.
pub open spec fn at_or_after(a: u16, b: u16) -> bool {
    ahead(a, b) < 0x8000
}

/// The sequence number after `a`.
pub open spec fn next_seq(a: u16) -> u16 {
    ((a + 1) % 65536) as u16
}

/// True when `a` is at or after `b` in sequence-number space, tolerating wrap.
fn seq_ge(a: u16, b: u16) -> (r: bool)
    ensures
        r == at_or_after(a, b),
{
    a.wrapping_sub(b) < 0x8000
}

/// A reordering window.
#[verifier::ext_equal]
pub struct ReorderState {
    pub window: nat,
    pub held: Seq<PacketView>,
    pub next: Option<u16>,
    pub lost: u64,
}

/// Whether a sequence number is among the packets held.
pub open spec fn holds(held: Seq<PacketView>, sequence: u16) -> bool {
    exists|i: int| 0 <= i < held.len() && (#[trigger] held[i]).sequence == sequence
}

impl ReorderState {
    /// Nothing heard yet.
    pub open spec fn init(window: nat) -> ReorderState {
        ReorderState { window, held: Seq::empty(), next: None, lost: 0 }
    }

    /// A packet is taken in unless it is a duplicate or comes too late.
    pub open spec fn accepts(self, sequence: u16) -> bool {
        &&& self.next matches Some(n) ==> at_or_after(sequence, n)
        &&& !holds(self.held, sequence)
    }
}

/// The first position from `i` on whose packet is not before `sequence`.
pub open spec fn slot(held: Seq<PacketView>, sequence: u16, i: int) -> int
    decreases held.len() - i,
{
    if i >= held.len() {
        held.len() as int
    } else if at_or_after(held[i].sequence, sequence) {
        i
    } else {
        slot(held, sequence, i + 1)
    }
}

pub proof fn lemma_slot(held: Seq<PacketView>, sequence: u16, i: int)
    requires
        0 <= i <= held.len(),
    ensures
        i <= slot(held, sequence, i) <= held.len(),
    decreases held.len() - i,
{
    if i < held.len() && !at_or_after(held[i].sequence, sequence) {
        lemma_slot(held, sequence, i + 1);
    }
}

/// The packets held, with one more in its place.
pub open spec fn inserted(held: Seq<PacketView>, p: PacketView) -> Seq<PacketView> {
    held.insert(slot(held, p.sequence, 0), p)
}

/// What is handed on, and what stays: the head goes if it is the one that is
/// due, or if more are held than the window allows; then what is missing
/// before it is given up as lost.
pub open spec fn drain(s: ReorderState) -> (ReorderState, Seq<PacketView>)
    decreases s.held.len(),
{
    if s.held.len() == 0 {
        (s, Seq::empty())
    } else {
        let head = s.held[0];
        let due = s.next == None::<u16> || s.next == Some(head.sequence);
        if !due && s.held.len() <= s.window {
            (s, Seq::empty())
        } else {
            let missing = match s.next {
                Some(n) if n != head.sequence => ahead(head.sequence, n),
                _ => 0,
            };
            let t = ReorderState {
                window: s.window,
                held: s.held.drop_first(),
                next: Some(next_seq(head.sequence)),
                lost: vstd::wrapping::u64_specs::wrapping_add(s.lost, missing as u64),
            };
            let (u, out) = drain(t);
            (u, seq![head] + out)
        }
    }
}

/// What one packet does, and what is handed on.
pub open spec fn pushed(s: ReorderState, p: PacketView) -> (ReorderState, Seq<PacketView>) {
    if s.accepts(p.sequence) {
        drain(ReorderState { held: inserted(s.held, p), ..s })
    } else {
        (s, Seq::empty())
    }
}

/// What the end of the stream does: everything held is handed on.
pub open spec fn flushed(s: ReorderState) -> (ReorderState, Seq<PacketView>) {
    (
        ReorderState {
            held: Seq::empty(),
            next: if s.held.len() > 0 {
                Some(next_seq(s.held.last().sequence))
            } else {
                s.next
            },
            ..s
        },
        s.held,
    )
}

pub struct Reorder {
    window: usize,
    held: Vec<Packet>,
    next: Option<u16>,
    lost: u64,
}

impl View for Reorder {
    type V = ReorderState;

    closed spec fn view(&self) -> ReorderState {
        ReorderState {
            window: self.window as nat,
            held: packets(self.held@),
            next: self.next,
            lost: self.lost,
        }
    }
}

impl Reorder {
    pub fn new(window: usize) -> (r: Self)
        ensures
            r@ == ReorderState::init(window as nat),
    {
        let r = Reorder { window, held: Vec::new(), next: None, lost: 0 };
        assert(packets(r.held@) =~= Seq::empty());
        r
    }

    pub fn lost(&self) -> (n: u64)
        ensures
            n == self@.lost,
    {
        self.lost
    }

    fn holds(&self, sequence: u16) -> (r: bool)
        ensures
            r == holds(self@.held, sequence),
    {
        let mut i: usize = 0;
        while i < self.held.len()
            invariant
                i <= self.held@.len(),
                forall|j: int| 0 <= j < i ==> (#[trigger] self.held@[j]).sequence != sequence,
            decreases self.held@.len() - i,
        {
            if self.held[i].sequence == sequence {
                assert(self@.held[i as int].sequence == sequence);
                return true;
            }
            i = i + 1;
        }
        assert forall|j: int| 0 <= j < self@.held.len() implies (#[trigger] self@.held[j]).sequence
            != sequence by {
            assert(self.held@[j].sequence != sequence);
        }
        false
    }

    fn slot(&self, sequence: u16) -> (i: usize)
        ensures
            i == slot(self@.held, sequence, 0),
            i <= self.held@.len(),
    {
        let mut i: usize = 0;
        while i < self.held.len()
            invariant
                i <= self.held@.len(),
                slot(self@.held, sequence, 0) == slot(self@.held, sequence, i as int),
            decreases self.held@.len() - i,
        {
            if seq_ge(self.held[i].sequence, sequence) {
                return i;
            }
            i = i + 1;
        }
        i
    }

    /// Takes in one packet; returns those whose turn has come.
    pub fn push(&mut self, p: Packet) -> (out: Vec<Packet>)
        ensures
            final(self)@ == pushed(old(self)@, p@).0,
            packets(out@) == pushed(old(self)@, p@).1,
    {
        let seq: u16 = p.sequence;
        let mut out: Vec<Packet> = Vec::new();
        let late = match self.next {
            Some(next) => !seq_ge(seq, next),
            None => false,
        };
        if late || self.holds(seq) {
            assert(packets(out@) =~= Seq::empty());
            return out;
        }
        let pos: usize = self.slot(seq);
        let ghost taken = p@;
        self.held.insert(pos, p);
        assert(packets(self.held@) =~= inserted(old(self)@.held, taken));
        let ghost start = self@;
        assert(pushed(old(self)@, taken) == drain(start));
        assert(packets(out@) + drain(self@).1 =~= drain(start).1);
        while self.held.len() > 0
            invariant
                taken == p@,
                pushed(old(self)@, taken) == drain(start),
                drain(self@).0 == drain(start).0,
                packets(out@) + drain(self@).1 == drain(start).1,
            decreases self.held@.len(),
        {
            let head_seq: u16 = self.held[0].sequence;
            assert(self@.held[0].sequence == head_seq);
            let mut missing: u64 = 0;
            if let Some(next) = self.next {
                if head_seq != next {
                    if self.held.len() <= self.window {
                        // A gap, and room to wait for what is missing.
                        assert(packets(out@) =~= drain(start).1);
                        return out;
                    }
                    // The window is full: give up on what is missing, and
                    // count the packets we will never see.
                    missing = head_seq.wrapping_sub(next) as u64;
                }
            }
            let ghost before = self@;
            let ghost given = packets(out@);
            self.lost = self.lost.wrapping_add(missing);
            let head = self.held.remove(0);
            self.next = Some(head_seq.wrapping_add(1));
            assert(packets(self.held@) =~= before.held.drop_first());
            let ghost head_view = head@;
            out.push(head);
            assert(packets(out@) =~= given.push(head_view));
            assert(drain(before).1 == seq![head_view] + drain(self@).1);
            assert(packets(out@) + drain(self@).1 =~= given + drain(before).1);
        }
        assert(packets(out@) =~= drain(start).1);
        out
    }

    /// Releases everything still held, in order, at end of stream.
    pub fn flush(&mut self) -> (out: Vec<Packet>)
        ensures
            final(self)@ == flushed(old(self)@).0,
            packets(out@) == flushed(old(self)@).1,
    {
        let mut out: Vec<Packet> = Vec::new();
        std::mem::swap(&mut out, &mut self.held);
        if out.len() > 0 {
            let last: u16 = out[out.len() - 1].sequence;
            self.next = Some(last.wrapping_add(1));
        }
        assert(packets(self.held@) =~= Seq::empty());
        out
    }
}

// ---- laws ----

/// A packet that is due, with nothing held, passes straight through.
pub proof fn law_in_order_passes_through(s: ReorderState, p: PacketView)
    requires
        s.held.len() == 0,
        s.next == None::<u16> || s.next == Some(p.sequence),
    ensures
        pushed(s, p).1 == seq![p],
        pushed(s, p).0 == (ReorderState { next: Some(next_seq(p.sequence)), ..s }),
{
    reveal_with_fuel(drain, 2);
    let t = ReorderState { held: inserted(s.held, p), ..s };
    assert(inserted(s.held, p) =~= seq![p]);
    assert(t.held.drop_first() =~= Seq::empty());
    assert(s.held =~= Seq::empty());
    assert(pushed(s, p).1 =~= seq![p]);
    assert(vstd::wrapping::u64_specs::wrapping_add(s.lost, 0) == s.lost);
}

/// What is handed on, followed by what is still held, is what was held.
pub proof fn law_drain_keeps_every_packet(s: ReorderState)
    ensures
        drain(s).1 + drain(s).0.held == s.held,
    decreases s.held.len(),
{
    if s.held.len() > 0 {
        let head = s.held[0];
        let due = s.next == None::<u16> || s.next == Some(head.sequence);
        if due || s.held.len() > s.window {
            let missing = match s.next {
                Some(n) if n != head.sequence => ahead(head.sequence, n),
                _ => 0,
            };
            let t = ReorderState {
                window: s.window,
                held: s.held.drop_first(),
                next: Some(next_seq(head.sequence)),
                lost: vstd::wrapping::u64_specs::wrapping_add(s.lost, missing as u64),
            };
            law_drain_keeps_every_packet(t);
            assert(drain(s).1 + drain(s).0.held =~= seq![head] + (drain(t).1 + drain(t).0.held));
        }
    }
    assert(drain(s).1 + drain(s).0.held =~= s.held);
}

/// No packet that is taken in is dropped or doubled: what comes out followed
/// by what is held is what was held with the packet in its place.
pub proof fn law_push_keeps_every_packet(s: ReorderState, p: PacketView)
    requires
        s.accepts(p.sequence),
    ensures
        pushed(s, p).1 + pushed(s, p).0.held == inserted(s.held, p),
{
    law_drain_keeps_every_packet(ReorderState { held: inserted(s.held, p), ..s });
}

/// A duplicate of a packet that is held, or one that comes after its turn,
/// changes nothing and brings nothing out.
pub proof fn law_duplicate_is_dropped(s: ReorderState, p: PacketView)
    requires
        holds(s.held, p.sequence) || (s.next matches Some(n) && !at_or_after(p.sequence, n)),
    ensures
        pushed(s, p) == (s, Seq::<PacketView>::empty()),
{
}

/// After a packet is taken in, no more are held than the window allows.
pub proof fn law_held_stays_within_window(s: ReorderState)
    ensures
        drain(s).0.held.len() <= s.window,
        drain(s).0.window == s.window,
    decreases s.held.len(),
{
    if s.held.len() > 0 {
        let head = s.held[0];
        let due = s.next == None::<u16> || s.next == Some(head.sequence);
        if due || s.held.len() > s.window {
            let missing = match s.next {
                Some(n) if n != head.sequence => ahead(head.sequence, n),
                _ => 0,
            };
            law_held_stays_within_window(
                ReorderState {
                    window: s.window,
                    held: s.held.drop_first(),
                    next: Some(next_seq(head.sequence)),
                    lost: vstd::wrapping::u64_specs::wrapping_add(s.lost, missing as u64),
                },
            );
        }
    }
}

/// Nothing is counted as lost while the head of the window is the packet that
/// is due or there is room to wait.
pub proof fn law_no_loss_while_there_is_room(s: ReorderState, p: PacketView)
    requires
        s.held.len() < s.window,
    ensures
        pushed(s, p).0.lost == s.lost,
{
    if s.accepts(p.sequence) {
        lemma_slot(s.held, p.sequence, 0);
        lemma_no_loss(ReorderState { held: inserted(s.held, p), ..s });
    }
}

proof fn lemma_no_loss(s: ReorderState)
    requires
        s.held.len() <= s.window,
    ensures
        drain(s).0.lost == s.lost,
    decreases s.held.len(),
{
    if s.held.len() > 0 {
        let head = s.held[0];
        if s.next == None::<u16> || s.next == Some(head.sequence) {
            lemma_no_loss(
                ReorderState {
                    window: s.window,
                    held: s.held.drop_first(),
                    next: Some(next_seq(head.sequence)),
                    lost: vstd::wrapping::u64_specs::wrapping_add(s.lost, 0),
                },
            );
        }
    }
}

} // verus!
