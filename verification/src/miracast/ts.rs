//! MPEG-TS demultiplexing: H.264 access units and LPCM audio out of a Wi-Fi
//! Display stream.
//!
//! Driven by whole 188-byte packets that the caller supplies. A program table
//! is read from the packet that starts it; one that is split over several
//! packets is ignored rather than misread.
use std::collections::HashMap;
use vstd::prelude::*;
use crate::wire::{part, push_bytes};

verus! {

broadcast use vstd::std_specs::hash::group_hash_axioms;

pub const PACKET_LEN: usize = 188;

pub const SYNC: u8 = 0x47;

/// H.264 video in a program map.
pub const STREAM_TYPE_H264: u8 = 0x1b;

/// LPCM audio in a program map.
pub const STREAM_TYPE_LPCM: u8 = 0x83;

#[derive(Debug, Clone, PartialEq, Eq)]
pub enum Unit {
    Video { data: Vec<u8>, pts_us: Option<u64> },
    Audio { data: Vec<u8>, pts_us: Option<u64> },
}

/// What a `Unit` holds.
pub enum UnitView {
    Video { data: Seq<u8>, pts_us: Option<u64> },
    Audio { data: Seq<u8>, pts_us: Option<u64> },
}

impl View for Unit {
    type V = UnitView;

    open spec fn view(&self) -> UnitView {
        match self {
            Unit::Video { data, pts_us } => UnitView::Video { data: data@, pts_us: *pts_us },
            Unit::Audio { data, pts_us } => UnitView::Audio { data: data@, pts_us: *pts_us },
        }
    }
}

/// What a run of units holds.
pub open spec fn units(v: Seq<Unit>) -> Seq<UnitView> {
    Seq::new(v.len(), |i: int| v[i]@)
}

#[derive(Debug, Clone, Copy, PartialEq, Eq, Structural)]
pub struct DemuxStats {
    pub continuity_errors: u64,
    pub video_pid: Option<u16>,
    pub audio_pid: Option<u16>,
}

impl Default for DemuxStats {
    fn default() -> (s: Self)
        ensures
            s == (DemuxStats { continuity_errors: 0, video_pid: None, audio_pid: None }),
    {
        DemuxStats { continuity_errors: 0, video_pid: None, audio_pid: None }
    }
}

/// One access unit under assembly.
struct Assembly {
    data: Vec<u8>,
    pts_us: Option<u64>,
    damaged: bool,
    open: bool,
    /// The payload length that the PES header declared, when it declared one.
    /// The tail of a fixed-size transport packet is padding, and without this
    /// the padding would end up in the unit. Video is usually unbounded and
    /// ends where the next PES starts.
    expected: Option<usize>,
}

pub struct Demux {
    pmt_pid: Option<u16>,
    video_pid: Option<u16>,
    audio_pid: Option<u16>,
    video: Assembly,
    audio: Assembly,
    last_cc: HashMap<u16, u8>,
    continuity_errors: u64,
}

// ---- the model ----

/// An access unit under assembly.
#[verifier::ext_equal]
pub struct AssemblyState {
    pub data: Seq<u8>,
    pub pts_us: Option<u64>,
    pub damaged: bool,
    pub open: bool,
    pub expected: Option<nat>,
}

/// What a demultiplexer knows.
#[verifier::ext_equal]
pub struct DemuxState {
    pub pmt_pid: Option<u16>,
    pub video_pid: Option<u16>,
    pub audio_pid: Option<u16>,
    pub video: AssemblyState,
    pub audio: AssemblyState,
    pub last_cc: Map<u16, u8>,
    pub continuity_errors: u64,
}

/// An access unit with its presentation time.
pub struct RawUnit {
    pub data: Seq<u8>,
    pub pts_us: Option<u64>,
}

/// A PES header and what follows it.
pub struct PesState {
    pub pts_us: Option<u64>,
    pub payload_len: Option<nat>,
    pub body: Seq<u8>,
}

impl AssemblyState {
    pub open spec fn empty() -> AssemblyState {
        AssemblyState {
            data: Seq::empty(),
            pts_us: None,
            damaged: false,
            open: false,
            expected: None,
        }
    }

    /// With more payload, up to the declared length if there is one.
    pub open spec fn append(self, bytes: Seq<u8>) -> AssemblyState {
        let n = match self.expected {
            Some(want) => {
                let room = if want > self.data.len() {
                    want - self.data.len()
                } else {
                    0
                };
                if room < bytes.len() {
                    room
                } else {
                    bytes.len() as int
                }
            },
            None => bytes.len() as int,
        };
        AssemblyState { data: self.data + bytes.take(n), ..self }
    }

    /// A unit of declared length that has all of its bytes.
    pub open spec fn complete(self) -> bool {
        self.expected matches Some(want) && self.data.len() >= want
    }

    pub open spec fn unit(self) -> RawUnit {
        RawUnit { data: self.data, pts_us: self.pts_us }
    }
}

impl DemuxState {
    /// Knowing nothing yet.
    pub open spec fn init() -> DemuxState {
        DemuxState {
            pmt_pid: None,
            video_pid: None,
            audio_pid: None,
            video: AssemblyState::empty(),
            audio: AssemblyState::empty(),
            last_cc: Map::empty(),
            continuity_errors: 0,
        }
    }
}

/// The thirteen-bit identifier in two bytes, whose top three bits mean
/// something else.
pub open spec fn pid_at(s: Seq<u8>, i: int) -> u16 {
    (s[i] % 32 * 256 + s[i + 1]) as u16
}

/// The twelve-bit length in two bytes, whose top four bits mean something
/// else.
pub open spec fn len12_at(s: Seq<u8>, i: int) -> int {
    s[i] % 16 * 256 + s[i + 1]
}

/// Where a packet's payload begins, if it is a packet that carries one.
pub open spec fn payload_start(p: Seq<u8>) -> Option<int> {
    if p.len() != PACKET_LEN || p[0] != SYNC || p[3] / 16 % 2 == 0 {
        None
    } else if p[3] / 32 % 2 == 0 {
        Some(4)
    } else if 5 + p[4] >= PACKET_LEN {
        None
    } else {
        Some(5 + p[4])
    }
}

/// Whether a packet begins a new section or PES.
pub open spec fn is_start(p: Seq<u8>) -> bool {
    p[1] / 64 % 2 == 1
}

/// The continuity counter of a packet.
pub open spec fn counter(p: Seq<u8>) -> u8 {
    (p[3] % 16) as u8
}

/// The 33-bit 90 kHz time in five bytes with their marker bits.
pub open spec fn ticks_at(s: Seq<u8>, i: int) -> int {
    s[i] / 2 % 8 * 1073741824 + s[i + 1] * 4194304 + s[i + 2] / 2 % 128 * 32768 + s[i + 3] * 128
        + s[i + 4] / 2
}

/// A PES header, or `None` where there is no whole one.
pub open spec fn pes(p: Seq<u8>) -> Option<PesState> {
    if p.len() < 9 || p[0] != 0 || p[1] != 0 || p[2] != 1 || p.len() < 9 + p[8] {
        None
    } else {
        let declared = p[4] * 256 + p[5];
        Some(
            PesState {
                pts_us: if p[7] / 128 == 1 && p[8] >= 5 {
                    Some((ticks_at(p, 9) * 1_000_000 / 90_000) as u64)
                } else {
                    None
                },
                // The declared length counts the header; zero means unbounded.
                payload_len: if declared != 0 && declared >= 3 + p[8] {
                    Some((declared - 3 - p[8]) as nat)
                } else {
                    None
                },
                body: p.subrange(9 + p[8], p.len() as int),
            },
        )
    }
}

/// What a payload does to the unit under assembly, and the units it ends.
///
/// A start ends what came before it, if that is intact. A unit of declared
/// length ends when its bytes are there.
pub open spec fn media(a: AssemblyState, start: bool, payload: Seq<u8>) -> (
    AssemblyState,
    Seq<RawUnit>,
) {
    let flushed: Seq<RawUnit> = if start && a.open && !a.damaged && a.data.len() > 0 {
        seq![a.unit()]
    } else {
        Seq::empty()
    };
    let b = if start {
        match pes(payload) {
            Some(h) => AssemblyState {
                data: Seq::empty(),
                pts_us: h.pts_us,
                damaged: false,
                open: true,
                expected: h.payload_len,
            }.append(h.body),
            None => AssemblyState {
                data: Seq::empty(),
                pts_us: a.pts_us,
                damaged: true,
                open: false,
                expected: None,
            },
        }
    } else if a.open {
        a.append(payload)
    } else {
        a
    };
    if b.open && !b.damaged && b.complete() {
        (
            AssemblyState { data: Seq::empty(), open: false, expected: None, ..b },
            flushed.push(b.unit()),
        )
    } else {
        (b, flushed)
    }
}

/// The section that a payload starts, after its pointer field.
pub open spec fn section(payload: Seq<u8>, table_id: u8) -> Option<Seq<u8>> {
    if payload.len() == 0 || 1 + payload[0] > payload.len() {
        None
    } else {
        let s = payload.subrange(1 + payload[0], payload.len() as int);
        if s.len() < 12 || s[0] != table_id {
            None
        } else {
            Some(s)
        }
    }
}

/// The program map's identifier, after a program association section.
pub open spec fn learn_pat(d: DemuxState, start: bool, payload: Seq<u8>) -> DemuxState {
    match section(payload, 0) {
        Some(s) if start && pid_at(s, 10) != 0 => DemuxState {
            pmt_pid: Some(pid_at(s, 10)),
            ..d
        },
        _ => d,
    }
}

/// The video and audio identifiers, after the stream entries of a program map
/// from `i` up to `end`.
pub open spec fn streams(
    s: Seq<u8>,
    i: int,
    end: int,
    video: Option<u16>,
    audio: Option<u16>,
) -> (Option<u16>, Option<u16>)
    decreases
            if end > i {
                end - i
            } else {
                0
            },
{
    if i + 5 > end {
        (video, audio)
    } else {
        let pid = pid_at(s, i + 1);
        streams(
            s,
            i + 5 + len12_at(s, i + 3),
            end,
            if s[i] == STREAM_TYPE_H264 {
                Some(pid)
            } else {
                video
            },
            if s[i] == STREAM_TYPE_LPCM {
                Some(pid)
            } else {
                audio
            },
        )
    }
}

/// What a program map section teaches.
pub open spec fn learn_pmt(d: DemuxState, start: bool, payload: Seq<u8>) -> DemuxState {
    match section(payload, 2) {
        Some(s) if start && len12_at(s, 1) + 3 >= 16 => {
            let section_len = len12_at(s, 1) + 3;
            // The last four bytes of a section are its checksum.
            let end = if section_len - 4 < s.len() {
                section_len - 4
            } else {
                s.len() as int
            };
            let (video_pid, audio_pid) = streams(
                s,
                12 + len12_at(s, 10),
                end,
                d.video_pid,
                d.audio_pid,
            );
            DemuxState { video_pid, audio_pid, ..d }
        },
        _ => d,
    }
}

/// What a packet's continuity counter says: a jump is a lost packet, and it
/// damages the unit that was under assembly on that identifier.
pub open spec fn note_counter(d: DemuxState, pid: u16, cc: u8) -> DemuxState {
    let broken = d.last_cc.contains_key(pid) && cc != (d.last_cc[pid] + 1) % 16;
    let last_cc = d.last_cc.insert(pid, cc);
    if !broken {
        DemuxState { last_cc, ..d }
    } else {
        let continuity_errors = vstd::wrapping::u64_specs::wrapping_add(d.continuity_errors, 1);
        if d.video_pid == Some(pid) {
            DemuxState {
                last_cc,
                continuity_errors,
                video: AssemblyState { damaged: true, ..d.video },
                ..d
            }
        } else if d.audio_pid == Some(pid) {
            DemuxState {
                last_cc,
                continuity_errors,
                audio: AssemblyState { damaged: true, ..d.audio },
                ..d
            }
        } else {
            DemuxState { last_cc, continuity_errors, ..d }
        }
    }
}

pub open spec fn as_video(v: Seq<RawUnit>) -> Seq<UnitView> {
    Seq::new(v.len(), |i: int| UnitView::Video { data: v[i].data, pts_us: v[i].pts_us })
}

pub open spec fn as_audio(v: Seq<RawUnit>) -> Seq<UnitView> {
    Seq::new(v.len(), |i: int| UnitView::Audio { data: v[i].data, pts_us: v[i].pts_us })
}

/// What one packet does, and the units that it ends.
pub open spec fn step(d: DemuxState, p: Seq<u8>) -> (DemuxState, Seq<UnitView>) {
    match payload_start(p) {
        None => (d, Seq::empty()),
        Some(off) => {
            let pid = pid_at(p, 1);
            let payload = p.subrange(off, p.len() as int);
            let e = note_counter(d, pid, counter(p));
            if pid == 0 {
                (learn_pat(e, is_start(p), payload), Seq::empty())
            } else if e.pmt_pid == Some(pid) {
                (learn_pmt(e, is_start(p), payload), Seq::empty())
            } else if e.video_pid == Some(pid) {
                let (video, out) = media(e.video, is_start(p), payload);
                (DemuxState { video, ..e }, as_video(out))
            } else if e.audio_pid == Some(pid) {
                let (audio, out) = media(e.audio, is_start(p), payload);
                (DemuxState { audio, ..e }, as_audio(out))
            } else {
                (e, Seq::empty())
            }
        },
    }
}

/// What a run of transport packets does, and the units that come out.
pub open spec fn feed(d: DemuxState, bytes: Seq<u8>) -> (DemuxState, Seq<UnitView>)
    decreases bytes.len(),
{
    if bytes.len() < PACKET_LEN {
        (d, Seq::empty())
    } else {
        let (d1, out) = step(d, bytes.take(PACKET_LEN as int));
        let (d2, rest) = feed(d1, bytes.skip(PACKET_LEN as int));
        (d2, out + rest)
    }
}

// ---- the code ----

impl Assembly {
    spec fn state(self) -> AssemblyState {
        AssemblyState {
            data: self.data@,
            pts_us: self.pts_us,
            damaged: self.damaged,
            open: self.open,
            expected: match self.expected {
                Some(n) => Some(n as nat),
                None => None,
            },
        }
    }

    fn new() -> (a: Assembly)
        ensures
            a.state() == AssemblyState::empty(),
    {
        Assembly { data: Vec::new(), pts_us: None, damaged: false, open: false, expected: None }
    }

    /// Appends payload, stopping at the declared length if there is one.
    fn append(&mut self, bytes: &[u8])
        ensures
            final(self).state() == old(self).state().append(bytes@),
    {
        let n: usize = match self.expected {
            Some(want) => {
                let room = want.saturating_sub(self.data.len());
                if room < bytes.len() {
                    room
                } else {
                    bytes.len()
                }
            },
            None => bytes.len(),
        };
        push_bytes(&mut self.data, part(bytes, 0, n));
        assert(bytes@.subrange(0, n as int) =~= bytes@.take(n as int));
    }

    /// True once a declared-length unit has all of its bytes.
    fn complete(&self) -> (r: bool)
        ensures
            r == self.state().complete(),
    {
        match self.expected {
            Some(want) => self.data.len() >= want,
            None => false,
        }
    }

    /// Takes the bytes out.
    fn take_data(&mut self) -> (v: Vec<u8>)
        ensures
            v@ == old(self).state().data,
            final(self).state() == (AssemblyState { data: Seq::empty(), ..old(self).state() }),
    {
        let mut v: Vec<u8> = Vec::new();
        std::mem::swap(&mut v, &mut self.data);
        assert(self.data@ =~= Seq::empty());
        v
    }

    /// Feeds one payload; returns the units it ended.
    fn media(&mut self, video: bool, start: bool, payload: &[u8]) -> (out: Vec<Unit>)
        ensures
            final(self).state() == media(old(self).state(), start, payload@).0,
            units(out@) == if video {
                as_video(media(old(self).state(), start, payload@).1)
            } else {
                as_audio(media(old(self).state(), start, payload@).1)
            },
    {
        let mut out: Vec<Unit> = Vec::new();
        let ghost mut raw: Seq<RawUnit> = Seq::empty();
        if start {
            // A new PES starts: what came before is whole if it is intact.
            if self.open && !self.damaged && self.data.len() > 0 {
                proof {
                    raw = raw.push(self.state().unit());
                }
                let pts_us = self.pts_us;
                let data = self.take_data();
                out.push(
                    if video {
                        Unit::Video { data, pts_us }
                    } else {
                        Unit::Audio { data, pts_us }
                    },
                );
            } else {
                self.data.clear();
            }
            self.damaged = false;
            self.open = true;
            match parse_pes(payload) {
                Some(pes) => {
                    self.pts_us = pes.pts_us;
                    self.expected = pes.payload_len;
                    assert(self.state().data =~= Seq::empty());
                    self.append(pes.body);
                },
                None => {
                    self.open = false;
                    self.damaged = true;
                    self.expected = None;
                    assert(self.state().data =~= Seq::empty());
                },
            }
        } else if self.open {
            self.append(payload);
        }
        // A unit whose length the header declared is done the moment those
        // bytes have arrived; one without waits for the next PES start.
        if self.open && self.complete() && !self.damaged {
            proof {
                raw = raw.push(self.state().unit());
            }
            let pts_us = self.pts_us;
            let data = self.take_data();
            self.open = false;
            self.expected = None;
            out.push(
                if video {
                    Unit::Video { data, pts_us }
                } else {
                    Unit::Audio { data, pts_us }
                },
            );
        }
        assert(raw =~= media(old(self).state(), start, payload@).1);
        assert(units(out@) =~= if video {
            as_video(raw)
        } else {
            as_audio(raw)
        });
        out
    }
}

impl View for Demux {
    type V = DemuxState;

    closed spec fn view(&self) -> DemuxState {
        DemuxState {
            pmt_pid: self.pmt_pid,
            video_pid: self.video_pid,
            audio_pid: self.audio_pid,
            video: self.video.state(),
            audio: self.audio.state(),
            last_cc: self.last_cc@,
            continuity_errors: self.continuity_errors,
        }
    }
}

impl Default for Demux {
    fn default() -> (d: Self)
        ensures
            d@ == DemuxState::init(),
    {
        Demux::new()
    }
}

impl Demux {
    pub fn new() -> (d: Self)
        ensures
            d@ == DemuxState::init(),
    {
        Demux {
            pmt_pid: None,
            video_pid: None,
            audio_pid: None,
            video: Assembly::new(),
            audio: Assembly::new(),
            last_cc: HashMap::new(),
            continuity_errors: 0,
        }
    }

    pub fn stats(&self) -> (s: DemuxStats)
        ensures
            s.continuity_errors == self@.continuity_errors,
            s.video_pid == self@.video_pid,
            s.audio_pid == self@.audio_pid,
    {
        DemuxStats {
            continuity_errors: self.continuity_errors,
            video_pid: self.video_pid,
            audio_pid: self.audio_pid,
        }
    }

    /// Feeds one transport packet. Returns any access units it completed.
    pub fn push(&mut self, packet: &[u8]) -> (out: Vec<Unit>)
        ensures
            final(self)@ == step(old(self)@, packet@).0,
            units(out@) == step(old(self)@, packet@).1,
    {
        if packet.len() != PACKET_LEN || packet[0] != SYNC {
            return no_units();
        }
        let pid: u16 = (packet[1] % 32) as u16 * 256 + packet[2] as u16;
        let start = packet[1] / 64 % 2 == 1;
        let cc: u8 = packet[3] % 16;
        let has_payload = packet[3] / 16 % 2 == 1;
        let has_adaptation = packet[3] / 32 % 2 == 1;
        if !has_payload {
            return no_units();
        }
        let mut off: usize = 4;
        if has_adaptation {
            off = 5 + packet[4] as usize;
            if off >= PACKET_LEN {
                return no_units();
            }
        }
        let payload = part(packet, off, PACKET_LEN);
        assert(payload_start(packet@) == Some(off as int));
        assert(pid == pid_at(packet@, 1));

        self.note_counter(pid, cc);
        if pid == 0 {
            self.read_pat(payload, start);
            return no_units();
        }
        if self.pmt_pid == Some(pid) {
            self.read_pmt(payload, start);
            return no_units();
        }
        if self.video_pid == Some(pid) {
            return self.video.media(true, start, payload);
        }
        if self.audio_pid == Some(pid) {
            return self.audio.media(false, start, payload);
        }
        no_units()
    }

    /// Records the counter of a packet; a jump means a packet was lost, so
    /// whatever is being assembled is damaged.
    fn note_counter(&mut self, pid: u16, cc: u8)
        requires
            cc < 16,
        ensures
            final(self)@ == note_counter(old(self)@, pid, cc),
    {
        let expected: Option<u8> = match self.last_cc.get(&pid) {
            Some(c) => Some(c.wrapping_add(1) % 16),
            None => None,
        };
        self.last_cc.insert(pid, cc);
        if let Some(exp) = expected {
            if cc != exp {
                self.continuity_errors = self.continuity_errors.wrapping_add(1);
                if self.video_pid == Some(pid) {
                    self.video.damaged = true;
                } else if self.audio_pid == Some(pid) {
                    self.audio.damaged = true;
                }
            }
        }
    }

    fn read_pat(&mut self, payload: &[u8], start: bool)
        ensures
            final(self)@ == learn_pat(old(self)@, start, payload@),
    {
        if !start || payload.len() == 0 {
            return ;
        }
        let ptr: usize = payload[0] as usize;
        if 1 + ptr > payload.len() {
            return ;
        }
        let s = part(payload, 1 + ptr, payload.len());
        // table id, length (2), stream id (2), version, section, last, entries
        if s.len() < 12 || s[0] != 0x00 {
            return ;
        }
        let pid: u16 = (s[10] % 32) as u16 * 256 + s[11] as u16;
        if pid != 0 {
            self.pmt_pid = Some(pid);
        }
    }

    fn read_pmt(&mut self, payload: &[u8], start: bool)
        requires
            payload@.len() <= PACKET_LEN,
        ensures
            final(self)@ == learn_pmt(old(self)@, start, payload@),
    {
        if !start || payload.len() == 0 {
            return ;
        }
        let ptr: usize = payload[0] as usize;
        if 1 + ptr > payload.len() {
            return ;
        }
        let s = part(payload, 1 + ptr, payload.len());
        if s.len() < 12 || s[0] != 0x02 {
            return ;
        }
        let section_len: usize = (s[1] % 16) as usize * 256 + s[2] as usize + 3;
        if section_len < 16 {
            return ;
        }
        let info_len: usize = (s[10] % 16) as usize * 256 + s[11] as usize;
        // The last four bytes of the section are its checksum, which the
        // transport already protects; stop before them.
        let end: usize = if section_len - 4 < s.len() {
            section_len - 4
        } else {
            s.len()
        };
        let mut i: usize = 12 + info_len;
        let mut video = self.video_pid;
        let mut audio = self.audio_pid;
        assert(section(payload@, 2) == Some(s@));
        while i + 5 <= end
            invariant
                end <= s@.len() <= PACKET_LEN,
                i <= end + 4200,
                streams(s@, i as int, end as int, video, audio) == streams(
                    s@,
                    12 + len12_at(s@, 10),
                    end as int,
                    old(self)@.video_pid,
                    old(self)@.audio_pid,
                ),
            decreases end + 4200 - i,
        {
            let stream_type = s[i];
            let pid: u16 = (s[i + 1] % 32) as u16 * 256 + s[i + 2] as u16;
            let es_info: usize = (s[i + 3] % 16) as usize * 256 + s[i + 4] as usize;
            assert(pid == pid_at(s@, i + 1));
            assert(es_info == len12_at(s@, i + 3));
            if stream_type == STREAM_TYPE_H264 {
                video = Some(pid);
            }
            if stream_type == STREAM_TYPE_LPCM {
                audio = Some(pid);
            }
            i = i + 5 + es_info;
        }
        self.video_pid = video;
        self.audio_pid = audio;
    }
}

fn no_units() -> (v: Vec<Unit>)
    ensures
        units(v@) == Seq::<UnitView>::empty(),
{
    let v: Vec<Unit> = Vec::new();
    assert(units(v@) =~= Seq::empty());
    v
}

struct Pes<'a> {
    pts_us: Option<u64>,
    payload_len: Option<usize>,
    body: &'a [u8],
}

impl<'a> Pes<'a> {
    spec fn state(self) -> PesState {
        PesState {
            pts_us: self.pts_us,
            payload_len: match self.payload_len {
                Some(n) => Some(n as nat),
                None => None,
            },
            body: self.body@,
        }
    }
}

/// Reads a PES header: its timestamp, its declared payload length, and the
/// payload that follows.
fn parse_pes(p: &[u8]) -> (r: Option<Pes<'_>>)
    ensures
        r is Some <==> pes(p@) is Some,
        r matches Some(x) ==> pes(p@) == Some(x.state()),
{
    if p.len() < 9 || p[0] != 0 || p[1] != 0 || p[2] != 1 {
        return None;
    }
    // The length counts everything after it: three header bytes, the header
    // extension, and the payload.
    let packet_len: usize = p[4] as usize * 256 + p[5] as usize;
    let flags = p[7];
    let header_len: usize = p[8] as usize;
    let body_start: usize = 9 + header_len;
    if p.len() < body_start {
        return None;
    }
    let payload_len: Option<usize> = if packet_len != 0 && packet_len >= 3 + header_len {
        Some(packet_len - 3 - header_len)
    } else {
        None
    };
    let pts_us: Option<u64> = if flags / 128 == 1 && header_len >= 5 {
        let ticks: u64 = (p[9] / 2 % 8) as u64 * 1073741824 + p[10] as u64 * 4194304 + (p[11] / 2
            % 128) as u64 * 32768 + p[12] as u64 * 128 + (p[13] / 2) as u64;
        assert(ticks == ticks_at(p@, 9));
        // 90 kHz ticks to microseconds.
        Some(ticks * 1_000_000 / 90_000)
    } else {
        None
    };
    Some(Pes { pts_us, payload_len, body: part(p, body_start, p.len()) })
}

} // verus!
