//! MPEG-TS multiplexing for the source role: access units in, 188-byte
//! transport packets out.
//!
//! The mirror of the demultiplexer. Driven by whole access units the caller
//! supplies, so there is no I/O and no clock of its own.
use std::collections::HashMap;
use vstd::prelude::*;
use crate::miracast::source::lpcm::{frame, framed, SAMPLES_PER_FRAME};
use crate::miracast::ts::PACKET_LEN;
use crate::wire::{be16, be32, part, push_be16, push_be32, push_bytes, push_fill};

verus! {

broadcast use vstd::std_specs::hash::group_hash_axioms;

pub const PMT_PID: u16 = 0x1000;

pub const VIDEO_PID: u16 = 0x1011;

pub const AUDIO_PID: u16 = 0x1100;

pub const STREAM_ID_VIDEO: u8 = 0xe0;

pub const STREAM_ID_PRIVATE_1: u8 = 0xbd;

/// Program tables are repeated this often, counted in payload packets. A sink
/// that tunes in late, or drops the one copy, must still learn the program
/// rather than give up on the stream.
pub const TABLE_INTERVAL_PACKETS: u32 = 40;

pub const AUDIO_FRAME_US: u64 = 10_000;

/// The bytes that a whole transport packet has after its header.
pub const ROOM: usize = PACKET_LEN - 4;

/// The room that is left beside a program clock reference.
pub const ROOM_WITH_PCR: usize = ROOM - 8;

// ---- the format ----

/// `n` stuffing bytes.
pub open spec fn stuffing(n: int) -> Seq<u8> {
    Seq::new(n as nat, |i: int| 0xffu8)
}

/// Microseconds as 90 kHz ticks.
pub open spec fn ticks(pts_us: u64) -> int {
    pts_us * 9 / 100
}

/// A 33-bit presentation time in 90 kHz ticks, spread over five bytes with the
/// marker bits the format requires.
pub open spec fn pts_field(t: int) -> Seq<u8> {
    seq![
        (33 + t / 1073741824 % 8 * 2) as u8,
        (t / 4194304 % 256) as u8,
        (t / 32768 % 128 * 2 + 1) as u8,
        (t / 128 % 256) as u8,
        (t % 128 * 2 + 1) as u8,
    ]
}

/// The program clock reference: a 33-bit 90 kHz base, six reserved bits, then
/// a 9-bit extension that stays at zero.
pub open spec fn pcr_field(t: int) -> Seq<u8> {
    seq![
        (t / 33554432 % 256) as u8,
        (t / 131072 % 256) as u8,
        (t / 512 % 256) as u8,
        (t / 2 % 256) as u8,
        (t % 2 * 128 + 126) as u8,
        0u8,
    ]
}

/// One PES packet.
///
/// Video declares length zero: it is unbounded, and ends at the next PES
/// start. Audio declares its true length, because the demultiplexer uses that
/// to know where the payload stops and the packet's padding begins.
pub open spec fn pes_packet(
    stream_id: u8,
    payload: Seq<u8>,
    pts_us: u64,
    bounded: bool,
    stuffed: int,
) -> Seq<u8> {
    let declared = if bounded {
        payload.len() + 5 + stuffed + 3
    } else {
        0
    };
    seq![0x00u8, 0x00u8, 0x01u8, stream_id] + be16(declared) + seq![
        0x80u8,
        0x80u8,
        (5 + stuffed) as u8,
    ] + pts_field(ticks(pts_us)) + stuffing(stuffed) + payload
}

/// One bit of the checksum's shift register.
pub open spec fn crc_bit(c: u32) -> u32 {
    if c & 0x8000_0000 != 0 {
        (c << 1) ^ 0x04c1_1db7
    } else {
        c << 1
    }
}

pub open spec fn crc_bits(c: u32, n: nat) -> u32
    decreases n,
{
    if n == 0 {
        c
    } else {
        crc_bit(crc_bits(c, (n - 1) as nat))
    }
}

/// A section's checksum: the MPEG variant of CRC-32, most significant bit
/// first, no final inversion.
pub open spec fn crc(data: Seq<u8>) -> u32
    decreases data.len(),
{
    if data.len() == 0 {
        0xffff_ffff
    } else {
        crc_bits(crc(data.drop_last()) ^ ((data.last() as u32) << 24), 8)
    }
}

/// Table id, then the syntax indicator and length, then the body and its
/// checksum.
pub open spec fn section(table_id: u8, body: Seq<u8>) -> Seq<u8> {
    let s = seq![table_id] + be16(0xb000 + body.len() as int + 4) + body;
    s + be32(crc(s) as int)
}

/// What the program association table says: one program, and where its map is.
pub open spec fn pat_body() -> Seq<u8> {
    seq![0u8, 1u8, 0xc1u8, 0u8, 0u8, 0u8, 1u8, 0xf0u8, 0x00u8]
}

/// The profile and constraint bytes that the negotiated profile stands for.
pub open spec fn profile_bytes(profile: u8) -> (u8, u8) {
    if profile == 0x02 {
        (100u8, 0x0cu8)
    } else {
        (66u8, 0xc0u8)
    }
}

/// The level byte that the negotiated level stands for.
pub open spec fn level_byte(level: u8) -> u8 {
    if level == 0x02 {
        32
    } else if level == 0x04 {
        40
    } else if level == 0x08 {
        41
    } else if level == 0x10 {
        42
    } else {
        31
    }
}

/// What the program map says: an H.264 stream with its descriptors, which
/// also carries the clock, and an LPCM stream with its own.
pub open spec fn pmt_body(profile: u8, level: u8) -> Seq<u8> {
    let (profile_idc, constraints) = profile_bytes(profile);
    seq![0u8, 1u8, 0xc1u8, 0u8, 0u8, 0xf0u8, 0x11u8, 0xf0u8, 0x00u8] + seq![
        0x1bu8,
        0xf0u8,
        0x11u8,
        0xf0u8,
        10u8,
        0x28u8,
        0x04u8,
        profile_idc,
        constraints,
        level_byte(level),
        0x3fu8,
        0x2au8,
        0x02u8,
        0x7eu8,
        0x1fu8,
    ] + seq![0x83u8, 0xf1u8, 0x00u8, 0xf0u8, 4u8, 0x83u8, 0x02u8, 0x46u8, 0x2fu8]
}

/// One transport packet that carries a section, padded to its length.
pub open spec fn section_packet(pid: u16, section: Seq<u8>, cc: u8) -> Seq<u8> {
    seq![0x47u8, (0x40 + pid / 256) as u8, (pid % 256) as u8, (0x10 + cc) as u8, 0x00u8] + section
        + stuffing(PACKET_LEN - 5 - section.len())
}

/// One transport packet that carries part of a PES.
pub open spec fn media_packet(
    pid: u16,
    first: bool,
    cc: u8,
    field: Option<Seq<u8>>,
    payload: Seq<u8>,
) -> Seq<u8> {
    let start: int = if first {
        0x40
    } else {
        0
    };
    match field {
        Some(v) => seq![
            0x47u8,
            (start + pid / 256) as u8,
            (pid % 256) as u8,
            (0x30 + cc) as u8,
            v.len() as u8,
        ] + v + payload,
        None => seq![0x47u8, (start + pid / 256) as u8, (pid % 256) as u8, (0x10 + cc) as u8]
            + payload,
    }
}

/// How much of what remains goes into the next packet.
pub open spec fn chunk_len(pcr: Option<int>, remaining: int) -> int {
    let room = if pcr is Some {
        ROOM_WITH_PCR as int
    } else {
        ROOM as int
    };
    if remaining < room {
        remaining
    } else {
        room
    }
}

/// The adaptation field of the next packet: the clock reference if there is
/// one, and whatever pads a short packet. One byte of slack is a field of
/// length zero; more is a flags byte and stuffing.
pub open spec fn adaptation(pcr: Option<int>, remaining: int) -> Option<Seq<u8>> {
    let base: Seq<u8> = match pcr {
        Some(t) => seq![0x10u8] + pcr_field(t),
        None => Seq::empty(),
    };
    let room = if pcr is Some {
        ROOM_WITH_PCR as int
    } else {
        ROOM as int
    };
    if remaining < room {
        let want = PACKET_LEN - 5 - remaining;
        let v = if base.len() == 0 && want > 0 {
            seq![0u8]
        } else {
            base
        };
        Some(v + stuffing(want - v.len()))
    } else if pcr is Some {
        Some(base)
    } else {
        None
    }
}

// ---- the model ----

/// What a multiplexer remembers.
#[verifier::ext_equal]
pub struct MuxState {
    /// The last continuity counter sent on each identifier.
    pub cc: Map<u16, u8>,
    pub since_tables: int,
    pub audio_pending: Seq<i16>,
    pub next_audio_pts_us: Option<u64>,
    pub profile: u8,
    pub level: u8,
}

/// The next continuity counter on an identifier: one more than the last, or
/// zero.
pub open spec fn next_counter(cc: Map<u16, u8>, pid: u16) -> u8 {
    if cc.contains_key(pid) {
        ((cc[pid] + 1) % 16) as u8
    } else {
        0
    }
}

impl MuxState {
    pub open spec fn init() -> MuxState {
        MuxState {
            cc: Map::empty(),
            since_tables: 0,
            audio_pending: Seq::empty(),
            next_audio_pts_us: None,
            profile: 0x01,
            level: 0x01,
        }
    }

    /// Every counter fits its four bits.
    pub open spec fn valid(self) -> bool {
        forall|pid: u16| #[trigger] self.cc.contains_key(pid) ==> self.cc[pid] < 16
    }

    /// After one packet on an identifier.
    pub open spec fn counted(self, pid: u16) -> MuxState {
        MuxState { cc: self.cc.insert(pid, next_counter(self.cc, pid)), ..self }
    }
}

/// The program tables, if they are due.
pub open spec fn tables(m: MuxState) -> (MuxState, Seq<u8>) {
    if m.since_tables != 0 && m.since_tables < TABLE_INTERVAL_PACKETS {
        (m, Seq::empty())
    } else {
        (
            MuxState { since_tables: 0, ..m.counted(0).counted(PMT_PID) },
            section_packet(0, section(0x00, pat_body()), next_counter(m.cc, 0)) + section_packet(
                PMT_PID,
                section(0x02, pmt_body(m.profile, m.level)),
                next_counter(m.counted(0).cc, PMT_PID),
            ),
        )
    }
}

/// The transport packets of a PES from `off` on. Only the packet at its start
/// says that it starts, and only that one carries the clock.
pub open spec fn packetized(m: MuxState, pid: u16, pes: Seq<u8>, off: int, pcr: Option<int>) -> (
    MuxState,
    Seq<u8>,
)
    decreases pes.len() - off,
{
    if off >= pes.len() {
        (m, Seq::empty())
    } else {
        let clock = if off == 0 {
            pcr
        } else {
            None
        };
        let remaining = pes.len() - off;
        let n = chunk_len(clock, remaining);
        let p = media_packet(
            pid,
            off == 0,
            next_counter(m.cc, pid),
            adaptation(clock, remaining),
            pes.subrange(off, off + n),
        );
        let (after, rest) = packetized(
            MuxState { since_tables: m.since_tables + 1, ..m.counted(pid) },
            pid,
            pes,
            off + n,
            pcr,
        );
        (after, p + rest)
    }
}

/// One access unit, with the program tables ahead of it when they are due.
pub open spec fn video_pushed(m: MuxState, au: Seq<u8>, pts_us: u64) -> (MuxState, Seq<u8>) {
    let (m1, head) = tables(m);
    let (m2, body) = packetized(
        m1,
        VIDEO_PID,
        pes_packet(STREAM_ID_VIDEO, au, pts_us, false, 0),
        0,
        Some(ticks(pts_us)),
    );
    (m2, head + body)
}

/// The samples of an audio frame and its time, ahead of everything that waits
/// behind them.
pub open spec fn frame_pes(m: MuxState, pts_us: u64) -> Seq<u8> {
    pes_packet(
        STREAM_ID_PRIVATE_1,
        framed(m.audio_pending.take(SAMPLES_PER_FRAME as int)),
        frame_pts(m, pts_us),
        true,
        2,
    )
}

/// The presentation time of the next audio frame.
pub open spec fn frame_pts(m: MuxState, pts_us: u64) -> u64 {
    match m.next_audio_pts_us {
        Some(t) => t,
        None => pts_us,
    }
}

/// One audio frame taken off what is pending, with the program tables ahead of
/// it when they are due.
pub open spec fn frame_sent(m: MuxState, pts_us: u64) -> (MuxState, Seq<u8>) {
    let t = frame_pts(m, pts_us);
    let (m1, head) = tables(
        MuxState {
            audio_pending: m.audio_pending.skip(SAMPLES_PER_FRAME as int),
            next_audio_pts_us: Some(
                if t + AUDIO_FRAME_US <= u64::MAX {
                    (t + AUDIO_FRAME_US) as u64
                } else {
                    u64::MAX
                },
            ),
            ..m
        },
    );
    let (m2, body) = packetized(m1, AUDIO_PID, frame_pes(m, pts_us), 0, None);
    (m2, head + body)
}

/// Every whole audio frame that is pending.
pub open spec fn frames_sent(m: MuxState, pts_us: u64) -> (MuxState, Seq<u8>)
    decreases m.audio_pending.len(),
{
    if m.audio_pending.len() < SAMPLES_PER_FRAME {
        (m, Seq::empty())
    } else {
        let (m1, head) = frame_sent(m, pts_us);
        if m1.audio_pending.len() < m.audio_pending.len() {
            let (m2, rest) = frames_sent(m1, pts_us);
            (m2, head + rest)
        } else {
            (m1, head)
        }
    }
}

/// With more samples pending. The time of the first of them is the time given,
/// unless others were waiting.
pub open spec fn audio_queued(m: MuxState, samples: Seq<i16>, pts_us: u64) -> MuxState {
    MuxState {
        next_audio_pts_us: if m.audio_pending.len() == 0 {
            Some(pts_us)
        } else {
            m.next_audio_pts_us
        },
        audio_pending: m.audio_pending + samples,
        ..m
    }
}

/// Interleaved stereo samples, framed as LPCM.
pub open spec fn audio_pushed(m: MuxState, samples: Seq<i16>, pts_us: u64) -> (MuxState, Seq<u8>) {
    frames_sent(audio_queued(m, samples, pts_us), pts_us)
}

// ---- the code ----

fn push_pts(out: &mut Vec<u8>, t: u64)
    ensures
        final(out)@ == old(out)@ + pts_field(t as int),
{
    out.push((33 + t / 1073741824 % 8 * 2) as u8);
    out.push((t / 4194304 % 256) as u8);
    out.push((t / 32768 % 128 * 2 + 1) as u8);
    out.push((t / 128 % 256) as u8);
    out.push((t % 128 * 2 + 1) as u8);
    assert(out@ =~= old(out)@ + pts_field(t as int));
}

fn push_pcr(out: &mut Vec<u8>, t: u64)
    ensures
        final(out)@ == old(out)@ + pcr_field(t as int),
{
    out.push((t / 33554432 % 256) as u8);
    out.push((t / 131072 % 256) as u8);
    out.push((t / 512 % 256) as u8);
    out.push((t / 2 % 256) as u8);
    out.push((t % 2 * 128 + 126) as u8);
    out.push(0);
    assert(out@ =~= old(out)@ + pcr_field(t as int));
}

fn pes_with_stuffing(
    stream_id: u8,
    payload: &[u8],
    pts_us: u64,
    bounded: bool,
    stuffed: usize,
) -> (v: Vec<u8>)
    requires
        pts_us * 9 <= u64::MAX,
        stuffed <= 250,
        bounded ==> payload@.len() + stuffed + 8 < 65536,
        payload@.len() + 300 <= usize::MAX,
    ensures
        v@ == pes_packet(stream_id, payload@, pts_us, bounded, stuffed as int),
        v@.len() == payload@.len() + 14 + stuffed,
{
    let declared: u16 = if bounded {
        (payload.len() + 5 + stuffed + 3) as u16
    } else {
        0
    };
    let mut v: Vec<u8> = Vec::new();
    v.push(0x00);
    v.push(0x00);
    v.push(0x01);
    v.push(stream_id);
    assert(v@ =~= seq![0x00u8, 0x00u8, 0x01u8, stream_id]);
    push_be16(&mut v, declared);
    let ghost head = v@;
    v.push(0x80);  // '10' marker, not scrambled, no priority
    v.push(0x80);  // presentation time present, no decoding time
    v.push((5 + stuffed) as u8);
    assert(v@ =~= head + seq![0x80u8, 0x80u8, (5 + stuffed) as u8]);
    push_pts(&mut v, pts_us * 9 / 100);
    push_fill(&mut v, 0xff, stuffed);
    assert(Seq::new(stuffed as nat, |i: int| 0xffu8) =~= stuffing(stuffed as int));
    push_bytes(&mut v, payload);
    v
}

/// A section's checksum.
fn crc32(data: &[u8]) -> (r: u32)
    ensures
        r == crc(data@),
{
    let mut c: u32 = 0xffff_ffff;
    let mut i: usize = 0;
    while i < data.len()
        invariant
            i <= data@.len(),
            c == crc(data@.take(i as int)),
        decreases data@.len() - i,
    {
        assert(data@.take(i + 1).drop_last() =~= data@.take(i as int));
        c = c ^ ((data[i] as u32) << 24);
        let ghost start = c;
        let mut bit: usize = 0;
        while bit < 8
            invariant
                bit <= 8,
                c == crc_bits(start, bit as nat),
            decreases 8 - bit,
        {
            c = if c & 0x8000_0000 != 0 {
                (c << 1) ^ 0x04c1_1db7
            } else {
                c << 1
            };
            bit = bit + 1;
        }
        i = i + 1;
    }
    assert(data@.take(i as int) =~= data@);
    c
}

fn make_section(table_id: u8, body: &[u8]) -> (s: Vec<u8>)
    requires
        body@.len() < 4000,
    ensures
        s@ == section(table_id, body@),
        s@.len() == body@.len() + 7,
{
    let mut s: Vec<u8> = Vec::new();
    s.push(table_id);
    assert(s@ =~= seq![table_id]);
    // the length counts the body and the checksum that follows it
    push_be16(&mut s, 0xb000 + body.len() as u16 + 4);
    push_bytes(&mut s, body);
    let c = crc32(&s);
    push_be32(&mut s, c);
    s
}

fn pat_section() -> (s: Vec<u8>)
    ensures
        s@ == section(0x00, pat_body()),
        s@.len() == 16,
{
    let mut body: Vec<u8> = Vec::new();
    push_be16(&mut body, 1);  // transport stream id
    body.push(0xc1);  // version 0, current
    body.push(0x00);  // section number
    body.push(0x00);  // last section number
    push_be16(&mut body, 1);  // program number
    push_be16(&mut body, 0xe000 + PMT_PID);
    assert(body@ =~= pat_body());
    make_section(0x00, &body)
}

fn pmt_section(profile_bitmap: u8, level_bitmap: u8) -> (s: Vec<u8>)
    ensures
        s@ == section(0x02, pmt_body(profile_bitmap, level_bitmap)),
        s@.len() == 40,
{
    let mut body: Vec<u8> = Vec::new();
    push_be16(&mut body, 1);
    body.push(0xc1);
    body.push(0x00);
    body.push(0x00);
    push_be16(&mut body, 0xe000 + VIDEO_PID);  // the clock rides on video
    push_be16(&mut body, 0xf000);  // no program info
    let (profile_idc, constraints): (u8, u8) = if profile_bitmap == 0x02 {
        (100, 0x0c)
    } else {
        (66, 0xc0)
    };
    let level_idc: u8 = match level_bitmap {
        0x02 => 32,
        0x04 => 40,
        0x08 => 41,
        0x10 => 42,
        _ => 31,
    };
    // Timing and HRD information is mandatory for Wi-Fi Display. The AVC
    // descriptor describes the stream that negotiation chose.
    body.push(0x1b);
    push_be16(&mut body, 0xe000 + VIDEO_PID);
    push_be16(&mut body, 0xf000 + 10);
    body.push(0x28);
    body.push(0x04);
    body.push(profile_idc);
    body.push(constraints);
    body.push(level_idc);
    body.push(0x3f);
    body.push(0x2a);
    body.push(0x02);
    body.push(0x7e);
    body.push(0x1f);
    // LPCM: 48 kHz and stereo, in the descriptor format of Wi-Fi Display.
    body.push(0x83);
    push_be16(&mut body, 0xe000 + AUDIO_PID);
    push_be16(&mut body, 0xf000 + 4);
    body.push(0x83);
    body.push(0x02);
    body.push(0x46);
    body.push(0x2f);
    assert(body@ =~= pmt_body(profile_bitmap, level_bitmap));
    make_section(0x02, &body)
}

/// Wraps a section in one transport packet, padded to length.
fn make_section_packet(pid: u16, section: &[u8], cc: u8) -> (p: Vec<u8>)
    requires
        pid < 0x2000,
        cc < 16,
        section@.len() <= PACKET_LEN - 5,
    ensures
        p@ == section_packet(pid, section@, cc),
        p@.len() == PACKET_LEN,
{
    let mut p: Vec<u8> = Vec::new();
    p.push(0x47);
    p.push(0x40 + (pid / 256) as u8);  // payload unit start
    p.push((pid % 256) as u8);
    p.push(0x10 + cc);  // payload only
    p.push(0x00);  // pointer field: the section starts immediately
    assert(p@ =~= seq![
        0x47u8,
        (0x40 + pid / 256) as u8,
        (pid % 256) as u8,
        (0x10 + cc) as u8,
        0x00u8,
    ]);
    push_bytes(&mut p, section);
    let n: usize = PACKET_LEN - 5 - section.len();
    push_fill(&mut p, 0xff, n);
    assert(Seq::new(n as nat, |i: int| 0xffu8) =~= stuffing(n as int));
    p
}

pub struct Muxer {
    cc: HashMap<u16, u8>,
    since_tables: u32,
    audio_pending: Vec<i16>,
    next_audio_pts_us: Option<u64>,
    h264_profile: u8,
    h264_level: u8,
}

impl View for Muxer {
    type V = MuxState;

    closed spec fn view(&self) -> MuxState {
        MuxState {
            cc: self.cc@,
            since_tables: self.since_tables as int,
            audio_pending: self.audio_pending@,
            next_audio_pts_us: self.next_audio_pts_us,
            profile: self.h264_profile,
            level: self.h264_level,
        }
    }
}

impl Default for Muxer {
    fn default() -> (m: Self)
        ensures
            m@ == MuxState::init(),
            m@.valid(),
    {
        Muxer::new()
    }
}

/// The adaptation field of the next packet, as bytes.
fn make_adaptation(pcr: Option<u64>, remaining: usize) -> (r: Option<Vec<u8>>)
    ensures
        r is Some <==> adaptation(opt_int(pcr), remaining as int) is Some,
        r matches Some(v) ==> adaptation(opt_int(pcr), remaining as int) == Some(v@) && v@.len()
            <= 183,
{
    let mut v: Vec<u8> = Vec::new();
    let mut room: usize = ROOM;
    if let Some(t) = pcr {
        v.push(0x10);  // clock reference present
        assert(v@ =~= seq![0x10u8]);
        push_pcr(&mut v, t);
        room = ROOM_WITH_PCR;
    }
    if remaining < room {
        let want: usize = PACKET_LEN - 5 - remaining;
        if v.len() == 0 && want > 0 {
            v.push(0x00);
            assert(v@ =~= seq![0u8]);
        }
        let n: usize = want - v.len();
        push_fill(&mut v, 0xff, n);
        assert(Seq::new(n as nat, |i: int| 0xffu8) =~= stuffing(n as int));
        Some(v)
    } else if pcr.is_some() {
        Some(v)
    } else {
        None
    }
}

pub open spec fn opt_int(t: Option<u64>) -> Option<int> {
    match t {
        Some(x) => Some(x as int),
        None => None,
    }
}

impl Muxer {
    pub fn new() -> (m: Self)
        ensures
            m@ == MuxState::init(),
            m@.valid(),
    {
        let m = Muxer {
            cc: HashMap::new(),
            since_tables: 0,
            audio_pending: Vec::new(),
            next_audio_pts_us: None,
            h264_profile: 0x01,
            h264_level: 0x01,
        };
        assert(m@ =~= MuxState::init());
        m
    }

    pub fn set_h264_format(&mut self, profile: u8, level: u8)
        ensures
            final(self)@ == (MuxState { profile, level, since_tables: 0, ..old(self)@ }),
    {
        self.h264_profile = profile;
        self.h264_level = level;
        self.since_tables = 0;
    }

    /// The next continuity counter for an identifier. The demultiplexer reads
    /// a gap here as loss, so it advances by exactly one per packet.
    fn next_cc(&mut self, pid: u16) -> (c: u8)
        requires
            old(self)@.valid(),
        ensures
            c == next_counter(old(self)@.cc, pid),
            c < 16,
            final(self)@ == old(self)@.counted(pid),
            final(self)@.valid(),
    {
        let c: u8 = match self.cc.get(&pid) {
            Some(last) => (*last + 1) % 16,
            None => 0,
        };
        self.cc.insert(pid, c);
        c
    }

    fn tables_if_due(&mut self) -> (out: Vec<u8>)
        requires
            old(self)@.valid(),
        ensures
            final(self)@ == tables(old(self)@).0,
            out@ == tables(old(self)@).1,
            final(self)@.valid(),
            final(self)@.since_tables < TABLE_INTERVAL_PACKETS,
    {
        if self.since_tables != 0 && self.since_tables < TABLE_INTERVAL_PACKETS {
            return Vec::new();
        }
        self.since_tables = 0;
        assert(self@.cc == old(self)@.cc);
        let pat_cc = self.next_cc(0);
        let pmt_cc = self.next_cc(PMT_PID);
        let pat = pat_section();
        let mut out = make_section_packet(0, &pat, pat_cc);
        let pmt = pmt_section(self.h264_profile, self.h264_level);
        let second = make_section_packet(PMT_PID, &pmt, pmt_cc);
        push_bytes(&mut out, &second);
        out
    }

    /// Splits one PES across transport packets.
    ///
    /// The first says that it starts a payload unit, and a short last packet is
    /// padded by growing its adaptation field rather than by stuffing bytes
    /// into the payload, which the demultiplexer would hand on as data.
    fn packetize(&mut self, pid: u16, pes: &[u8], pcr_90k: Option<u64>) -> (out: Vec<u8>)
        requires
            old(self)@.valid(),
            pid < 0x2000,
            old(self)@.since_tables + (pes@.len() + 175) / 176 <= u32::MAX,
        ensures
            final(self)@ == packetized(old(self)@, pid, pes@, 0, opt_int(pcr_90k)).0,
            out@ == packetized(old(self)@, pid, pes@, 0, opt_int(pcr_90k)).1,
            final(self)@.valid(),
    {
        let mut out: Vec<u8> = Vec::new();
        let mut offset: usize = 0;
        let ghost pcr = opt_int(pcr_90k);
        let ghost all = packetized(self@, pid, pes@, 0, pcr);
        assert(out@ + all.1 =~= all.1);
        while offset < pes.len()
            invariant
                offset <= pes@.len(),
                pid < 0x2000,
                self@.valid(),
                pcr == opt_int(pcr_90k),
                self@.since_tables + (pes@.len() - offset + 175) / 176 <= u32::MAX,
                packetized(self@, pid, pes@, offset as int, pcr).0 == all.0,
                out@ + packetized(self@, pid, pes@, offset as int, pcr).1 == all.1,
            decreases pes@.len() - offset,
        {
            let remaining: usize = pes.len() - offset;
            let first = offset == 0;
            let clock: Option<u64> = if first {
                pcr_90k
            } else {
                None
            };
            let field = make_adaptation(clock, remaining);
            let room: usize = if clock.is_some() {
                ROOM_WITH_PCR
            } else {
                ROOM
            };
            let take: usize = if remaining < room {
                remaining
            } else {
                room
            };
            let ghost before = self@;
            let ghost given = out@;
            assert(opt_int(clock) == if offset == 0 {
                pcr
            } else {
                None
            });
            assert(take == chunk_len(opt_int(clock), remaining as int));
            let cc = self.next_cc(pid);
            let mut p: Vec<u8> = Vec::new();
            p.push(0x47);
            p.push(
                (if first {
                    0x40u8
                } else {
                    0x00u8
                }) + (pid / 256) as u8,
            );
            p.push((pid % 256) as u8);
            match &field {
                Some(v) => {
                    p.push(0x30 + cc);
                    p.push(v.len() as u8);
                    let ghost h = p@;
                    assert(h =~= seq![
                        0x47u8,
                        ((if first {
                            0x40int
                        } else {
                            0int
                        }) + pid / 256) as u8,
                        (pid % 256) as u8,
                        (0x30 + cc) as u8,
                        v@.len() as u8,
                    ]);
                    push_bytes(&mut p, v);
                },
                None => {
                    p.push(0x10 + cc);
                    assert(p@ =~= seq![
                        0x47u8,
                        ((if first {
                            0x40int
                        } else {
                            0int
                        }) + pid / 256) as u8,
                        (pid % 256) as u8,
                        (0x10 + cc) as u8,
                    ]);
                },
            }
            push_bytes(&mut p, part(pes, offset, offset + take));
            assert(p@ == media_packet(
                pid,
                first,
                cc,
                adaptation(opt_int(clock), remaining as int),
                pes@.subrange(offset as int, offset + take),
            ));
            push_bytes(&mut out, &p);
            self.since_tables = self.since_tables + 1;
            assert(self@ == MuxState {
                since_tables: before.since_tables + 1,
                ..before.counted(pid)
            });
            assert(packetized(before, pid, pes@, offset as int, pcr).1 == p@ + packetized(
                self@,
                pid,
                pes@,
                offset + take,
                pcr,
            ).1);
            offset = offset + take;
            assert(out@ + packetized(self@, pid, pes@, offset as int, pcr).1 =~= given
                + packetized(before, pid, pes@, offset - take, pcr).1);
        }
        assert(out@ =~= all.1);
        out
    }

    /// One access unit, with the program tables ahead of it when they are due.
    pub fn push_video(&mut self, au: &[u8], pts_us: u64) -> (out: Vec<u8>)
        requires
            old(self)@.valid(),
            pts_us * 9 <= u64::MAX,
            au@.len() / 176 + 64 <= u32::MAX,
            au@.len() + 300 <= usize::MAX,
        ensures
            final(self)@ == video_pushed(old(self)@, au@, pts_us).0,
            out@ == video_pushed(old(self)@, au@, pts_us).1,
            final(self)@.valid(),
    {
        let mut out = self.tables_if_due();
        let pes = pes_with_stuffing(STREAM_ID_VIDEO, au, pts_us, false, 0);
        let body = self.packetize(VIDEO_PID, &pes, Some(pts_us * 9 / 100));
        push_bytes(&mut out, &body);
        out
    }

    /// Takes one frame of samples off the front of what is pending.
    fn take_frame(&mut self) -> (samples: Vec<i16>)
        requires
            old(self)@.audio_pending.len() >= SAMPLES_PER_FRAME,
        ensures
            samples@ == old(self)@.audio_pending.take(SAMPLES_PER_FRAME as int),
            final(self)@ == (MuxState {
                audio_pending: old(self)@.audio_pending.skip(SAMPLES_PER_FRAME as int),
                ..old(self)@
            }),
    {
        let rest = self.audio_pending.split_off(SAMPLES_PER_FRAME);
        let mut samples = rest;
        std::mem::swap(&mut samples, &mut self.audio_pending);
        assert(samples@ =~= old(self)@.audio_pending.take(SAMPLES_PER_FRAME as int));
        assert(self.audio_pending@ =~= old(self)@.audio_pending.skip(SAMPLES_PER_FRAME as int));
        samples
    }

    /// Sends one frame off the front of what is pending.
    fn send_frame(&mut self, pts_us: u64) -> (out: Vec<u8>)
        requires
            old(self)@.valid(),
            old(self)@.audio_pending.len() >= SAMPLES_PER_FRAME,
            frame_pts(old(self)@, pts_us) * 9 <= u64::MAX,
        ensures
            final(self)@ == frame_sent(old(self)@, pts_us).0,
            out@ == frame_sent(old(self)@, pts_us).1,
            final(self)@.valid(),
    {
        let taken = self.take_frame();
        let t: u64 = match self.next_audio_pts_us {
            Some(t) => t,
            None => pts_us,
        };
        self.next_audio_pts_us = Some(t.saturating_add(AUDIO_FRAME_US));
        assert(self@.cc == old(self)@.cc);
        let mut out = self.tables_if_due();
        let f = frame(&taken);
        // Without content protection two stuffing bytes follow the time.
        let pes = pes_with_stuffing(STREAM_ID_PRIVATE_1, &f, t, true, 2);
        let body = self.packetize(AUDIO_PID, &pes, None);
        push_bytes(&mut out, &body);
        out
    }

    /// Interleaved stereo samples, framed as LPCM.
    pub fn push_audio(&mut self, samples: &[i16], pts_us: u64) -> (out: Vec<u8>)
        requires
            old(self)@.valid(),
            audio_in_range(audio_queued(old(self)@, samples@, pts_us), pts_us),
            old(self)@.audio_pending.len() + samples@.len() <= usize::MAX,
        ensures
            final(self)@ == audio_pushed(old(self)@, samples@, pts_us).0,
            out@ == audio_pushed(old(self)@, samples@, pts_us).1,
            final(self)@.valid(),
    {
        if self.audio_pending.len() == 0 {
            self.next_audio_pts_us = Some(pts_us);
        }
        self.audio_pending.extend_from_slice(samples);
        assert(self.audio_pending@ =~= old(self)@.audio_pending + samples@);
        assert(self@ =~= audio_queued(old(self)@, samples@, pts_us));
        assert(self@.cc == old(self)@.cc);
        let mut out: Vec<u8> = Vec::new();
        let ghost all = frames_sent(self@, pts_us);
        assert(out@ + all.1 =~= all.1);
        while self.audio_pending.len() >= SAMPLES_PER_FRAME
            invariant
                self@.valid(),
                audio_in_range(self@, pts_us),
                frames_sent(self@, pts_us).0 == all.0,
                out@ + frames_sent(self@, pts_us).1 == all.1,
            decreases self.audio_pending@.len(),
        {
            let ghost before = self@;
            let ghost given = out@;
            let sent = self.send_frame(pts_us);
            push_bytes(&mut out, &sent);
            proof {
                lemma_frame_sent(before, pts_us);
            }
            assert(out@ + frames_sent(self@, pts_us).1 =~= given + frames_sent(before, pts_us).1);
        }
        assert(out@ =~= all.1);
        out
    }
}

/// The times of all the frames that are pending can be counted in ticks.
pub open spec fn audio_in_range(m: MuxState, pts_us: u64) -> bool {
    (frame_pts(m, pts_us) + m.audio_pending.len() / 960 * AUDIO_FRAME_US) * 9
        <= u64::MAX
}

/// A frame that is sent leaves what waits behind it, and the next one comes
/// ten milliseconds later.
pub proof fn lemma_frame_sent(m: MuxState, pts_us: u64)
    requires
        m.audio_pending.len() >= SAMPLES_PER_FRAME,
        audio_in_range(m, pts_us),
    ensures
        frame_sent(m, pts_us).0.audio_pending == m.audio_pending.skip(SAMPLES_PER_FRAME as int),
        frame_sent(m, pts_us).0.next_audio_pts_us == Some(
            (frame_pts(m, pts_us) + AUDIO_FRAME_US) as u64,
        ),
        audio_in_range(frame_sent(m, pts_us).0, pts_us),
{
    let t = frame_pts(m, pts_us);
    assert(SAMPLES_PER_FRAME == 960);
    let n = m.audio_pending.len() / 960;
    assert(n >= 1);
    assert(n * AUDIO_FRAME_US >= AUDIO_FRAME_US) by (nonlinear_arith)
        requires
            n >= 1,
            AUDIO_FRAME_US == 10_000,
    ;
    let m1 = tables(
        MuxState {
            audio_pending: m.audio_pending.skip(SAMPLES_PER_FRAME as int),
            next_audio_pts_us: Some(
                if t + AUDIO_FRAME_US <= u64::MAX {
                    (t + AUDIO_FRAME_US) as u64
                } else {
                    u64::MAX
                },
            ),
            ..m
        },
    ).0;
    lemma_packetized_keeps_audio(m1, AUDIO_PID, frame_pes(m, pts_us), 0, None);
    let after = frame_sent(m, pts_us).0;
    assert(after.audio_pending.len() / 960 == n - 1);
    assert((n - 1) * AUDIO_FRAME_US == n * AUDIO_FRAME_US - AUDIO_FRAME_US) by (nonlinear_arith);
}

/// Splitting a PES leaves the pending audio, its time, and the format alone.
pub proof fn lemma_packetized_keeps_audio(
    m: MuxState,
    pid: u16,
    pes: Seq<u8>,
    off: int,
    pcr: Option<int>,
)
    ensures
        packetized(m, pid, pes, off, pcr).0.audio_pending == m.audio_pending,
        packetized(m, pid, pes, off, pcr).0.next_audio_pts_us == m.next_audio_pts_us,
        packetized(m, pid, pes, off, pcr).0.profile == m.profile,
        packetized(m, pid, pes, off, pcr).0.level == m.level,
    decreases pes.len() - off,
{
    if off < pes.len() {
        let clock = if off == 0 {
            pcr
        } else {
            None
        };
        let n = chunk_len(clock, pes.len() - off);
        lemma_packetized_keeps_audio(
            MuxState { since_tables: m.since_tables + 1, ..m.counted(pid) },
            pid,
            pes,
            off + n,
            pcr,
        );
    }
}

} // verus!
