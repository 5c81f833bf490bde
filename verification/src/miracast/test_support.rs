//! Builders for synthetic Wi-Fi Display traffic.
//!
//! They exist so the whole media path can be exercised without a radio: if a
//! replay passes and the hardware does not, the fault is in the radio layer.
use vstd::prelude::*;
use crate::number::{dec, dec_of, push_dec};
use crate::text::{push_chars, push_str, to_string};
use crate::wire::{be16, be32, copy_bytes, part, push_be16, push_be32, push_bytes, push_fill};
use vstd::utf8::encode_utf8;

verus! {

pub const VIDEO_PID: u16 = 0x1011;

pub const AUDIO_PID: u16 = 0x1100;

pub const PMT_PID: u16 = 0x1000;

/// The bytes that fit into one transport packet.
pub open spec fn fitting(payload: Seq<u8>) -> Seq<u8> {
    if payload.len() <= 184 {
        payload
    } else {
        payload.take(184)
    }
}

pub open spec fn zeros(n: nat) -> Seq<u8> {
    Seq::new(n, |i: int| 0u8)
}

/// One transport packet: sync byte, flags, identifier, continuity counter, and
/// as much of the payload as fits, filled up with zeros.
pub open spec fn packet_bytes(pid: u16, start: bool, cc: u8, payload: Seq<u8>) -> Seq<u8> {
    seq![
        0x47u8,
        ((if start {
            64int
        } else {
            0
        }) + pid / 256 % 32) as u8,
        (pid % 256) as u8,
        (16 + cc % 16) as u8,
    ] + fitting(payload) + zeros((184 - fitting(payload).len()) as nat)
}

fn push_zeros(p: &mut Vec<u8>, n: usize)
    ensures
        final(p)@ == old(p)@ + zeros(n as nat),
{
    push_fill(p, 0, n);
    assert(p@ =~= old(p)@ + zeros(n as nat));
}

/// One 188-byte transport packet: sync byte, flags, PID, continuity, payload.
pub fn ts_packet(pid: u16, start: bool, cc: u8, payload: &[u8]) -> (p: Vec<u8>)
    ensures
        p@ == packet_bytes(pid, start, cc, payload@),
        p@.len() == 188,
{
    let mut p: Vec<u8> = Vec::new();
    let flag: u8 = if start {
        64
    } else {
        0
    };
    p.push(0x47);
    p.push(flag + (pid / 256 % 32) as u8);
    p.push((pid % 256) as u8);
    p.push(16 + cc % 16);  // payload only
    let ghost head = p@;
    let n: usize = if payload.len() <= 184 {
        payload.len()
    } else {
        184
    };
    let body = part(payload, 0, n);
    assert(body@ =~= fitting(payload@));
    push_bytes(&mut p, body);
    push_zeros(&mut p, 184 - n);
    assert(p@ =~= packet_bytes(pid, start, cc, payload@));
    p
}

/// A program association table naming one program, whose map lives on `PMT_PID`.
pub open spec fn pat_bytes() -> Seq<u8> {
    packet_bytes(
        0,
        true,
        0,
        seq![
            0x00u8,  // pointer field
            0x00,
            0xb0,
            0x0d,
            0x00,
            0x01,
            0xc1,
            0x00,
            0x00,
            0x00,  // program number 1
            0x01,
            0xf0,
            0x00,
            0,  // CRC, unchecked by the demultiplexer
            0,
            0,
            0,
        ],
    )
}

/// A program association table naming one program, whose map lives on `PMT_PID`.
pub fn pat() -> (p: Vec<u8>)
    ensures
        p@ == pat_bytes(),
{
    let payload: [u8; 17] = [
        0x00,
        0x00,
        0xb0,
        0x0d,
        0x00,
        0x01,
        0xc1,
        0x00,
        0x00,
        0x00,
        0x01,
        0xf0,
        0x00,
        0,
        0,
        0,
        0,
    ];
    assert(payload@ =~= seq![
        0x00u8,
        0x00,
        0xb0,
        0x0d,
        0x00,
        0x01,
        0xc1,
        0x00,
        0x00,
        0x00,
        0x01,
        0xf0,
        0x00,
        0,
        0,
        0,
        0,
    ]);
    ts_packet(0x0000, true, 0, &payload)
}

/// A program map naming an H.264 video stream and an LPCM audio stream.
pub open spec fn pmt_bytes() -> Seq<u8> {
    packet_bytes(
        PMT_PID,
        true,
        0,
        seq![
            0x00u8,
            0x02,
            0xb0,
            0x17,
            0x00,
            0x01,
            0xc1,
            0x00,
            0x00,
            0xf0,
            0x11,
            0xf0,
            0x00,
            0x1b,
            0xf0,
            0x11,
            0xf0,
            0x00,
            0x83,
            0xf1,
            0x00,
            0xf0,
            0x00,
            0,
            0,
            0,
            0,
        ],
    )
}

/// A program map naming an H.264 video stream and an LPCM audio stream.
pub fn pmt() -> (p: Vec<u8>)
    ensures
        p@ == pmt_bytes(),
{
    let payload: [u8; 27] = [
        0x00,
        0x02,
        0xb0,
        0x17,
        0x00,
        0x01,
        0xc1,
        0x00,
        0x00,
        0xf0,
        0x11,
        0xf0,
        0x00,
        0x1b,
        0xf0,
        0x11,
        0xf0,
        0x00,
        0x83,
        0xf1,
        0x00,
        0xf0,
        0x00,
        0,
        0,
        0,
        0,
    ];
    assert(payload@ =~= seq![
        0x00u8,
        0x02,
        0xb0,
        0x17,
        0x00,
        0x01,
        0xc1,
        0x00,
        0x00,
        0xf0,
        0x11,
        0xf0,
        0x00,
        0x1b,
        0xf0,
        0x11,
        0xf0,
        0x00,
        0x83,
        0xf1,
        0x00,
        0xf0,
        0x00,
        0,
        0,
        0,
        0,
    ]);
    ts_packet(PMT_PID, true, 0, &payload)
}

/// The 33-bit timestamp, split across five bytes with marker bits.
pub open spec fn pts_bytes(pts: u64) -> Seq<u8> {
    seq![
        (0x21 + pts / 0x4000_0000 % 8 * 2) as u8,
        (pts / 0x40_0000 % 256) as u8,
        (pts / 0x8000 % 128 * 2 + 1) as u8,
        (pts / 128 % 256) as u8,
        (pts % 128 * 2 + 1) as u8,
    ]
}

/// A PES packet.
pub open spec fn pes_bytes(stream_id: u8, pts_90k: Option<u64>, payload: Seq<u8>) -> Seq<u8> {
    let stamp = match pts_90k {
        Some(pts) => pts_bytes(pts),
        None => Seq::empty(),
    };
    seq![0x00u8, 0x00, 0x01, stream_id] + be16(
        ((3 + stamp.len() + payload.len()) % 65536) as int,
    ) + seq![
        0x80u8,
        if stamp.len() > 0 {
            0x80u8
        } else {
            0u8
        },
        stamp.len() as u8,
    ] + stamp + payload
}

/// A PES packet carrying `pts` (90 kHz ticks) and `payload`.
pub fn pes(stream_id: u8, pts_90k: Option<u64>, payload: &[u8]) -> (p: Vec<u8>)
    requires
        payload@.len() + 8 <= usize::MAX,
    ensures
        p@ == pes_bytes(stream_id, pts_90k, payload@),
{
    let mut stamp: Vec<u8> = Vec::new();
    if let Some(pts) = pts_90k {
        // The 33-bit timestamp is split across five bytes with marker bits.
        stamp.push((0x21 + pts / 0x4000_0000 % 8 * 2) as u8);
        stamp.push((pts / 0x40_0000 % 256) as u8);
        stamp.push((pts / 0x8000 % 128 * 2 + 1) as u8);
        stamp.push((pts / 128 % 256) as u8);
        stamp.push((pts % 128 * 2 + 1) as u8);
        assert(stamp@ =~= pts_bytes(pts));
    }
    let ghost st = match pts_90k {
        Some(pts) => pts_bytes(pts),
        None => Seq::empty(),
    };
    assert(stamp@ =~= st);
    let hdr: usize = stamp.len();
    let len: usize = 3 + hdr + payload.len();
    let mut p: Vec<u8> = Vec::new();
    p.push(0x00);
    p.push(0x00);
    p.push(0x01);
    p.push(stream_id);
    assert(p@ =~= seq![0x00u8, 0x00, 0x01, stream_id]);
    push_be16(&mut p, (len % 65536) as u16);
    let ghost head = p@;
    p.push(0x80);
    p.push(
        if hdr > 0 {
            0x80
        } else {
            0
        },
    );
    p.push(hdr as u8);
    assert(p@ =~= head + seq![
        0x80u8,
        if st.len() > 0 {
            0x80u8
        } else {
            0u8
        },
        st.len() as u8,
    ]);
    push_bytes(&mut p, &stamp);
    push_bytes(&mut p, payload);
    p
}

/// The bytes of packets, one after the other, from `i` on.
pub open spec fn joined(packets: Seq<Vec<u8>>, i: int) -> Seq<u8>
    decreases packets.len() - i,
{
    if i >= packets.len() {
        Seq::empty()
    } else {
        packets[i]@ + joined(packets, i + 1)
    }
}

/// Transport packets behind an RTP header.
pub open spec fn rtp_bytes(sequence: u16, timestamp: u32, packets: Seq<u8>) -> Seq<u8> {
    seq![0x80u8, 33] + be16(sequence as int) + be32(timestamp as int) + be32(0x1234_5678)
        + packets
}

/// Wraps transport packets in an RTP header, seven to a datagram, which is
/// what a real source sends.
pub fn rtp_datagram(sequence: u16, timestamp: u32, packets: &[Vec<u8>]) -> (v: Vec<u8>)
    ensures
        v@ == rtp_bytes(sequence, timestamp, joined(packets@, 0)),
{
    let mut v: Vec<u8> = Vec::new();
    v.push(0x80);
    v.push(33);
    assert(v@ =~= seq![0x80u8, 33]);
    push_be16(&mut v, sequence);
    push_be32(&mut v, timestamp);
    push_be32(&mut v, 0x1234_5678);  // SSRC
    let ghost head = v@;
    let mut i: usize = 0;
    assert(v@ + joined(packets@, 0) =~= head + joined(packets@, 0));
    while i < packets.len()
        invariant
            i <= packets@.len(),
            v@ + joined(packets@, i as int) == head + joined(packets@, 0),
        decreases packets@.len() - i,
    {
        let ghost before = v@;
        push_bytes(&mut v, &packets[i]);
        assert(v@ + joined(packets@, i + 1) =~= before + joined(packets@, i as int));
        i = i + 1;
    }
    assert(v@ =~= head + joined(packets@, 0));
    v
}

/// A request with a body, as a source writes it.
pub open spec fn request_text(first: Seq<char>, body: Seq<char>) -> Seq<char> {
    first + "\r\nContent-Length: "@ + dec(encode_utf8(body).len()) + "\r\n\r\n"@ + body
}

fn request_of(first: &str, body: &str) -> (r: String)
    ensures
        r@ == request_text(first@, body@),
{
    let n: usize = body.as_bytes().len();
    let mut s: Vec<char> = Vec::new();
    push_str(&mut s, first);
    push_str(&mut s, "\r\nContent-Length: ");
    push_dec(&mut s, n as u64);
    push_str(&mut s, "\r\n\r\n");
    push_str(&mut s, body);
    assert(s@ =~= request_text(first@, body@));
    to_string(&s)
}

/// The RTSP messages a source sends to drive a sink from idle to playing,
/// in order, each one complete.
pub fn negotiation_to_playing() -> (r: Vec<String>)
    ensures
        r@.len() == 5,
        r@[0]@ == "OPTIONS * RTSP/1.0\r\nCSeq: 1\r\nRequire: org.wfa.wfd1.0\r\n\r\n"@,
        r@[1]@ == request_text(
            "GET_PARAMETER rtsp://x RTSP/1.0\r\nCSeq: 2"@,
            "wfd_video_formats\r\n"@,
        ),
        r@[2]@ == request_text(
            "SET_PARAMETER rtsp://x RTSP/1.0\r\nCSeq: 3"@,
            "wfd_video_formats: 00 00 02 04 00000020 00000000 00000000 00 0000 0000 00 none none\r\nwfd_presentation_URL: rtsp://192.168.173.1/wfd1.0/streamid=0 none\r\n"@,
        ),
        r@[3]@ == request_text(
            "SET_PARAMETER rtsp://x RTSP/1.0\r\nCSeq: 4"@,
            "wfd_trigger_method: SETUP\r\n"@,
        ),
        r@[4]@ == "RTSP/1.0 200 OK\r\nCSeq: 100\r\nSession: abcdef12;timeout=60\r\n\r\n"@,
{
    let mut r: Vec<String> = Vec::new();
    r.push(
        "OPTIONS * RTSP/1.0\r\nCSeq: 1\r\nRequire: org.wfa.wfd1.0\r\n\r\n".to_owned(),
    );
    r.push(request_of("GET_PARAMETER rtsp://x RTSP/1.0\r\nCSeq: 2", "wfd_video_formats\r\n"));
    r.push(
        request_of(
            "SET_PARAMETER rtsp://x RTSP/1.0\r\nCSeq: 3",
            "wfd_video_formats: 00 00 02 04 00000020 00000000 00000000 00 0000 0000 00 none none\r\nwfd_presentation_URL: rtsp://192.168.173.1/wfd1.0/streamid=0 none\r\n",
        ),
    );
    r.push(
        request_of(
            "SET_PARAMETER rtsp://x RTSP/1.0\r\nCSeq: 4",
            "wfd_trigger_method: SETUP\r\n",
        ),
    );
    r.push(
        "RTSP/1.0 200 OK\r\nCSeq: 100\r\nSession: abcdef12;timeout=60\r\n\r\n".to_owned(),
    );
    r
}

/// An access unit whose payload is distinguishable per frame.
pub open spec fn unit_bytes(i: int) -> Seq<u8> {
    seq![0u8, 0, 0, 1, 0x65] + Seq::new(20, |b: int| ((i * 7 + b) % 251) as u8)
}

/// The datagram of the access unit `i`.
pub open spec fn unit_datagram(i: int) -> Seq<u8> {
    let pts = 90_000 + i * 3000;
    rtp_bytes(
        ((i + 1) % 65536) as u16,
        (pts % 0x1_0000_0000) as u32,
        packet_bytes(
            VIDEO_PID,
            true,
            (i % 16) as u8,
            pes_bytes(0xe0, Some(pts as u64), unit_bytes(i)),
        ),
    )
}

fn unit_of(i: u32) -> (au: Vec<u8>)
    requires
        i * 7 + 19 <= u32::MAX,
    ensures
        au@ == unit_bytes(i as int),
{
    // An Annex B access unit whose payload is distinguishable per frame.
    let mut au: Vec<u8> = Vec::new();
    au.push(0);
    au.push(0);
    au.push(0);
    au.push(1);
    au.push(0x65);
    let ghost head = au@;
    let mut b: u32 = 0;
    while b < 20
        invariant
            b <= 20,
            i * 7 + 19 <= u32::MAX,
            head == seq![0u8, 0, 0, 1, 0x65],
            au@ == head + Seq::new(b as nat, |k: int| ((i * 7 + k) % 251) as u8),
        decreases 20 - b,
    {
        au.push(((i * 7 + b) % 251) as u8);
        b = b + 1;
        assert(au@ =~= head + Seq::new(b as nat, |k: int| ((i * 7 + k) % 251) as u8));
    }
    assert(au@ =~= unit_bytes(i as int));
    au
}

/// A recording of `units` video access units with ascending timestamps, as
/// the datagrams a source would send: the tables first, then the units.
pub fn recorded_stream(units: u32) -> (out: Vec<Vec<u8>>)
    requires
        units * 7 + 19 <= u32::MAX,
    ensures
        out@.len() == units + 1,
        out@[0]@ == rtp_bytes(0, 0, pat_bytes() + pmt_bytes()),
        forall|i: int| 0 <= i < units ==> (#[trigger] out@[i + 1])@ == unit_datagram(i),
{
    let mut out: Vec<Vec<u8>> = Vec::new();
    let mut tables: Vec<Vec<u8>> = Vec::new();
    tables.push(pat());
    tables.push(pmt());
    proof {
        reveal_with_fuel(joined, 3);
        assert(joined(tables@, 0) =~= pat_bytes() + pmt_bytes());
    }
    out.push(rtp_datagram(0, 0, &tables));
    let mut i: u32 = 0;
    while i < units
        invariant
            i <= units,
            units * 7 + 19 <= u32::MAX,
            out@.len() == i + 1,
            out@[0]@ == rtp_bytes(0, 0, pat_bytes() + pmt_bytes()),
            forall|k: int| 0 <= k < i ==> (#[trigger] out@[k + 1])@ == unit_datagram(k),
        decreases units - i,
    {
        let au = unit_of(i);
        let pts: u64 = 90_000 + i as u64 * 3000;
        let unit = pes(0xe0, Some(pts), &au);
        let packet = ts_packet(VIDEO_PID, true, (i % 16) as u8, &unit);
        let mut one: Vec<Vec<u8>> = Vec::new();
        one.push(packet);
        proof {
            reveal_with_fuel(joined, 2);
            assert(joined(one@, 0) =~= one@[0]@);
        }
        let d = rtp_datagram(
            ((i + 1) % 65536) as u16,
            (pts % 0x1_0000_0000) as u32,
            &one,
        );
        assert(d@ == unit_datagram(i as int));
        out.push(d);
        i = i + 1;
        assert forall|k: int| 0 <= k < i implies (#[trigger] out@[k + 1])@ == unit_datagram(k) by {
        }
    }
    out
}

} // verus!
