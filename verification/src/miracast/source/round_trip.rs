//! What the multiplexer sends, the demultiplexer reads back.
use vstd::arithmetic::div_mod::lemma_div_denominator;
use vstd::prelude::*;
use crate::miracast::source::lpcm::{framed, law_frame_round_trips, SAMPLES_PER_FRAME};
use crate::miracast::source::ts_mux::{
    adaptation, audio_in_range, audio_pushed, audio_queued, chunk_len, crc, frame_pes, frame_pts,
    frame_sent, frames_sent, lemma_frame_sent, level_byte, media_packet, next_counter, packetized,
    pat_body, pes_packet, pmt_body, profile_bytes, pts_field, section, section_packet, stuffing,
    tables, ticks, video_pushed, MuxState, AUDIO_FRAME_US, AUDIO_PID, PMT_PID, ROOM, ROOM_WITH_PCR,
    STREAM_ID_PRIVATE_1, STREAM_ID_VIDEO, TABLE_INTERVAL_PACKETS, VIDEO_PID,
};
use crate::miracast::ts::{
    as_audio, as_video, counter, feed, is_start, learn_pat, learn_pmt, len12_at, media, note_counter,
    payload_start, pes, pid_at, step, streams, ticks_at, AssemblyState, DemuxState, RawUnit,
    UnitView, PACKET_LEN,
};
use crate::wire::{be16, be32};

verus! {

/// The demultiplexer expects the counters that the multiplexer will send: it
/// has seen every packet so far of those identifiers that it has seen at all.
pub open spec fn in_step(d: DemuxState, m: MuxState) -> bool {
    forall|pid: u16| #[trigger]
        d.last_cc.contains_key(pid) ==> m.cc.contains_key(pid) && d.last_cc[pid] == m.cc[pid]
}

/// The demultiplexer has learned the program.
pub open spec fn tuned(d: DemuxState) -> bool {
    d.pmt_pid == Some(PMT_PID) && d.video_pid == Some(VIDEO_PID) && d.audio_pid == Some(AUDIO_PID)
}

/// The demultiplexer knows nothing of the program yet.
pub open spec fn untuned(d: DemuxState) -> bool {
    d.pmt_pid is None && d.video_pid is None && d.audio_pid is None
}

/// The program tables come with whatever is sent next.
pub open spec fn tables_due(m: MuxState) -> bool {
    m.since_tables == 0 || m.since_tables >= TABLE_INTERVAL_PACKETS
}

/// The demultiplexer can follow what the multiplexer sends next.
pub open spec fn follows(d: DemuxState, m: MuxState) -> bool {
    &&& m.valid()
    &&& in_step(d, m)
    &&& tuned(d) || (untuned(d) && tables_due(m))
}

pub proof fn lemma_feed_one(d: DemuxState, p: Seq<u8>, rest: Seq<u8>)
    requires
        p.len() == PACKET_LEN,
    ensures
        feed(d, p + rest).0 == feed(step(d, p).0, rest).0,
        feed(d, p + rest).1 == step(d, p).1 + feed(step(d, p).0, rest).1,
{
    assert((p + rest).take(PACKET_LEN as int) =~= p);
    assert((p + rest).skip(PACKET_LEN as int) =~= rest);
}

pub proof fn lemma_feed_none(d: DemuxState)
    ensures
        feed(d, Seq::empty()) == (d, Seq::<UnitView>::empty()),
{
}

proof fn lemma_first_packet(a: Seq<u8>, b: Seq<u8>)
    requires
        a.len() % (PACKET_LEN as nat) == 0,
        a.len() > 0,
    ensures
        a.take(PACKET_LEN as int).len() == PACKET_LEN,
        a.skip(PACKET_LEN as int).len() % (PACKET_LEN as nat) == 0,
        a.skip(PACKET_LEN as int).len() < a.len(),
        a == a.take(PACKET_LEN as int) + a.skip(PACKET_LEN as int),
        a + b == a.take(PACKET_LEN as int) + (a.skip(PACKET_LEN as int) + b),
{
    assert(a =~= a.take(PACKET_LEN as int) + a.skip(PACKET_LEN as int));
    assert(a + b =~= a.take(PACKET_LEN as int) + (a.skip(PACKET_LEN as int) + b));
}

proof fn lemma_regroup(x: Seq<UnitView>, y: Seq<UnitView>, z: Seq<UnitView>)
    ensures
        x + y + z == x + (y + z),
{
    assert(x + y + z =~= x + (y + z));
}

/// Feeding whole packets and then more is feeding one after the other.
pub proof fn lemma_feed_concat(d: DemuxState, a: Seq<u8>, b: Seq<u8>)
    requires
        a.len() % (PACKET_LEN as nat) == 0,
    ensures
        feed(d, a + b).0 == feed(feed(d, a).0, b).0,
        feed(d, a + b).1 == feed(d, a).1 + feed(feed(d, a).0, b).1,
    decreases a.len(),
{
    if a.len() == 0 {
        assert(a + b =~= b);
        assert(a =~= Seq::empty());
        lemma_feed_none(d);
        assert(Seq::<UnitView>::empty() + feed(d, b).1 =~= feed(d, b).1);
    } else {
        lemma_first_packet(a, b);
        let p = a.take(PACKET_LEN as int);
        let rest = a.skip(PACKET_LEN as int);
        lemma_feed_one(d, p, rest + b);
        lemma_feed_one(d, p, rest);
        let (d1, out) = step(d, p);
        lemma_feed_concat(d1, rest, b);
        lemma_regroup(out, feed(d1, rest).1, feed(feed(d1, rest).0, b).1);
    }
}

/// Header, adaptation field and payload fill a packet exactly.
pub proof fn lemma_adaptation(pcr: Option<int>, remaining: int)
    requires
        remaining > 0,
    ensures
        match adaptation(pcr, remaining) {
            Some(v) => 5 + v.len() + chunk_len(pcr, remaining) == PACKET_LEN,
            None => 4 + chunk_len(pcr, remaining) == PACKET_LEN,
        },
        0 < chunk_len(pcr, remaining) <= remaining,
{
}

/// The demultiplexer finds in a packet what was put there.
pub proof fn lemma_media_packet(
    pid: u16,
    first: bool,
    cc: u8,
    field: Option<Seq<u8>>,
    payload: Seq<u8>,
)
    requires
        pid < 0x2000,
        cc < 16,
        payload.len() > 0,
        match field {
            Some(v) => 5 + v.len() + payload.len() == PACKET_LEN,
            None => 4 + payload.len() == PACKET_LEN,
        },
    ensures
        ({
            let p = media_packet(pid, first, cc, field, payload);
            &&& p.len() == PACKET_LEN
            &&& payload_start(p) == Some(PACKET_LEN - payload.len())
            &&& p.subrange(PACKET_LEN - payload.len(), PACKET_LEN as int) == payload
            &&& pid_at(p, 1) == pid
            &&& is_start(p) == first
            &&& counter(p) == cc
        }),
{
    let p = media_packet(pid, first, cc, field, payload);
    assert(p.subrange(PACKET_LEN - payload.len(), PACKET_LEN as int) =~= payload);
}

/// A packet with the next counter breaks no continuity, and keeps the two in
/// step.
proof fn lemma_counter_follows(d: DemuxState, m: MuxState, pid: u16)
    requires
        m.valid(),
        in_step(d, m),
    ensures
        note_counter(d, pid, next_counter(m.cc, pid)) == (DemuxState {
            last_cc: d.last_cc.insert(pid, next_counter(m.cc, pid)),
            ..d
        }),
        in_step(note_counter(d, pid, next_counter(m.cc, pid)), m.counted(pid)),
        m.counted(pid).valid(),
        next_counter(m.cc, pid) < 16,
{
}

/// The rest of a unit of no declared length: it is appended, and nothing comes
/// out.
#[verifier::spinoff_prover]
#[verifier::rlimit(60)]
proof fn lemma_video_rest(d: DemuxState, m: MuxState, data: Seq<u8>, off: int, pcr: Option<int>)
    requires
        m.valid(),
        in_step(d, m),
        tuned(d),
        d.video.open,
        !d.video.damaged,
        d.video.expected is None,
        0 < off <= data.len(),
    ensures
        ({
            let (m1, bytes) = packetized(m, VIDEO_PID, data, off, pcr);
            let (d1, out) = feed(d, bytes);
            &&& out == Seq::<UnitView>::empty()
            &&& d1.video == (AssemblyState {
                data: d.video.data + data.subrange(off, data.len() as int),
                ..d.video
            })
            &&& d1.audio == d.audio
            &&& tuned(d1)
            &&& d1.continuity_errors == d.continuity_errors
            &&& in_step(d1, m1)
            &&& m1.valid()
        }),
    decreases data.len() - off,
{
    if off >= data.len() {
        assert(d.video.data + data.subrange(off, data.len() as int) =~= d.video.data);
    } else {
        let remaining = data.len() - off;
        let n = chunk_len(None, remaining);
        let cc = next_counter(m.cc, VIDEO_PID);
        let payload = data.subrange(off, off + n);
        lemma_adaptation(None, remaining);
        lemma_counter_follows(d, m, VIDEO_PID);
        let field = adaptation(None, remaining);
        lemma_media_packet(VIDEO_PID, false, cc, field, payload);
        let p = media_packet(VIDEO_PID, false, cc, field, payload);
        let m1 = MuxState { since_tables: m.since_tables + 1, ..m.counted(VIDEO_PID) };
        let rest = packetized(m1, VIDEO_PID, data, off + n, pcr).1;
        let d1 = step(d, p).0;
        assert(payload.take(payload.len() as int) =~= payload);
        assert(media(d.video, false, payload).1 =~= Seq::<RawUnit>::empty());
        assert(step(d, p).1 =~= Seq::<UnitView>::empty());
        assert(d1.video =~= AssemblyState { data: d.video.data + payload, ..d.video });
        assert(in_step(d1, m1));
        lemma_video_rest(d1, m1, data, off + n, pcr);
        lemma_feed_one(d, p, rest);
        assert(packetized(m, VIDEO_PID, data, off, pcr).1 == p + rest);
        assert(d.video.data + payload + data.subrange(off + n, data.len() as int) =~= d.video.data
            + data.subrange(off, data.len() as int));
        assert(feed(d, p + rest).1 =~= Seq::<UnitView>::empty());
    }
}

/// The presentation time that comes out: the one that went in, cut to whole
/// ticks of the 33-bit clock.
pub open spec fn heard_pts(pts_us: u64) -> u64 {
    (ticks(pts_us) % 8589934592 * 1_000_000 / 90_000) as u64
}

proof fn lemma_pts_field(t: int)
    requires
        t >= 0,
    ensures
        ticks_at(pts_field(t), 0) == t % 8589934592,
{
    let q1 = t / 128;
    let q2 = q1 / 256;
    let q3 = q2 / 128;
    let q4 = q3 / 256;
    let q5 = q4 / 8;
    assert(q2 == t / 32768 && q3 == t / 4194304 && q4 == t / 1073741824 && q5 == t / 8589934592)
        by {
        lemma_div_denominator(t, 128, 256);
        lemma_div_denominator(t, 32768, 128);
        lemma_div_denominator(t, 4194304, 256);
        lemma_div_denominator(t, 1073741824, 8);
    }
    let s = pts_field(t);
    assert(s[0] == 33 + q4 % 8 * 2);
    assert(s[1] == q3 % 256);
    assert(s[2] == q2 % 128 * 2 + 1);
    assert(s[3] == q1 % 256);
    assert(s[4] == t % 128 * 2 + 1);
    assert(ticks_at(s, 0) == q4 % 8 * 1073741824 + q3 % 256 * 4194304 + q2 % 128 * 32768 + q1 % 256
        * 128 + t % 128);
    assert(t == 128 * q1 + t % 128);
    assert(q1 == 256 * q2 + q1 % 256);
    assert(q2 == 128 * q3 + q2 % 128);
    assert(q3 == 256 * q4 + q3 % 256);
    assert(q4 == 8 * q5 + q4 % 8);
    assert(t == 8589934592 * q5 + t % 8589934592);
}

/// The header of a PES reads back, wherever its first packet ends.
proof fn lemma_pes_head(
    stream_id: u8,
    payload: Seq<u8>,
    pts_us: u64,
    bounded: bool,
    stuffed: int,
    n: int,
)
    requires
        0 <= stuffed <= 2,
        14 + stuffed <= n <= 14 + stuffed + payload.len(),
        bounded ==> payload.len() + stuffed + 8 < 65536,
    ensures
        ({
            let whole = pes_packet(stream_id, payload, pts_us, bounded, stuffed);
            &&& whole.len() == 14 + stuffed + payload.len()
            &&& whole.subrange(14 + stuffed, whole.len() as int) == payload
            &&& pes(whole.take(n)) matches Some(h) && h.pts_us == Some(heard_pts(pts_us))
                && h.payload_len == (if bounded {
                Some(payload.len())
            } else {
                None
            }) && h.body == payload.take(n - 14 - stuffed)
        }),
{
    let whole = pes_packet(stream_id, payload, pts_us, bounded, stuffed);
    let h = whole.take(n);
    let t = ticks(pts_us);
    lemma_pts_field(t);
    let f = pts_field(t);
    assert(h[9] == f[0] && h[10] == f[1] && h[11] == f[2] && h[12] == f[3] && h[13] == f[4]);
    assert(ticks_at(h, 9) == ticks_at(f, 0));
    assert(h[8] == 5 + stuffed);
    assert(h[7] == 0x80);
    assert(whole.subrange(14 + stuffed, whole.len() as int) =~= payload);
    assert(h.subrange(14 + stuffed, h.len() as int) =~= payload.take(n - 14 - stuffed));
    let declared: int = if bounded {
        payload.len() + 5 + stuffed + 3
    } else {
        0
    };
    assert(h[4] == be16(declared)[0] && h[5] == be16(declared)[1]);
    assert(h[4] * 256 + h[5] == declared);
}

/// The program tables reach the demultiplexer: it is tuned, and nothing else
/// changes.
#[verifier::spinoff_prover]
#[verifier::rlimit(60)]
proof fn lemma_tables(d: DemuxState, m: MuxState)
    requires
        follows(d, m),
    ensures
        ({
            let (m1, bytes) = tables(m);
            let (d1, out) = feed(d, bytes);
            &&& out == Seq::<UnitView>::empty()
            &&& bytes.len() % (PACKET_LEN as nat) == 0
            &&& tuned(d1)
            &&& d1.video == d.video
            &&& d1.audio == d.audio
            &&& d1.continuity_errors == d.continuity_errors
            &&& in_step(d1, m1)
            &&& m1.valid()
            &&& m1.audio_pending == m.audio_pending
            &&& m1.next_audio_pts_us == m.next_audio_pts_us
        }),
{
    if tables_due(m) {
        let pat_cc = next_counter(m.cc, 0);
        let pat = section_packet(0, section(0x00, pat_body()), pat_cc);
        let m0 = m.counted(0);
        lemma_counter_follows(d, m, 0);
        lemma_pat(pat_cc);
        let d1 = step(d, pat).0;
        assert(d1 == DemuxState {
            pmt_pid: Some(PMT_PID),
            last_cc: d.last_cc.insert(0, pat_cc),
            ..d
        });
        let pmt_cc = next_counter(m0.cc, PMT_PID);
        let pmt = section_packet(PMT_PID, section(0x02, pmt_body(m.profile, m.level)), pmt_cc);
        lemma_counter_follows(d1, m0, PMT_PID);
        lemma_pmt(m.profile, m.level, pmt_cc, note_counter(d1, PMT_PID, pmt_cc));
        let d2 = step(d1, pmt).0;
        lemma_feed_one(d, pat, pmt);
        assert(pmt + Seq::<u8>::empty() =~= pmt);
        lemma_feed_one(d1, pmt, Seq::empty());
        lemma_feed_none(d2);
        assert(feed(d, pat + pmt).1 =~= Seq::<UnitView>::empty());
    }
}

proof fn lemma_pat(cc: u8)
    requires
        cc < 16,
    ensures
        ({
            let p = section_packet(0, section(0x00, pat_body()), cc);
            let payload = p.subrange(4, PACKET_LEN as int);
            &&& p.len() == PACKET_LEN
            &&& payload_start(p) == Some(4int)
            &&& pid_at(p, 1) == 0
            &&& is_start(p)
            &&& counter(p) == cc
            &&& forall|d: DemuxState| #[trigger]
                learn_pat(d, true, payload) == (DemuxState { pmt_pid: Some(PMT_PID), ..d })
        }),
{
    let s = section(0x00, pat_body());
    let p = section_packet(0, s, cc);
    let payload = p.subrange(4, PACKET_LEN as int);
    assert(s.len() == 16);
    assert(payload[0] == 0);
    let t = payload.subrange(1, payload.len() as int);
    assert(forall|i: int| 0 <= i < 12 ==> t[i] == s[i]);
    assert(s[0] == 0);
    assert(s[10] == pat_body()[7]);
    assert(s[11] == pat_body()[8]);
    assert(pid_at(t, 10) == PMT_PID);
}

proof fn lemma_pmt(profile: u8, level: u8, cc: u8, d: DemuxState)
    requires
        cc < 16,
    ensures
        ({
            let p = section_packet(PMT_PID, section(0x02, pmt_body(profile, level)), cc);
            let payload = p.subrange(4, PACKET_LEN as int);
            &&& p.len() == PACKET_LEN
            &&& payload_start(p) == Some(4int)
            &&& pid_at(p, 1) == PMT_PID
            &&& is_start(p)
            &&& counter(p) == cc
            &&& learn_pmt(d, true, payload) == (DemuxState {
                video_pid: Some(VIDEO_PID),
                audio_pid: Some(AUDIO_PID),
                ..d
            })
        }),
{
    let body = pmt_body(profile, level);
    let s = section(0x02, body);
    let p = section_packet(PMT_PID, s, cc);
    let payload = p.subrange(4, PACKET_LEN as int);
    assert(body.len() == 33);
    assert(s.len() == 40);
    assert(payload[0] == 0);
    let t = payload.subrange(1, payload.len() as int);
    assert(forall|i: int| 0 <= i < 36 ==> t[i] == s[i]);
    assert(s[0] == 2);
    assert(s[1] == be16(45093)[0] && s[2] == be16(45093)[1]);
    assert(len12_at(t, 1) == 37);
    assert(s[10] == body[7] && s[11] == body[8]);
    assert(len12_at(t, 10) == 0);
    assert(s[12] == body[9] && s[13] == body[10] && s[14] == body[11] && s[15] == body[12] && s[16]
        == body[13]);
    assert(s[27] == body[24] && s[28] == body[25] && s[29] == body[26] && s[30] == body[27]
        && s[31] == body[28]);
    assert(pid_at(t, 13) == VIDEO_PID);
    assert(len12_at(t, 15) == 10);
    assert(pid_at(t, 28) == AUDIO_PID);
    assert(len12_at(t, 30) == 4);
    reveal_with_fuel(streams, 4);
    assert(streams(t, 12, 36, d.video_pid, d.audio_pid) == (Some(VIDEO_PID), Some(AUDIO_PID)));
}

/// The unit that a new start on this assembly brings out.
pub open spec fn flushed(a: AssemblyState) -> Seq<RawUnit> {
    if a.open && !a.damaged && a.data.len() > 0 {
        seq![a.unit()]
    } else {
        Seq::empty()
    }
}

/// What an access unit does on the other side: it ends the unit before it,
/// which comes out, and it is itself held whole, with its time; nothing is
/// counted as lost, and the other side can follow what comes next.
#[verifier::spinoff_prover]
#[verifier::rlimit(60)]
pub proof fn law_video_reaches_the_demultiplexer(
    d: DemuxState,
    m: MuxState,
    au: Seq<u8>,
    pts_us: u64,
)
    requires
        follows(d, m),
    ensures
        ({
            let (m1, bytes) = video_pushed(m, au, pts_us);
            let (d1, out) = feed(d, bytes);
            &&& out == as_video(flushed(d.video))
            &&& d1.video == (AssemblyState {
                data: au,
                pts_us: Some(heard_pts(pts_us)),
                damaged: false,
                open: true,
                expected: None,
            })
            &&& d1.audio == d.audio
            &&& d1.continuity_errors == d.continuity_errors
            &&& tuned(d1)
            &&& follows(d1, m1)
        }),
{
    let (m0, head) = tables(m);
    lemma_tables(d, m);
    let d0 = feed(d, head).0;
    let whole = pes_packet(STREAM_ID_VIDEO, au, pts_us, false, 0);
    let pcr = Some(ticks(pts_us));
    let (m2, body) = packetized(m0, VIDEO_PID, whole, 0, pcr);
    lemma_feed_concat(d, head, body);
    // the first packet of the unit
    let remaining = whole.len() as int;
    let n = chunk_len(pcr, remaining);
    lemma_adaptation(pcr, remaining);
    lemma_pes_head(STREAM_ID_VIDEO, au, pts_us, false, 0, n);
    let cc = next_counter(m0.cc, VIDEO_PID);
    let payload = whole.subrange(0, n);
    assert(payload =~= whole.take(n));
    lemma_counter_follows(d0, m0, VIDEO_PID);
    let field = adaptation(pcr, remaining);
    lemma_media_packet(VIDEO_PID, true, cc, field, payload);
    let p = media_packet(VIDEO_PID, true, cc, field, payload);
    let m1 = MuxState { since_tables: m0.since_tables + 1, ..m0.counted(VIDEO_PID) };
    let rest = packetized(m1, VIDEO_PID, whole, n, pcr).1;
    let d1 = step(d0, p).0;
    assert(au.take(n - 14).take(n - 14) =~= au.take(n - 14));
    assert(Seq::<u8>::empty() + au.take(n - 14) =~= au.take(n - 14));
    assert(media(d0.video, true, payload).1 =~= flushed(d0.video));
    assert(d1.video =~= AssemblyState {
        data: au.take(n - 14),
        pts_us: Some(heard_pts(pts_us)),
        damaged: false,
        open: true,
        expected: None,
    });
    assert(in_step(d1, m1));
    // and the rest of it
    lemma_video_rest(d1, m1, whole, n, pcr);
    lemma_feed_one(d0, p, rest);
    assert(body == p + rest);
    assert(whole.subrange(n, whole.len() as int) =~= au.skip(n - 14)) by {
        assert(whole.subrange(14, whole.len() as int) =~= au);
        assert forall|i: int| 0 <= i < whole.len() - n implies whole.subrange(
            n,
            whole.len() as int,
        )[i] == au.skip(n - 14)[i] by {
            assert(whole.subrange(14, whole.len() as int)[i + n - 14] == whole[i + n]);
        }
    }
    assert(au.take(n - 14) + au.skip(n - 14) =~= au);
    assert(feed(d, head + body).1 =~= as_video(flushed(d.video)));
}

/// An access unit survives the demultiplexer: sent ahead of another, it comes
/// out whole and with its time, and nothing else comes out after it.
pub proof fn law_access_unit_survives(
    d: DemuxState,
    m: MuxState,
    first: Seq<u8>,
    first_pts: u64,
    second: Seq<u8>,
    second_pts: u64,
)
    requires
        follows(d, m),
        first.len() > 0,
    ensures
        ({
            let (m1, bytes1) = video_pushed(m, first, first_pts);
            let (m2, bytes2) = video_pushed(m1, second, second_pts);
            let (d1, out1) = feed(d, bytes1);
            let (d2, out2) = feed(d1, bytes2);
            &&& out2 == seq![
                UnitView::Video { data: first, pts_us: Some(heard_pts(first_pts)) },
            ]
            &&& d2.continuity_errors == d.continuity_errors
        }),
{
    law_video_reaches_the_demultiplexer(d, m, first, first_pts);
    let (m1, bytes1) = video_pushed(m, first, first_pts);
    let d1 = feed(d, bytes1).0;
    law_video_reaches_the_demultiplexer(d1, m1, second, second_pts);
    assert(as_video(flushed(d1.video)) =~= seq![
        UnitView::Video { data: first, pts_us: Some(heard_pts(first_pts)) },
    ]);
}

/// A time that is a whole number of ticks, and within the clock's range,
/// survives exactly.
pub proof fn law_whole_ticks_survive(pts_us: u64)
    requires
        pts_us % 100 == 0,
        ticks(pts_us) < 8589934592,
    ensures
        heard_pts(pts_us) == pts_us,
{
    let k = pts_us as int / 100;
    assert(pts_us == 100 * k);
    assert(ticks(pts_us) == 9 * k);
    assert(9 * k * 1_000_000 / 90_000 == 100 * k);
}

/// The rest of a unit of declared length: it comes out with its last packet.
#[verifier::spinoff_prover]
#[verifier::rlimit(60)]
proof fn lemma_audio_rest(d: DemuxState, m: MuxState, data: Seq<u8>, off: int, want: nat)
    requires
        m.valid(),
        in_step(d, m),
        tuned(d),
        d.audio.open,
        !d.audio.damaged,
        d.audio.expected == Some(want),
        d.audio.data.len() < want,
        d.audio.data.len() + (data.len() - off) == want,
        0 < off < data.len(),
    ensures
        ({
            let (m1, bytes) = packetized(m, AUDIO_PID, data, off, None);
            let (d1, out) = feed(d, bytes);
            &&& out == seq![
                UnitView::Audio {
                    data: d.audio.data + data.subrange(off, data.len() as int),
                    pts_us: d.audio.pts_us,
                },
            ]
            &&& d1.video == d.video
            &&& d1.audio == (AssemblyState {
                data: Seq::empty(),
                open: false,
                expected: None,
                ..d.audio
            })
            &&& tuned(d1)
            &&& d1.continuity_errors == d.continuity_errors
            &&& in_step(d1, m1)
            &&& m1.valid()
        }),
    decreases data.len() - off,
{
    let remaining = data.len() - off;
    let n = chunk_len(None, remaining);
    let cc = next_counter(m.cc, AUDIO_PID);
    let payload = data.subrange(off, off + n);
    lemma_adaptation(None, remaining);
    lemma_counter_follows(d, m, AUDIO_PID);
    let field = adaptation(None, remaining);
    lemma_media_packet(AUDIO_PID, false, cc, field, payload);
    let p = media_packet(AUDIO_PID, false, cc, field, payload);
    let m1 = MuxState { since_tables: m.since_tables + 1, ..m.counted(AUDIO_PID) };
    let rest = packetized(m1, AUDIO_PID, data, off + n, None).1;
    let d1 = step(d, p).0;
    assert(payload.take(payload.len() as int) =~= payload);
    assert(packetized(m, AUDIO_PID, data, off, None).1 == p + rest);
    lemma_feed_one(d, p, rest);
    assert(in_step(d1, m1));
    if n < remaining {
        assert(media(d.audio, false, payload).1 =~= Seq::<RawUnit>::empty());
        assert(step(d, p).1 =~= Seq::<UnitView>::empty());
        assert(d1.audio =~= AssemblyState { data: d.audio.data + payload, ..d.audio });
        lemma_audio_rest(d1, m1, data, off + n, want);
        assert(d.audio.data + payload + data.subrange(off + n, data.len() as int) =~= d.audio.data
            + data.subrange(off, data.len() as int));
        assert(feed(d, p + rest).1 =~= seq![
            UnitView::Audio {
                data: d.audio.data + data.subrange(off, data.len() as int),
                pts_us: d.audio.pts_us,
            },
        ]);
    } else {
        let unit = RawUnit { data: d.audio.data + payload, pts_us: d.audio.pts_us };
        assert(media(d.audio, false, payload).1 =~= seq![unit]);
        assert(step(d, p).1 =~= seq![
            UnitView::Audio { data: unit.data, pts_us: d.audio.pts_us },
        ]);
        assert(rest =~= Seq::<u8>::empty());
        lemma_feed_none(d1);
        assert(feed(d, p + rest).1 =~= seq![
            UnitView::Audio {
                data: d.audio.data + data.subrange(off, data.len() as int),
                pts_us: d.audio.pts_us,
            },
        ]);
    }
}

/// Nothing of an audio unit is waiting on the other side.
pub open spec fn audio_idle(d: DemuxState) -> bool {
    !d.audio.open || d.audio.damaged || d.audio.data.len() == 0
}

/// An audio PES comes out at once, whole and with its time.
#[verifier::spinoff_prover]
#[verifier::rlimit(60)]
proof fn lemma_audio_pes(d: DemuxState, m: MuxState, data: Seq<u8>, pts_us: u64)
    requires
        m.valid(),
        in_step(d, m),
        tuned(d),
        audio_idle(d),
        200 <= data.len() <= 60000,
    ensures
        ({
            let whole = pes_packet(STREAM_ID_PRIVATE_1, data, pts_us, true, 2);
            let (m1, bytes) = packetized(m, AUDIO_PID, whole, 0, None);
            let (d1, out) = feed(d, bytes);
            &&& out == seq![UnitView::Audio { data, pts_us: Some(heard_pts(pts_us)) }]
            &&& d1.video == d.video
            &&& d1.continuity_errors == d.continuity_errors
            &&& audio_idle(d1)
            &&& tuned(d1)
            &&& in_step(d1, m1)
            &&& m1.valid()
        }),
{
    let whole = pes_packet(STREAM_ID_PRIVATE_1, data, pts_us, true, 2);
    let remaining = whole.len() as int;
    let n = ROOM as int;
    lemma_pes_head(STREAM_ID_PRIVATE_1, data, pts_us, true, 2, n);
    assert(n == chunk_len(None, remaining));
    lemma_adaptation(None, remaining);
    let cc = next_counter(m.cc, AUDIO_PID);
    let payload = whole.subrange(0, n);
    assert(payload =~= whole.take(n));
    lemma_counter_follows(d, m, AUDIO_PID);
    let field = adaptation(None, remaining);
    lemma_media_packet(AUDIO_PID, true, cc, field, payload);
    let p = media_packet(AUDIO_PID, true, cc, field, payload);
    let m1 = MuxState { since_tables: m.since_tables + 1, ..m.counted(AUDIO_PID) };
    let rest = packetized(m1, AUDIO_PID, whole, n, None).1;
    let d1 = step(d, p).0;
    let begun = AssemblyState {
        data: data.take(n - 16),
        pts_us: Some(heard_pts(pts_us)),
        damaged: false,
        open: true,
        expected: Some(data.len()),
    };
    assert(media(d.audio, true, payload).0 == begun
        && media(d.audio, true, payload).1 == Seq::<RawUnit>::empty()) by {
        assert(data.take(n - 16).take(n - 16) =~= data.take(n - 16));
        assert(Seq::<u8>::empty() + data.take(n - 16) =~= data.take(n - 16));
    }
    assert(step(d, p).1 =~= Seq::<UnitView>::empty());
    assert(d1.audio == begun);
    assert(in_step(d1, m1));
    lemma_audio_rest(d1, m1, whole, n, data.len());
    lemma_feed_one(d, p, rest);
    assert(packetized(m, AUDIO_PID, whole, 0, None).1 == p + rest);
    assert(whole.subrange(n, whole.len() as int) =~= data.skip(n - 16)) by {
        assert(whole.subrange(16, whole.len() as int) =~= data);
        assert forall|i: int| 0 <= i < whole.len() - n implies whole.subrange(
            n,
            whole.len() as int,
        )[i] == data.skip(n - 16)[i] by {
            assert(whole.subrange(16, whole.len() as int)[i + n - 16] == whole[i + n]);
        }
    }
    assert(data.take(n - 16) + data.skip(n - 16) =~= data);
    assert(feed(d, p + rest).1 =~= seq![
        UnitView::Audio { data, pts_us: Some(heard_pts(pts_us)) },
    ]);
}

/// An audio frame comes out at once, whole and with its time.
pub proof fn law_audio_frame_survives(d: DemuxState, m: MuxState, pts_us: u64)
    requires
        follows(d, m),
        audio_idle(d),
        m.audio_pending.len() >= SAMPLES_PER_FRAME,
    ensures
        ({
            let (m1, bytes) = frame_sent(m, pts_us);
            let (d1, out) = feed(d, bytes);
            &&& out == seq![
                UnitView::Audio {
                    data: framed(m.audio_pending.take(SAMPLES_PER_FRAME as int)),
                    pts_us: Some(heard_pts(frame_pts(m, pts_us))),
                },
            ]
            &&& d1.video == d.video
            &&& d1.continuity_errors == d.continuity_errors
            &&& audio_idle(d1)
            &&& tuned(d1)
            &&& follows(d1, m1)
        }),
{
    let t = frame_pts(m, pts_us);
    let ma = MuxState {
        audio_pending: m.audio_pending.skip(SAMPLES_PER_FRAME as int),
        next_audio_pts_us: Some(
            if t + AUDIO_FRAME_US <= u64::MAX {
                (t + AUDIO_FRAME_US) as u64
            } else {
                u64::MAX
            },
        ),
        ..m
    };
    assert(follows(d, ma));
    let (m0, head) = tables(ma);
    lemma_tables(d, ma);
    let d0 = feed(d, head).0;
    let samples = m.audio_pending.take(SAMPLES_PER_FRAME as int);
    assert(200 <= framed(samples).len() <= 60000) by {
        law_frame_round_trips(samples);
        assert(SAMPLES_PER_FRAME == 960);
    }
    let whole = frame_pes(m, pts_us);
    let body = packetized(m0, AUDIO_PID, whole, 0, None).1;
    lemma_audio_pes(d0, m0, framed(samples), t);
    lemma_feed_concat(d, head, body);
    assert(frame_sent(m, pts_us).1 == head + body);
    assert(feed(d, head + body).1 =~= feed(d0, body).1);
}

/// Every buffer that an audio frame makes is whole packets.
pub proof fn law_audio_is_whole_packets(m: MuxState, pts_us: u64)
    ensures
        frame_sent(m, pts_us).1.len() % (PACKET_LEN as nat) == 0,
{
    let t = frame_pts(m, pts_us);
    let ma = MuxState {
        audio_pending: m.audio_pending.skip(SAMPLES_PER_FRAME as int),
        next_audio_pts_us: Some(
            if t + AUDIO_FRAME_US <= u64::MAX {
                (t + AUDIO_FRAME_US) as u64
            } else {
                u64::MAX
            },
        ),
        ..m
    };
    lemma_table_lengths(ma);
    lemma_whole_packets(tables(ma).0, AUDIO_PID, frame_pes(m, pts_us), 0, None);
}

/// What comes out is whole packets.
pub proof fn lemma_whole_packets(
    m: MuxState,
    pid: u16,
    data: Seq<u8>,
    off: int,
    pcr: Option<int>,
)
    requires
        0 <= off,
    ensures
        packetized(m, pid, data, off, pcr).1.len() % (PACKET_LEN as nat) == 0,
    decreases data.len() - off,
{
    if off < data.len() {
        let clock = if off == 0 {
            pcr
        } else {
            None
        };
        let remaining = data.len() - off;
        let n = chunk_len(clock, remaining);
        lemma_adaptation(clock, remaining);
        lemma_whole_packets(
            MuxState { since_tables: m.since_tables + 1, ..m.counted(pid) },
            pid,
            data,
            off + n,
            pcr,
        );
        let p = media_packet(
            pid,
            off == 0,
            next_counter(m.cc, pid),
            adaptation(clock, remaining),
            data.subrange(off, off + n),
        );
        assert(p.len() == PACKET_LEN);
    }
}

/// Every buffer that video makes is whole packets.
pub proof fn law_video_is_whole_packets(m: MuxState, au: Seq<u8>, pts_us: u64)
    ensures
        video_pushed(m, au, pts_us).1.len() % (PACKET_LEN as nat) == 0,
{
    let (m1, head) = tables(m);
    lemma_whole_packets(
        m1,
        VIDEO_PID,
        pes_packet(STREAM_ID_VIDEO, au, pts_us, false, 0),
        0,
        Some(ticks(pts_us)),
    );
    lemma_table_lengths(m);
}

pub proof fn lemma_table_lengths(m: MuxState)
    ensures
        tables(m).1.len() % (PACKET_LEN as nat) == 0,
{
    assert(pat_body().len() == 9);
    assert(pmt_body(m.profile, m.level).len() == 33);
    assert(section(0x00, pat_body()).len() == 16);
    assert(section(0x02, pmt_body(m.profile, m.level)).len() == 40);
}

/// The audio units that pending samples make: one per whole frame, ten
/// milliseconds apart.
pub open spec fn audio_units(pending: Seq<i16>, pts_us: int) -> Seq<UnitView>
    decreases pending.len(),
{
    if pending.len() < SAMPLES_PER_FRAME || SAMPLES_PER_FRAME == 0 {
        Seq::empty()
    } else {
        seq![
            UnitView::Audio {
                data: framed(pending.take(SAMPLES_PER_FRAME as int)),
                pts_us: Some(heard_pts(pts_us as u64)),
            },
        ] + audio_units(pending.skip(SAMPLES_PER_FRAME as int), pts_us + AUDIO_FRAME_US)
    }
}

/// Every whole frame of the samples that are pending comes out on the other
/// side, in order, each with its time.
#[verifier::spinoff_prover]
#[verifier::rlimit(60)]
pub proof fn law_audio_survives(d: DemuxState, m: MuxState, pts_us: u64)
    requires
        follows(d, m),
        audio_idle(d),
        audio_in_range(m, pts_us),
    ensures
        ({
            let (m1, bytes) = frames_sent(m, pts_us);
            let (d1, out) = feed(d, bytes);
            &&& out == audio_units(m.audio_pending, frame_pts(m, pts_us) as int)
            &&& d1.video == d.video
            &&& d1.continuity_errors == d.continuity_errors
            &&& audio_idle(d1)
            &&& follows(d1, m1)
        }),
    decreases m.audio_pending.len(),
{
    if m.audio_pending.len() >= SAMPLES_PER_FRAME {
        let (m1, head) = frame_sent(m, pts_us);
        lemma_frame_sent(m, pts_us);
        law_audio_frame_survives(d, m, pts_us);
        law_audio_is_whole_packets(m, pts_us);
        let d1 = feed(d, head).0;
        let rest = frames_sent(m1, pts_us).1;
        assert(m1.audio_pending.len() < m.audio_pending.len());
        law_audio_survives(d1, m1, pts_us);
        lemma_feed_concat(d, head, rest);
        assert(frame_pts(m1, pts_us) == frame_pts(m, pts_us) + AUDIO_FRAME_US);
        assert(feed(d, head + rest).1 =~= audio_units(
            m.audio_pending,
            frame_pts(m, pts_us) as int,
        ));
    }
}

/// A demultiplexer that does not know the program passes over the packets of a
/// unit, and stays in step.
#[verifier::spinoff_prover]
#[verifier::rlimit(60)]
proof fn lemma_unheard(d: DemuxState, m: MuxState, data: Seq<u8>, off: int, pcr: Option<int>)
    requires
        m.valid(),
        in_step(d, m),
        untuned(d),
        0 <= off <= data.len(),
    ensures
        ({
            let (m1, bytes) = packetized(m, VIDEO_PID, data, off, pcr);
            let d1 = feed(d, bytes).0;
            &&& bytes.len() % (PACKET_LEN as nat) == 0
            &&& untuned(d1)
            &&& in_step(d1, m1)
            &&& m1.valid()
            &&& m1.since_tables >= m.since_tables + (if off < data.len() {
                1int
            } else {
                0int
            })
        }),
    decreases data.len() - off,
{
    if off < data.len() {
        let clock = if off == 0 {
            pcr
        } else {
            None
        };
        let remaining = data.len() - off;
        let n = chunk_len(clock, remaining);
        let cc = next_counter(m.cc, VIDEO_PID);
        let payload = data.subrange(off, off + n);
        lemma_adaptation(clock, remaining);
        lemma_counter_follows(d, m, VIDEO_PID);
        let field = adaptation(clock, remaining);
        lemma_media_packet(VIDEO_PID, off == 0, cc, field, payload);
        let p = media_packet(VIDEO_PID, off == 0, cc, field, payload);
        let m1 = MuxState { since_tables: m.since_tables + 1, ..m.counted(VIDEO_PID) };
        let rest = packetized(m1, VIDEO_PID, data, off + n, pcr).1;
        let d1 = step(d, p).0;
        assert(in_step(d1, m1));
        lemma_unheard(d1, m1, data, off + n, pcr);
        lemma_feed_one(d, p, rest);
        assert(packetized(m, VIDEO_PID, data, off, pcr).1 == p + rest);
    }
}

/// Access units sent one after the other, each with its time.
pub open spec fn units_pushed(m: MuxState, units: Seq<(Seq<u8>, u64)>) -> (MuxState, Seq<u8>)
    decreases units.len(),
{
    if units.len() == 0 {
        (m, Seq::empty())
    } else {
        let (m1, head) = video_pushed(m, units[0].0, units[0].1);
        let (m2, rest) = units_pushed(m1, units.drop_first());
        (m2, head + rest)
    }
}

/// What one access unit does for a demultiplexer that may not know the program
/// yet.
#[verifier::spinoff_prover]
#[verifier::rlimit(60)]
proof fn lemma_one_more_unit(d: DemuxState, m: MuxState, au: Seq<u8>, pts_us: u64)
    requires
        m.valid(),
        m.since_tables >= 0,
        in_step(d, m),
        tuned(d) || untuned(d),
    ensures
        ({
            let (m1, bytes) = video_pushed(m, au, pts_us);
            let d1 = feed(d, bytes).0;
            &&& bytes.len() % (PACKET_LEN as nat) == 0
            &&& m1.valid()
            &&& m1.since_tables >= 0
            &&& in_step(d1, m1)
            &&& tuned(d1) || (untuned(d1) && m1.since_tables > m.since_tables)
            &&& tuned(d) || tables_due(m) ==> tuned(d1)
        }),
{
    law_video_is_whole_packets(m, au, pts_us);
    let (m0, head) = tables(m);
    let whole = pes_packet(STREAM_ID_VIDEO, au, pts_us, false, 0);
    let pcr = Some(ticks(pts_us));
    lemma_since_tables(m0, VIDEO_PID, whole, 0, pcr);
    if tuned(d) || tables_due(m) {
        law_video_reaches_the_demultiplexer(d, m, au, pts_us);
    } else {
        lemma_unheard(d, m, whole, 0, pcr);
        let body = packetized(m, VIDEO_PID, whole, 0, pcr).1;
        assert(head + body =~= body);
    }
}

proof fn lemma_since_tables(m: MuxState, pid: u16, data: Seq<u8>, off: int, pcr: Option<int>)
    requires
        0 <= off <= data.len(),
    ensures
        packetized(m, pid, data, off, pcr).0.since_tables >= m.since_tables,
    decreases data.len() - off,
{
    if off < data.len() {
        let clock = if off == 0 {
            pcr
        } else {
            None
        };
        let remaining = data.len() - off;
        lemma_adaptation(clock, remaining);
        let m1 = MuxState { since_tables: m.since_tables + 1, ..m.counted(pid) };
        lemma_since_tables(m1, pid, data, off + chunk_len(clock, remaining), pcr);
    }
}

/// A sink that tunes in late still learns the program, wherever in the stream
/// it joins: after no more access units than there are packets between two
/// copies of the tables.
pub proof fn law_a_late_sink_learns_the_program(
    d: DemuxState,
    m: MuxState,
    units: Seq<(Seq<u8>, u64)>,
)
    requires
        m.valid(),
        m.since_tables >= 0,
        in_step(d, m),
        tuned(d) || untuned(d),
        units.len() >= TABLE_INTERVAL_PACKETS,
    ensures
        tuned(feed(d, units_pushed(m, units).1).0),
{
    lemma_late_sink(d, m, units);
}

#[verifier::spinoff_prover]
#[verifier::rlimit(60)]
proof fn lemma_late_sink(d: DemuxState, m: MuxState, units: Seq<(Seq<u8>, u64)>)
    requires
        m.valid(),
        m.since_tables >= 0,
        in_step(d, m),
        tuned(d) || (untuned(d) && units.len() > 0 && (tables_due(m) || units.len()
            + m.since_tables > TABLE_INTERVAL_PACKETS)),
    ensures
        tuned(feed(d, units_pushed(m, units).1).0),
    decreases units.len(),
{
    if units.len() > 0 {
        let (m1, head) = video_pushed(m, units[0].0, units[0].1);
        let rest = units_pushed(m1, units.drop_first()).1;
        lemma_one_more_unit(d, m, units[0].0, units[0].1);
        let d1 = feed(d, head).0;
        lemma_late_sink(d1, m1, units.drop_first());
        lemma_feed_concat(d, head, rest);
    }
}

} // verus!
