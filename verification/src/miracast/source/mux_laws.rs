//! What holds of a transport stream as a whole: how it is cut into packets, when
//! it names its program, and what the other side hears of it.
use vstd::prelude::*;
use crate::miracast::source::lpcm::{
    framed, law_frame_round_trips, sample_bytes, unframed, SAMPLES_PER_FRAME,
};
use crate::miracast::source::round_trip::{
    audio_idle, flushed, follows, heard_pts, law_audio_frame_survives,
    law_audio_is_whole_packets, law_video_is_whole_packets, law_video_reaches_the_demultiplexer,
    lemma_adaptation, lemma_feed_concat, lemma_feed_none, lemma_media_packet,
    lemma_table_lengths, tables_due, tuned, units_pushed,
};
use crate::miracast::source::ts_mux::{
    adaptation, audio_pushed, audio_queued, chunk_len, frame_pes, frame_pts, frame_sent,
    frames_sent, lemma_packetized_keeps_audio, media_packet, next_counter, packetized, pat_body,
    pes_packet, pmt_body, section, section_packet, tables, ticks, video_pushed, MuxState,
    AUDIO_FRAME_US, AUDIO_PID, PMT_PID, STREAM_ID_VIDEO, TABLE_INTERVAL_PACKETS, VIDEO_PID,
};
use crate::miracast::ts::{
    as_video, counter, feed, is_start, payload_start, pid_at, AssemblyState, DemuxState,
    UnitView,
};

verus! {

// ---- packets ----

/// How many packets a buffer holds.
pub open spec fn packet_count(bytes: Seq<u8>) -> int {
    bytes.len() as int / 188
}

/// One of the packets of a buffer.
pub open spec fn packet(bytes: Seq<u8>, i: int) -> Seq<u8> {
    bytes.subrange(188 * i, 188 * i + 188)
}

/// What a packet carries behind its header and its adaptation field.
pub open spec fn carried(p: Seq<u8>) -> Seq<u8> {
    match payload_start(p) {
        Some(off) => p.subrange(off, p.len() as int),
        None => Seq::empty(),
    }
}

/// What the packets of a buffer carry, one after the other.
pub open spec fn payloads(bytes: Seq<u8>) -> Seq<u8>
    decreases bytes.len(),
{
    if bytes.len() < 188 {
        Seq::empty()
    } else {
        carried(bytes.take(188)) + payloads(bytes.skip(188))
    }
}

/// Whether a packet carries one of the program tables.
pub open spec fn is_table(p: Seq<u8>) -> bool {
    pid_at(p, 1) == 0 || pid_at(p, 1) == PMT_PID
}

/// A packet put ahead of others.
proof fn lemma_first_packet(p: Seq<u8>, rest: Seq<u8>)
    requires
        p.len() == 188,
        rest.len() % 188 == 0,
    ensures
        (p + rest).len() % 188 == 0,
        packet_count(p + rest) == 1 + packet_count(rest),
        packet(p + rest, 0) == p,
        forall|i: int|
            1 <= i < packet_count(p + rest) ==> #[trigger] packet(p + rest, i) == packet(
                rest,
                i - 1,
            ),
        payloads(p + rest) == carried(p) + payloads(rest),
{
    let all = p + rest;
    assert(packet(all, 0) =~= p);
    assert forall|i: int| 1 <= i < packet_count(all) implies #[trigger] packet(all, i) == packet(
        rest,
        i - 1,
    ) by {
        assert(packet(all, i) =~= packet(rest, i - 1));
    }
    assert(all.take(188) =~= p);
    assert(all.skip(188) =~= rest);
}

/// Whether a packet carries part of a PES on an identifier, under a counter.
pub open spec fn is_part(p: Seq<u8>, pid: u16, first: bool, cc: int) -> bool {
    &&& payload_start(p) is Some
    &&& pid_at(p, 1) == pid
    &&& is_start(p) == first
    &&& counter(p) == cc
}

/// What is known of the packets that part of a PES is split into.
spec fn split_well(m: MuxState, pid: u16, pes: Seq<u8>, off: int, pcr: Option<int>) -> bool {
    let (m1, out) = packetized(m, pid, pes, off, pcr);
    let cc = next_counter(m.cc, pid);
    &&& out.len() % 188 == 0
    &&& off < pes.len() ==> out.len() > 0
    &&& m1.valid()
    &&& m1.since_tables == m.since_tables + packet_count(out)
    &&& forall|i: int|
        0 <= i < packet_count(out) ==> is_part(
            #[trigger] packet(out, i),
            pid,
            off == 0 && i == 0,
            (cc + i) % 16,
        )
    &&& payloads(out) == pes.subrange(off, pes.len() as int)
    &&& next_counter(m1.cc, pid) == (cc + packet_count(out)) % 16
    &&& forall|q: u16| q != pid ==> #[trigger] next_counter(m1.cc, q) == next_counter(m.cc, q)
}

proof fn lemma_count_on(cc: int, i: int)
    ensures
        ((cc + 1) % 16 + i) % 16 == (cc + (1 + i)) % 16,
{
}

/// The packet that the next part of a PES goes into.
proof fn lemma_part(m: MuxState, pid: u16, pes: Seq<u8>, off: int, clock: Option<int>)
    requires
        m.valid(),
        pid < 0x2000,
        0 <= off < pes.len(),
    ensures
        ({
            let remaining = pes.len() - off;
            let n = chunk_len(clock, remaining);
            let cc = next_counter(m.cc, pid);
            let payload = pes.subrange(off, off + n);
            let p = media_packet(pid, off == 0, cc, adaptation(clock, remaining), payload);
            &&& 0 < n <= remaining
            &&& p.len() == 188
            &&& is_part(p, pid, off == 0, cc as int)
            &&& carried(p) == payload
            &&& cc < 16
        }),
{
    let remaining = pes.len() - off;
    lemma_adaptation(clock, remaining);
    let n = chunk_len(clock, remaining);
    let cc = next_counter(m.cc, pid);
    lemma_media_packet(
        pid,
        off == 0,
        cc,
        adaptation(clock, remaining),
        pes.subrange(off, off + n),
    );
}

/// The next counter after one packet, on its identifier and on the others.
proof fn lemma_counted(m: MuxState, pid: u16)
    requires
        m.valid(),
    ensures
        m.counted(pid).valid(),
        next_counter(m.counted(pid).cc, pid) == (next_counter(m.cc, pid) + 1) % 16,
        forall|q: u16|
            q != pid ==> #[trigger] next_counter(m.counted(pid).cc, q) == next_counter(m.cc, q),
{
}

#[verifier::spinoff_prover]
#[verifier::rlimit(60)]
proof fn lemma_split(m: MuxState, pid: u16, pes: Seq<u8>, off: int, pcr: Option<int>)
    requires
        m.valid(),
        pid < 0x2000,
        0 <= off <= pes.len(),
    ensures
        split_well(m, pid, pes, off, pcr),
    decreases pes.len() - off,
{
    let (m1, out) = packetized(m, pid, pes, off, pcr);
    if off < pes.len() {
        let clock = if off == 0 {
            pcr
        } else {
            None
        };
        let remaining = pes.len() - off;
        let n = chunk_len(clock, remaining);
        let cc = next_counter(m.cc, pid);
        let payload = pes.subrange(off, off + n);
        let p = media_packet(pid, off == 0, cc, adaptation(clock, remaining), payload);
        lemma_part(m, pid, pes, off, clock);
        lemma_counted(m, pid);
        let m0 = MuxState { since_tables: m.since_tables + 1, ..m.counted(pid) };
        assert(m0.cc == m.counted(pid).cc);
        assert(m0.valid());
        let rest = packetized(m0, pid, pes, off + n, pcr).1;
        lemma_split(m0, pid, pes, off + n, pcr);
        lemma_join(p, rest, pid, off == 0, cc as int);
        assert(out == p + rest);
        assert(payload + pes.subrange(off + n, pes.len() as int) =~= pes.subrange(
            off,
            pes.len() as int,
        ));
        lemma_count_on(cc as int, packet_count(rest));
    } else {
        assert(pes.subrange(off, pes.len() as int) =~= Seq::empty());
    }
}

/// A part put ahead of those that follow it.
#[verifier::spinoff_prover]
#[verifier::rlimit(60)]
proof fn lemma_join(p: Seq<u8>, rest: Seq<u8>, pid: u16, first: bool, cc: int)
    requires
        p.len() == 188,
        rest.len() % 188 == 0,
        0 <= cc < 16,
        is_part(p, pid, first, cc),
        forall|i: int|
            0 <= i < packet_count(rest) ==> is_part(
                #[trigger] packet(rest, i),
                pid,
                false,
                ((cc + 1) % 16 + i) % 16,
            ),
    ensures
        (p + rest).len() % 188 == 0,
        packet_count(p + rest) == 1 + packet_count(rest),
        payloads(p + rest) == carried(p) + payloads(rest),
        forall|i: int|
            0 <= i < packet_count(p + rest) ==> is_part(
                #[trigger] packet(p + rest, i),
                pid,
                first && i == 0,
                (cc + i) % 16,
            ),
{
    lemma_first_packet(p, rest);
    assert forall|i: int| 0 <= i < packet_count(p + rest) implies is_part(
        #[trigger] packet(p + rest, i),
        pid,
        first && i == 0,
        (cc + i) % 16,
    ) by {
        if i > 0 {
            assert(packet(p + rest, i) == packet(rest, i - 1));
            lemma_count_on(cc, i - 1);
            assert(is_part(packet(rest, i - 1), pid, false, ((cc + 1) % 16 + (i - 1)) % 16));
        }
    }
}

/// A PES is split into whole packets on its identifier, of which only the first
/// starts a unit. Their payloads joined are the PES, so padding never sits in a
/// payload; and their counters go on by one from the identifier's last packet,
/// while the counters of no other identifier change.
pub proof fn law_a_pes_is_split_into_packets(
    m: MuxState,
    pid: u16,
    pes: Seq<u8>,
    pcr: Option<int>,
)
    requires
        m.valid(),
        pid < 0x2000,
        pes.len() > 0,
    ensures
        ({
            let (m1, out) = packetized(m, pid, pes, 0, pcr);
            &&& out.len() > 0
            &&& out.len() % 188 == 0
            &&& forall|i: int|
                0 <= i < packet_count(out) ==> is_part(
                    #[trigger] packet(out, i),
                    pid,
                    i == 0,
                    (next_counter(m.cc, pid) + i) % 16,
                )
            &&& payloads(out) == pes
            &&& next_counter(m1.cc, pid) == (next_counter(m.cc, pid) + packet_count(out)) % 16
            &&& forall|q: u16|
                q != pid ==> #[trigger] next_counter(m1.cc, q) == next_counter(m.cc, q)
        }),
{
    lemma_split(m, pid, pes, 0, pcr);
    assert(pes.subrange(0, pes.len() as int) =~= pes);
}

// ---- access units ----

/// What the other side hears of access units: each with its time.
pub open spec fn heard(units: Seq<(Seq<u8>, u64)>) -> Seq<UnitView> {
    Seq::new(
        units.len(),
        |i: int| UnitView::Video { data: units[i].0, pts_us: Some(heard_pts(units[i].1)) },
    )
}

/// Whether no unit is empty.
pub open spec fn none_empty(units: Seq<(Seq<u8>, u64)>) -> bool {
    forall|i: int| 0 <= i < units.len() ==> (#[trigger] units[i]).0.len() > 0
}

#[verifier::spinoff_prover]
#[verifier::rlimit(60)]
proof fn lemma_units(d: DemuxState, m: MuxState, units: Seq<(Seq<u8>, u64)>)
    requires
        follows(d, m),
        none_empty(units),
        units.len() > 0,
    ensures
        ({
            let (m1, bytes) = units_pushed(m, units);
            let (d1, out) = feed(d, bytes);
            &&& out == as_video(flushed(d.video)) + heard(units.drop_last())
            &&& d1.video == (AssemblyState {
                data: units.last().0,
                pts_us: Some(heard_pts(units.last().1)),
                damaged: false,
                open: true,
                expected: None,
            })
            &&& d1.audio == d.audio
            &&& d1.continuity_errors == d.continuity_errors
            &&& tuned(d1)
            &&& follows(d1, m1)
        }),
    decreases units.len(),
{
    let (m1, head) = video_pushed(m, units[0].0, units[0].1);
    let rest = units.drop_first();
    let more = units_pushed(m1, rest).1;
    law_video_reaches_the_demultiplexer(d, m, units[0].0, units[0].1);
    law_video_is_whole_packets(m, units[0].0, units[0].1);
    let d1 = feed(d, head).0;
    lemma_feed_concat(d, head, more);
    let all = feed(d, head + more).1;
    if rest.len() == 0 {
        lemma_feed_none(d1);
        assert(more =~= Seq::<u8>::empty());
        assert(heard(units.drop_last()) =~= Seq::<UnitView>::empty());
        assert(all =~= as_video(flushed(d.video)) + heard(units.drop_last()));
    } else {
        assert(none_empty(rest)) by {
            assert forall|i: int| 0 <= i < rest.len() implies (#[trigger] rest[i]).0.len() > 0 by {
                assert(units[i + 1].0.len() > 0);
            }
        }
        lemma_units(d1, m1, rest);
        let first = UnitView::Video { data: units[0].0, pts_us: Some(heard_pts(units[0].1)) };
        assert(units[0].0.len() > 0);
        assert(as_video(flushed(d1.video)) =~= seq![first]);
        assert(heard(units.drop_last()) =~= seq![first] + heard(rest.drop_last()));
        assert(all =~= as_video(flushed(d.video)) + heard(units.drop_last()));
        assert(rest.last() == units.last());
    }
}

/// Access units sent one after the other come out on the other side one after
/// the other, each whole and with its time, all but the last, which is still
/// open. No packet is missed, and the program is known.
pub proof fn law_access_units_come_out_in_order(units: Seq<(Seq<u8>, u64)>)
    requires
        units.len() > 0,
        none_empty(units),
    ensures
        ({
            let (m, bytes) = units_pushed(MuxState::init(), units);
            let (d, out) = feed(DemuxState::init(), bytes);
            &&& out == heard(units.drop_last())
            &&& d.continuity_errors == 0
            &&& d.video_pid == Some(VIDEO_PID)
            &&& d.audio_pid == Some(AUDIO_PID)
            &&& d.video.open && d.video.data == units.last().0
        }),
{
    lemma_units(DemuxState::init(), MuxState::init(), units);
    let out = feed(DemuxState::init(), units_pushed(MuxState::init(), units).1).1;
    assert(out =~= heard(units.drop_last()));
}

/// A time within the clock's range comes out cut to whole ticks.
pub proof fn law_times_come_out_in_ticks(pts_us: u64)
    requires
        pts_us * 9 / 100 < 8589934592,
    ensures
        heard_pts(pts_us) == (pts_us * 9 / 100) * 100 / 9,
{
    let t = pts_us * 9 / 100;
    assert(ticks(pts_us) == t);
    assert(t * 1_000_000 / 90_000 == t * 100 / 9);
}

// ---- program tables ----

/// What a multiplexer is told.
pub enum Told {
    Video(Seq<u8>, u64),
    Audio(Seq<i16>, u64),
    Format(u8, u8),
}

/// What one of them comes to.
pub open spec fn heeded(m: MuxState, t: Told) -> (MuxState, Seq<u8>) {
    match t {
        Told::Video(au, pts_us) => video_pushed(m, au, pts_us),
        Told::Audio(samples, pts_us) => audio_pushed(m, samples, pts_us),
        Told::Format(profile, level) => (
            MuxState { profile, level, since_tables: 0, ..m },
            Seq::empty(),
        ),
    }
}

/// A new multiplexer after all it was told, and all that it made.
pub open spec fn made(told: Seq<Told>) -> (MuxState, Seq<u8>)
    decreases told.len(),
{
    if told.len() == 0 {
        (MuxState::init(), Seq::empty())
    } else {
        let (m, out) = made(told.drop_last());
        let (m1, more) = heeded(m, told.last());
        (m1, out + more)
    }
}

/// Whether the tables have gone out since the format last changed.
pub open spec fn announced(told: Seq<Told>) -> bool
    decreases told.len(),
{
    if told.len() == 0 || told.last() is Format {
        false
    } else {
        let before = told.drop_last();
        let out = heeded(made(before).0, told.last()).1;
        announced(before) || (out.len() > 0 && is_table(packet(out, 0)))
    }
}

/// How many packets have gone out since the last that carried a table.
pub open spec fn since_table(out: Seq<u8>) -> nat
    decreases out.len(),
{
    if out.len() < 188 || is_table(out.skip(out.len() - 188)) {
        0
    } else {
        1 + since_table(out.take(out.len() - 188))
    }
}

/// Packets without a table add to those since the last table.
#[verifier::spinoff_prover]
#[verifier::rlimit(60)]
proof fn lemma_no_tables(out: Seq<u8>, more: Seq<u8>)
    requires
        more.len() % 188 == 0,
        forall|i: int| 0 <= i < packet_count(more) ==> !is_table(#[trigger] packet(more, i)),
    ensures
        since_table(out + more) == since_table(out) + packet_count(more),
    decreases more.len(),
{
    if more.len() == 0 {
        assert(out + more =~= out);
    } else {
        let less = more.take(more.len() - 188);
        let last = packet_count(more) - 1;
        let all = out + more;
        assert(all.skip(all.len() - 188) =~= packet(more, last));
        assert(all.take(all.len() - 188) =~= out + less);
        assert forall|i: int| 0 <= i < packet_count(less) implies !is_table(
            #[trigger] packet(less, i),
        ) by {
            assert(packet(less, i) =~= packet(more, i));
        }
        lemma_no_tables(out, less);
    }
}

/// The tables are two packets, the second of which is what the stream then ends
/// with.
proof fn lemma_the_tables(m: MuxState)
    requires
        m.valid(),
        tables_due(m),
    ensures
        ({
            let (m1, head) = tables(m);
            &&& m1.valid()
            &&& m1.since_tables == 0
            &&& head.len() == 376
            &&& pid_at(packet(head, 0), 1) == 0
            &&& pid_at(packet(head, 1), 1) == PMT_PID
            &&& packet(head, 0)[0] == 0x47
            &&& packet(head, 1)[0] == 0x47
        }),
{
    lemma_table_lengths(m);
    let pat = section_packet(0, section(0x00, pat_body()), next_counter(m.cc, 0));
    let pmt = section_packet(
        PMT_PID,
        section(0x02, pmt_body(m.profile, m.level)),
        next_counter(m.counted(0).cc, PMT_PID),
    );
    assert(pat_body().len() == 9);
    assert(pmt_body(m.profile, m.level).len() == 33);
    assert(section(0x00, pat_body()).len() == 16);
    assert(section(0x02, pmt_body(m.profile, m.level)).len() == 40);
    assert(pat.len() == 188 && pmt.len() == 188);
    let head = tables(m).1;
    assert(head == pat + pmt);
    assert(packet(head, 0) =~= pat);
    assert(packet(head, 1) =~= pmt);
    assert(m.counted(0).valid());
}

/// How a buffer with a unit in it looks: the tables first if they are due, and
/// no table after that; whole packets all of them.
pub open spec fn opens_rightly(out: Seq<u8>, with_tables: bool) -> bool {
    let first: int = if with_tables {
        2
    } else {
        0
    };
    &&& out.len() % 188 == 0
    &&& packet_count(out) > first
    &&& forall|i: int| 0 <= i < packet_count(out) ==> (#[trigger] packet(out, i))[0] == 0x47
    &&& with_tables ==> pid_at(packet(out, 0), 1) == 0 && pid_at(packet(out, 1), 1) == PMT_PID
    &&& forall|i: int| first <= i < packet_count(out) ==> !is_table(#[trigger] packet(out, i))
}

/// One PES behind the tables, if they are due.
#[verifier::spinoff_prover]
#[verifier::rlimit(60)]
proof fn lemma_unit_sent(
    m: MuxState,
    pid: u16,
    pes: Seq<u8>,
    pcr: Option<int>,
    out: Seq<u8>,
)
    requires
        m.valid(),
        m.since_tables >= 0,
        pes.len() > 0,
        pid == VIDEO_PID || pid == AUDIO_PID,
        m.since_tables > 0 ==> m.since_tables == since_table(out),
        out.len() % 188 == 0,
    ensures
        ({
            let (m0, head) = tables(m);
            let (m1, body) = packetized(m0, pid, pes, 0, pcr);
            &&& opens_rightly(head + body, tables_due(m))
            &&& m1.valid()
            &&& m1.since_tables > 0
            &&& m1.since_tables == since_table(out + (head + body))
        }),
{
    let (m0, head) = tables(m);
    if tables_due(m) {
        lemma_the_tables(m);
    }
    lemma_split(m0, pid, pes, 0, pcr);
    let body = packetized(m0, pid, pes, 0, pcr).1;
    let all = head + body;
    assert forall|i: int| 0 <= i < packet_count(body) implies !is_table(#[trigger] packet(body, i))
        && packet(body, i)[0] == 0x47 by {
        assert(payload_start(packet(body, i)) is Some);
    }
    let h = packet_count(head);
    assert forall|i: int| h <= i < packet_count(all) implies #[trigger] packet(all, i) == packet(
        body,
        i - h,
    ) by {
        assert(packet(all, i) =~= packet(body, i - h));
    }
    assert forall|i: int| 0 <= i < h implies #[trigger] packet(all, i) == packet(head, i) by {
        assert(packet(all, i) =~= packet(head, i));
    }
    lemma_no_tables(out + head, body);
    assert(out + all =~= out + head + body);
    if tables_due(m) {
        assert((out + head).skip((out + head).len() - 188) =~= packet(head, 1));
        assert(packet(all, 0) == packet(head, 0));
        assert(packet(all, 1) == packet(head, 1));
    } else {
        assert(out + head =~= out);
    }
    assert forall|i: int| 0 <= i < packet_count(all) implies (#[trigger] packet(all, i))[0]
        == 0x47 by {
        if i >= h {
            assert(packet(all, i) == packet(body, i - h));
            assert(packet(body, i - h)[0] == 0x47);
        } else {
            assert(packet(all, i) == packet(head, i));
        }
    }
}

/// Whether a multiplexer counts rightly what it has sent since the last table.
spec fn paced(m: MuxState, out: Seq<u8>) -> bool {
    &&& m.valid()
    &&& m.since_tables >= 0
    &&& out.len() % 188 == 0
    &&& m.since_tables > 0 ==> m.since_tables == since_table(out)
}

/// What one step comes to: it stays paced, and a buffer that is not empty opens
/// with a table exactly if the tables were due.
spec fn paced_step(m: MuxState, out: Seq<u8>, m1: MuxState, more: Seq<u8>) -> bool {
    &&& paced(m1, out + more)
    &&& more.len() % 188 == 0
    &&& m1.since_tables > 0 <==> m.since_tables > 0 || more.len() > 0
    &&& more.len() > 0 ==> (tables_due(m) <==> is_table(packet(more, 0)))
}

proof fn lemma_unit_paced(m: MuxState, pid: u16, pes: Seq<u8>, pcr: Option<int>, out: Seq<u8>)
    requires
        paced(m, out),
        pes.len() > 0,
        pid == VIDEO_PID || pid == AUDIO_PID,
    ensures
        ({
            let (m0, head) = tables(m);
            let (m1, body) = packetized(m0, pid, pes, 0, pcr);
            &&& paced_step(m, out, m1, head + body)
            &&& (head + body).len() > 0
        }),
{
    lemma_unit_sent(m, pid, pes, pcr, out);
}

proof fn lemma_steps_join(
    m: MuxState,
    out: Seq<u8>,
    m1: MuxState,
    head: Seq<u8>,
    m2: MuxState,
    rest: Seq<u8>,
)
    requires
        paced_step(m, out, m1, head),
        head.len() > 0,
        paced_step(m1, out + head, m2, rest),
    ensures
        paced_step(m, out, m2, head + rest),
{
    assert(out + (head + rest) =~= out + head + rest);
    assert(packet(head + rest, 0) =~= packet(head, 0));
}

#[verifier::spinoff_prover]
#[verifier::rlimit(60)]
proof fn lemma_frame_paced(m: MuxState, pts_us: u64, out: Seq<u8>)
    requires
        paced(m, out),
        m.audio_pending.len() >= SAMPLES_PER_FRAME,
    ensures
        paced_step(m, out, frame_sent(m, pts_us).0, frame_sent(m, pts_us).1),
        frame_sent(m, pts_us).1.len() > 0,
        frame_sent(m, pts_us).0.audio_pending == m.audio_pending.skip(SAMPLES_PER_FRAME as int),
{
    let ma = ready(m, pts_us);
    let pes = frame_pes(m, pts_us);
    assert(paced(ma, out));
    lemma_unit_paced(ma, AUDIO_PID, pes, None, out);
    lemma_packetized_keeps_audio(tables(ma).0, AUDIO_PID, pes, 0, None);
    assert(frame_sent(m, pts_us).1 == tables(ma).1 + packetized(
        tables(ma).0,
        AUDIO_PID,
        pes,
        0,
        None,
    ).1);
}

#[verifier::spinoff_prover]
#[verifier::rlimit(60)]
proof fn lemma_frames_paced(m: MuxState, pts_us: u64, out: Seq<u8>)
    requires
        paced(m, out),
    ensures
        paced_step(m, out, frames_sent(m, pts_us).0, frames_sent(m, pts_us).1),
    decreases m.audio_pending.len(),
{
    if m.audio_pending.len() >= SAMPLES_PER_FRAME {
        lemma_frame_paced(m, pts_us, out);
        let (m1, head) = frame_sent(m, pts_us);
        lemma_frames_paced(m1, pts_us, out + head);
        let (m2, rest) = frames_sent(m1, pts_us);
        lemma_steps_join(m, out, m1, head, m2, rest);
    } else {
        assert(out + Seq::<u8>::empty() =~= out);
    }
}

/// A multiplexer about to send a frame of samples.
spec fn ready(m: MuxState, pts_us: u64) -> MuxState {
    let t = frame_pts(m, pts_us);
    MuxState {
        audio_pending: m.audio_pending.skip(SAMPLES_PER_FRAME as int),
        next_audio_pts_us: Some(
            if t + AUDIO_FRAME_US <= u64::MAX {
                (t + AUDIO_FRAME_US) as u64
            } else {
                u64::MAX
            },
        ),
        ..m
    }
}

/// What is told comes to a step that stays paced, unless the format changes.
#[verifier::spinoff_prover]
#[verifier::rlimit(60)]
proof fn lemma_heeded_paced(m: MuxState, t: Told, out: Seq<u8>)
    requires
        paced(m, out),
        t !is Format,
    ensures
        paced_step(m, out, heeded(m, t).0, heeded(m, t).1),
{
    match t {
        Told::Video(au, pts_us) => {
            let pes = pes_packet(STREAM_ID_VIDEO, au, pts_us, false, 0);
            lemma_unit_paced(m, VIDEO_PID, pes, Some(ticks(pts_us)), out);
        },
        Told::Audio(samples, pts_us) => {
            let mq = audio_queued(m, samples, pts_us);
            assert(paced(mq, out));
            lemma_frames_paced(mq, pts_us, out);
        },
        Told::Format(_, _) => {},
    }
}

#[verifier::spinoff_prover]
#[verifier::rlimit(60)]
proof fn lemma_paced(told: Seq<Told>)
    ensures
        paced(made(told).0, made(told).1),
        announced(told) <==> made(told).0.since_tables > 0,
    decreases told.len(),
{
    if told.len() > 0 {
        let before = told.drop_last();
        lemma_paced(before);
        let (m, out) = made(before);
        let t = told.last();
        if t is Format {
            assert(out + Seq::<u8>::empty() =~= out);
        } else {
            lemma_heeded_paced(m, t, out);
        }
    }
}

/// The tables open what an access unit makes if nothing has named the program
/// yet, or not since the format changed, or forty packets have gone out since;
/// otherwise there is no table in it, and never one anywhere but at its start.
/// It is whole packets, each of which starts as one should.
pub proof fn law_tables_come_when_they_are_due(told: Seq<Told>, au: Seq<u8>, pts_us: u64)
    ensures
        ({
            let (m, out) = made(told);
            opens_rightly(
                video_pushed(m, au, pts_us).1,
                !announced(told) || since_table(out) >= TABLE_INTERVAL_PACKETS,
            )
        }),
{
    lemma_paced(told);
    let (m, out) = made(told);
    let pes = pes_packet(STREAM_ID_VIDEO, au, pts_us, false, 0);
    lemma_unit_sent(m, VIDEO_PID, pes, Some(ticks(pts_us)), out);
}

// ---- audio ----

/// The frame of samples that starts at the `i`th place for one.
pub open spec fn frame_at(all: Seq<i16>, i: int) -> Seq<i16> {
    all.subrange(960 * i, 960 * i + 960)
}

/// Whether audio units are the whole frames of samples, in order.
pub open spec fn are_frames_of(out: Seq<UnitView>, all: Seq<i16>) -> bool {
    &&& out.len() == all.len() / 960
    &&& forall|i: int|
        0 <= i < out.len() ==> (#[trigger] out[i] matches UnitView::Audio { data, .. } && data
            == framed(frame_at(all, i)))
}

#[verifier::opaque]
spec fn tells(out: Seq<UnitView>, all: Seq<i16>) -> bool {
    are_frames_of(out, all)
}

/// The two sides are in step, and no audio is under way.
#[verifier::opaque]
spec fn calm(d: DemuxState, m: MuxState) -> bool {
    follows(d, m) && audio_idle(d)
}

/// A frame put ahead of those that follow it.
#[verifier::spinoff_prover]
#[verifier::rlimit(60)]
proof fn lemma_frames_join(one: UnitView, rest: Seq<UnitView>, pending: Seq<i16>)
    requires
        pending.len() >= 960,
        one matches UnitView::Audio { data, .. } && data == framed(pending.take(960)),
        tells(rest, pending.skip(960)),
    ensures
        tells(seq![one] + rest, pending),
        pending.skip(960).skip(960 * (pending.skip(960).len() as int / 960)) == pending.skip(
            960 * (pending.len() as int / 960),
        ),
{
    reveal(tells);
    let out = seq![one] + rest;
    assert forall|i: int| 0 <= i < out.len() implies (#[trigger] out[i] matches UnitView::Audio {
        data,
        ..
    } && data == framed(frame_at(pending, i))) by {
        if i == 0 {
            assert(frame_at(pending, 0) =~= pending.take(960));
        } else {
            assert(out[i] == rest[i - 1]);
            assert(frame_at(pending, i) =~= frame_at(pending.skip(960), i - 1));
        }
    }
    let k = pending.len() as int / 960;
    assert(pending.skip(960).len() as int / 960 == k - 1);
    assert(pending.skip(960).skip(960 * (k - 1)) =~= pending.skip(960 * k));
}

#[verifier::spinoff_prover]
#[verifier::rlimit(60)]
proof fn lemma_frame_heard(d: DemuxState, m: MuxState, pts_us: u64)
    requires
        calm(d, m),
        m.audio_pending.len() >= 960,
    ensures
        ({
            let (m1, head) = frame_sent(m, pts_us);
            let (d1, out) = feed(d, head);
            &&& head.len() % 188 == 0
            &&& out.len() == 1
            &&& out[0] matches UnitView::Audio { data, .. } && data == framed(
                m.audio_pending.take(960),
            )
            &&& m1.audio_pending == m.audio_pending.skip(960)
            &&& calm(d1, m1)
        }),
{
    reveal(calm);
    assert(SAMPLES_PER_FRAME == 960);
    let ma = ready(m, pts_us);
    lemma_packetized_keeps_audio(tables(ma).0, AUDIO_PID, frame_pes(m, pts_us), 0, None);
    law_audio_frame_survives(d, m, pts_us);
    law_audio_is_whole_packets(m, pts_us);
}

#[verifier::spinoff_prover]
#[verifier::rlimit(60)]
proof fn lemma_frames_heard(d: DemuxState, m: MuxState, pts_us: u64)
    requires
        calm(d, m),
    ensures
        ({
            let (m1, bytes) = frames_sent(m, pts_us);
            let (d1, out) = feed(d, bytes);
            &&& bytes.len() % 188 == 0
            &&& tells(out, m.audio_pending)
            &&& m1.audio_pending == m.audio_pending.skip(960 * (m.audio_pending.len() as int / 960))
            &&& calm(d1, m1)
        }),
    decreases m.audio_pending.len(),
{
    let pending = m.audio_pending;
    assert(SAMPLES_PER_FRAME == 960);
    if pending.len() >= SAMPLES_PER_FRAME {
        let (m1, head) = frame_sent(m, pts_us);
        lemma_frame_heard(d, m, pts_us);
        let (d1, out1) = feed(d, head);
        lemma_frames_heard(d1, m1, pts_us);
        let rest = frames_sent(m1, pts_us).1;
        let out2 = feed(d1, rest).1;
        lemma_feed_concat(d, head, rest);
        assert(out1 =~= seq![out1[0]]);
        lemma_frames_join(out1[0], out2, pending);
        assert(frames_sent(m, pts_us).1 == head + rest);
    } else {
        reveal(tells);
        lemma_feed_none(d);
        assert(pending.skip(0) =~= pending);
    }
}

/// More frames behind those that were there.
#[verifier::spinoff_prover]
#[verifier::rlimit(60)]
proof fn lemma_more_frames(
    out: Seq<UnitView>,
    all: Seq<i16>,
    more: Seq<UnitView>,
    samples: Seq<i16>,
)
    requires
        tells(out, all),
        tells(more, left_over(all) + samples),
    ensures
        tells(out + more, all + samples),
        left_over(left_over(all) + samples) == left_over(all + samples),
{
    reveal(tells);
    let q = all.len() as int / 960;
    let pending = all.skip(960 * q) + samples;
    let whole = all + samples;
    let both = out + more;
    let k = pending.len() as int / 960;
    assert(pending =~= whole.skip(960 * q));
    assert(whole.len() as int / 960 == q + k);
    assert forall|i: int| 0 <= i < both.len() implies (#[trigger] both[i] matches UnitView::Audio {
        data,
        ..
    } && data == framed(frame_at(whole, i))) by {
        if i < q {
            assert(both[i] == out[i]);
            assert(frame_at(whole, i) =~= frame_at(all, i));
        } else {
            assert(both[i] == more[i - q]);
            assert(frame_at(whole, i) =~= frame_at(pending, i - q));
        }
    }
    assert(whole.skip(960 * q).skip(960 * k) =~= whole.skip(960 * (q + k)));
}

/// Samples pushed one after the other, each with a time.
pub open spec fn samples_pushed(pushes: Seq<(Seq<i16>, u64)>) -> (MuxState, Seq<u8>)
    decreases pushes.len(),
{
    if pushes.len() == 0 {
        (MuxState::init(), Seq::empty())
    } else {
        let (m, out) = samples_pushed(pushes.drop_last());
        let (m1, more) = audio_pushed(m, pushes.last().0, pushes.last().1);
        (m1, out + more)
    }
}

/// All samples that were pushed.
pub open spec fn all_samples(pushes: Seq<(Seq<i16>, u64)>) -> Seq<i16>
    decreases pushes.len(),
{
    if pushes.len() == 0 {
        Seq::empty()
    } else {
        all_samples(pushes.drop_last()) + pushes.last().0
    }
}

/// The samples in audio units, as bytes, one unit after the other.
pub open spec fn sound(units: Seq<UnitView>) -> Seq<u8>
    decreases units.len(),
{
    if units.len() == 0 {
        Seq::empty()
    } else {
        sound(units.drop_last()) + (match units.last() {
            UnitView::Audio { data, .. } => unframed(data),
            UnitView::Video { .. } => Seq::empty(),
        })
    }
}

proof fn lemma_samples_concat(a: Seq<i16>, b: Seq<i16>)
    ensures
        sample_bytes(a + b) == sample_bytes(a) + sample_bytes(b),
    decreases b.len(),
{
    if b.len() == 0 {
        assert(a + b =~= a);
        assert(sample_bytes(a) + sample_bytes(b) =~= sample_bytes(a));
    } else {
        assert((a + b).drop_last() =~= a + b.drop_last());
        lemma_samples_concat(a, b.drop_last());
        assert(sample_bytes(a + b) =~= sample_bytes(a) + sample_bytes(b));
    }
}

#[verifier::spinoff_prover]
#[verifier::rlimit(60)]
proof fn lemma_sound_of_frames(units: Seq<UnitView>, all: Seq<i16>)
    requires
        units.len() <= all.len() / 960,
        forall|i: int|
            0 <= i < units.len() ==> (#[trigger] units[i] matches UnitView::Audio { data, .. }
                && data == framed(frame_at(all, i))),
    ensures
        sound(units) == sample_bytes(all.take(960 * units.len() as int)),
    decreases units.len(),
{
    if units.len() == 0 {
        assert(all.take(0) =~= Seq::<i16>::empty());
    } else {
        let less = units.drop_last();
        assert forall|i: int| 0 <= i < less.len() implies (#[trigger] less[i] matches UnitView::Audio {
            data,
            ..
        } && data == framed(frame_at(all, i))) by {
            assert(less[i] == units[i]);
        }
        lemma_sound_of_frames(less, all);
        let k = less.len() as int;
        assert(units[k] == units.last());
        law_frame_round_trips(frame_at(all, k));
        lemma_samples_concat(all.take(960 * k), frame_at(all, k));
        assert(all.take(960 * k) + frame_at(all, k) =~= all.take(960 * units.len() as int));
    }
}

/// What is left of samples once whole frames are taken off them.
pub open spec fn left_over(all: Seq<i16>) -> Seq<i16> {
    all.skip(960 * (all.len() as int / 960))
}

/// What more bytes come to on the other side: the whole frames of these samples.
#[verifier::opaque]
spec fn brings(d: DemuxState, bytes: Seq<u8>, m1: MuxState, pending: Seq<i16>) -> bool {
    let (d1, out) = feed(d, bytes);
    &&& bytes.len() % 188 == 0
    &&& tells(out, pending)
    &&& m1.audio_pending == left_over(pending)
    &&& calm(d1, m1)
}

/// More samples pushed to one side are heard on the other.
#[verifier::spinoff_prover]
#[verifier::rlimit(60)]
proof fn lemma_push_heard(d: DemuxState, m: MuxState, samples: Seq<i16>, pts_us: u64)
    requires
        calm(d, m),
    ensures
        brings(
            d,
            audio_pushed(m, samples, pts_us).1,
            audio_pushed(m, samples, pts_us).0,
            m.audio_pending + samples,
        ),
{
    reveal(brings);
    let mq = audio_queued(m, samples, pts_us);
    assert(calm(d, mq)) by {
        reveal(calm);
    }
    lemma_frames_heard(d, mq, pts_us);
}

proof fn lemma_nothing_heard()
    ensures
        brings(DemuxState::init(), Seq::empty(), MuxState::init(), Seq::empty()),
{
    reveal(brings);
    reveal(calm);
    reveal(tells);
    lemma_feed_none(DemuxState::init());
    assert(Seq::<i16>::empty().skip(0) =~= Seq::<i16>::empty());
}

#[verifier::spinoff_prover]
#[verifier::rlimit(60)]
proof fn lemma_more_heard(
    d: DemuxState,
    bytes: Seq<u8>,
    m: MuxState,
    all: Seq<i16>,
    more: Seq<u8>,
    m1: MuxState,
    samples: Seq<i16>,
)
    requires
        brings(d, bytes, m, all),
        brings(feed(d, bytes).0, more, m1, m.audio_pending + samples),
    ensures
        brings(d, bytes + more, m1, all + samples),
{
    reveal(brings);
    let (d1, out) = feed(d, bytes);
    lemma_feed_concat(d, bytes, more);
    lemma_more_frames(out, all, feed(d1, more).1, samples);
}

#[verifier::spinoff_prover]
#[verifier::rlimit(60)]
proof fn lemma_samples_heard(pushes: Seq<(Seq<i16>, u64)>)
    ensures
        brings(
            DemuxState::init(),
            samples_pushed(pushes).1,
            samples_pushed(pushes).0,
            all_samples(pushes),
        ),
    decreases pushes.len(),
{
    if pushes.len() == 0 {
        lemma_nothing_heard();
    } else {
        let before = pushes.drop_last();
        lemma_samples_heard(before);
        let (m, bytes) = samples_pushed(before);
        let (samples, pts_us) = pushes.last();
        let d = feed(DemuxState::init(), bytes).0;
        assert(calm(d, m)) by {
            reveal(brings);
        }
        lemma_push_heard(d, m, samples, pts_us);
        let (m1, more) = audio_pushed(m, samples, pts_us);
        lemma_more_heard(
            DemuxState::init(),
            bytes,
            m,
            all_samples(before),
            more,
            m1,
            samples,
        );
    }
}

/// However samples are cut into pushes, the other side hears the same: every
/// whole frame of them, in order, and nothing else. What does not fill a frame is
/// kept for the next push.
#[verifier::spinoff_prover]
#[verifier::rlimit(60)]
pub proof fn law_the_cut_of_samples_does_not_matter(pushes: Seq<(Seq<i16>, u64)>)
    ensures
        ({
            let (m, bytes) = samples_pushed(pushes);
            let (d, out) = feed(DemuxState::init(), bytes);
            let all = all_samples(pushes);
            let whole = 960 * (all.len() as int / 960);
            &&& are_frames_of(out, all)
            &&& sound(out) == sample_bytes(all.take(whole))
            &&& m.audio_pending == all.skip(whole)
        }),
{
    lemma_samples_heard(pushes);
    reveal(brings);
    reveal(tells);
    let out = feed(DemuxState::init(), samples_pushed(pushes).1).1;
    lemma_sound_of_frames(out, all_samples(pushes));
}

} // verus!
