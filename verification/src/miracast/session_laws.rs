//! What holds of a sink session, and of the way from a source to it.
use vstd::prelude::*;
use crate::miracast::rtp::{law_in_order_passes_through, next_seq, PacketView, ReorderState};
use crate::miracast::rtsp;
use crate::miracast::rtsp::{handled, ActionView, Parsed};
use crate::miracast::rtsp_laws::{law_a_message_takes_bytes, law_later_bytes_change_nothing};
use crate::miracast::session::{
    acted, acted_from, drained, fed_from, lemma_acting_keeps_the_rest, losses, media_received,
    message_handled, received, unit_events, SessionState, SinkEventView,
};
use crate::miracast::source::round_trip::{
    follows, heard_pts, law_access_unit_survives, law_video_is_whole_packets,
    law_video_reaches_the_demultiplexer, lemma_feed_concat,
};
use crate::miracast::source::rtp_pack::{
    datagram, datagrams, law_datagram_parses, GROUP_LEN, PAYLOAD_TYPE,
};
use crate::miracast::source::ts_mux::{video_pushed, MuxState};
use crate::miracast::ts::{feed, step, DemuxState, UnitView, PACKET_LEN};
use crate::time::Instant;

verus! {

// ---- the control connection ----

/// Acting does not depend on what is in the control buffer.
proof fn lemma_acting_ignores_the_buffer(s: SessionState, buf: Seq<u8>, acts: Seq<ActionView>, i: int)
    ensures
        acted_from(SessionState { rtsp_buf: buf, ..s }, acts, i) == (
            SessionState { rtsp_buf: buf, ..acted_from(s, acts, i).0 },
            acted_from(s, acts, i).1,
        ),
    decreases acts.len() - i,
{
    if i < acts.len() {
        let t = SessionState { rtsp_buf: buf, ..s };
        assert(acted(t, acts[i]).0 == (SessionState { rtsp_buf: buf, ..acted(s, acts[i]).0 }));
        lemma_acting_ignores_the_buffer(acted(s, acts[i]).0, buf, acts, i + 1);
    }
}

/// Whether the control buffer holds nothing malformed, as far as it can be
/// read.
pub open spec fn well_formed(s: SessionState, now: Instant) -> bool
    decreases s.rtsp_buf.len(),
{
    match rtsp::parsed(s.rtsp_buf) {
        Parsed::More => true,
        Parsed::Bad(_) => false,
        Parsed::Done(m, n) => {
            let t = message_handled(
                SessionState { rtsp_buf: s.rtsp_buf.skip(n), ..s },
                m,
                now,
            ).0;
            proof {
                law_a_message_takes_bytes(s.rtsp_buf);
                lemma_acting_keeps_the_rest(
                    SessionState {
                        negotiation: handled(s.negotiation, m, now).0,
                        rtsp_buf: s.rtsp_buf.skip(n),
                        ..s
                    },
                    handled(s.negotiation, m, now).1,
                    0,
                );
            }
            well_formed(t, now)
        },
    }
}

proof fn lemma_drained_in_two(s: SessionState, more: Seq<u8>, now: Instant)
    requires
        well_formed(s, now),
    ensures
        ({
            let (t, out) = drained(s, now);
            let (u, rest) = drained(SessionState { rtsp_buf: t.rtsp_buf + more, ..t }, now);
            drained(SessionState { rtsp_buf: s.rtsp_buf + more, ..s }, now) == (u, out + rest)
        }),
    decreases s.rtsp_buf.len(),
{
    let b = s.rtsp_buf;
    let s2 = SessionState { rtsp_buf: b + more, ..s };
    match rtsp::parsed(b) {
        Parsed::More => {
            let (u, rest) = drained(s2, now);
            assert(Seq::<SinkEventView>::empty() + rest =~= rest);
        },
        Parsed::Bad(_) => {},
        Parsed::Done(m, n) => {
            law_a_message_takes_bytes(b);
            law_later_bytes_change_nothing(b, more);
            let (ns, acts) = handled(s.negotiation, m, now);
            let x = SessionState { negotiation: ns, rtsp_buf: b.skip(n), ..s };
            lemma_acting_keeps_the_rest(x, acts, 0);
            assert((b + more).skip(n) =~= b.skip(n) + more);
            lemma_acting_ignores_the_buffer(x, b.skip(n) + more, acts, 0);
            let (t, out) = acted_from(x, acts, 0);
            lemma_drained_in_two(t, more, now);
            let (t1, out1) = drained(t, now);
            let (u, rest) = drained(SessionState { rtsp_buf: t1.rtsp_buf + more, ..t1 }, now);
            assert(out + (out1 + rest) =~= (out + out1) + rest);
        },
    }
}

/// How the bytes of the control connection are cut into reads does not matter:
/// reading them in two parts leads to the same state and the same events as
/// reading them at once. The first part must not hold a malformed message,
/// because that ends the session and what follows it is not looked at.
pub proof fn law_reads_may_be_split(s: SessionState, a: Seq<u8>, b: Seq<u8>, now: Instant)
    requires
        well_formed(SessionState { rtsp_buf: s.rtsp_buf + a, ..s }, now),
    ensures
        ({
            let (t, out) = received(s, a, now);
            let (u, rest) = received(t, b, now);
            received(s, a + b, now) == (u, out + rest)
        }),
{
    assert(s.rtsp_buf + (a + b) =~= (s.rtsp_buf + a) + b);
    lemma_drained_in_two(SessionState { rtsp_buf: s.rtsp_buf + a, ..s }, b, now);
}

/// A malformed message ends the session and empties the buffer, so that nothing
/// loops on it.
pub proof fn law_a_malformed_message_ends_the_session(s: SessionState, bytes: Seq<u8>, now: Instant)
    requires
        rtsp::parsed(s.rtsp_buf + bytes) is Bad,
    ensures
        received(s, bytes, now).1 == seq![SinkEventView::Ended("malformed RTSP"@)],
        received(s, bytes, now).0.rtsp_buf.len() == 0,
{
}

// ---- the media path ----

/// Media before the stream plays is ignored.
pub proof fn law_media_before_play_is_ignored(s: SessionState, datagram: Seq<u8>, now: Instant)
    requires
        !s.playing,
    ensures
        media_received(s, datagram, now) == (s, Seq::<SinkEventView>::empty()),
{
}

/// What the datagrams from `i` on come to.
pub open spec fn all_received(s: SessionState, ds: Seq<Seq<u8>>, i: int, now: Instant) -> (
    SessionState,
    Seq<SinkEventView>,
)
    decreases ds.len() - i,
{
    if i >= ds.len() {
        (s, Seq::empty())
    } else {
        let (t, out) = media_received(s, ds[i], now);
        let (u, more) = all_received(t, ds, i + 1, now);
        (u, out + more)
    }
}

/// How many of the transport packets break the continuity of their stream.
pub open spec fn breaks(d: DemuxState, bytes: Seq<u8>) -> nat
    decreases bytes.len(),
{
    if bytes.len() < PACKET_LEN {
        0
    } else {
        let e = step(d, bytes.take(PACKET_LEN as int)).0;
        (if e.continuity_errors == d.continuity_errors {
            0nat
        } else {
            1nat
        }) + breaks(e, bytes.skip(PACKET_LEN as int))
    }
}

/// The number of values of a 64-bit counter.
pub open spec fn modulus() -> int {
    0x1_0000_0000_0000_0000
}

proof fn lemma_breaks_are_counted(d: DemuxState, bytes: Seq<u8>)
    ensures
        feed(d, bytes).0.continuity_errors == (d.continuity_errors + breaks(d, bytes)) % modulus(),
        breaks(d, bytes) <= bytes.len(),
    decreases bytes.len(),
{
    if bytes.len() >= PACKET_LEN {
        let e = step(d, bytes.take(PACKET_LEN as int)).0;
        let rest = bytes.skip(PACKET_LEN as int);
        lemma_breaks_are_counted(e, rest);
        let k = breaks(e, rest);
        let c = d.continuity_errors as int;
        if e.continuity_errors != d.continuity_errors {
            assert(e.continuity_errors == (c + 1) % modulus());
            assert(((c + 1) % modulus() + k) % modulus() == (c + 1 + k) % modulus()) by {
                vstd::arithmetic::div_mod::lemma_add_mod_noop(c + 1, k as int, modulus());
                vstd::arithmetic::div_mod::lemma_mod_twice(c + 1, modulus());
                vstd::arithmetic::div_mod::lemma_add_mod_noop(
                    (c + 1) % modulus(),
                    k as int,
                    modulus(),
                );
            }
        }
    }
}

proof fn lemma_breaks_concat(d: DemuxState, a: Seq<u8>, b: Seq<u8>)
    requires
        a.len() % (PACKET_LEN as nat) == 0,
    ensures
        breaks(d, a + b) == breaks(d, a) + breaks(feed(d, a).0, b),
    decreases a.len(),
{
    if a.len() == 0 {
        assert(a + b =~= b);
    } else {
        assert(a.len() >= PACKET_LEN);
        let p = a.take(PACKET_LEN as int);
        let rest = a.skip(PACKET_LEN as int);
        assert((a + b).take(PACKET_LEN as int) =~= p);
        assert((a + b).skip(PACKET_LEN as int) =~= rest + b);
        lemma_breaks_concat(step(d, p).0, rest, b);
    }
}

/// The sequence number `n` places on.
pub open spec fn seq_after(sequence: u16, n: nat) -> u16 {
    ((sequence + n) % 65536) as u16
}

/// One datagram in its turn, whose packets break nothing, hands on its units.
proof fn lemma_one_datagram(
    s: SessionState,
    group: Seq<u8>,
    sequence: u16,
    timestamp: u32,
    ssrc: u32,
    now: Instant,
)
    requires
        s.playing,
        s.reorder.held.len() == 0,
        s.reorder.next == None::<u16> || s.reorder.next == Some(sequence),
        losses(s) <= s.lost_at_last_check,
        feed(s.demux, group).0.continuity_errors == s.demux.continuity_errors,
    ensures
        media_received(s, datagram(sequence, timestamp, ssrc, group), now) == (
            SessionState {
                demux: feed(s.demux, group).0,
                reorder: ReorderState { next: Some(next_seq(sequence)), ..s.reorder },
                ..s
            },
            unit_events(feed(s.demux, group).1),
        ),
{
    law_datagram_parses(sequence, timestamp, ssrc, group);
    let p = PacketView { sequence, timestamp, payload_type: PAYLOAD_TYPE, payload: group };
    law_in_order_passes_through(s.reorder, p);
    let ps = seq![p];
    let (d1, us) = feed(s.demux, group);
    assert(fed_from(d1, ps, 1) == (d1, Seq::<SinkEventView>::empty()));
    assert(unit_events(us) + Seq::<SinkEventView>::empty() =~= unit_events(us));
    assert(fed_from(s.demux, ps, 0) == (d1, unit_events(us)));
}

proof fn lemma_seq_after(sequence: u16, n: nat)
    ensures
        seq_after(next_seq(sequence), n) == seq_after(sequence, n + 1),
{
    assert(next_seq(sequence) == (sequence + 1) % 65536);
}

proof fn lemma_stream_passes(
    s: SessionState,
    ts: Seq<u8>,
    i: int,
    sequence: u16,
    timestamp: u32,
    ssrc: u32,
    now: Instant,
)
    requires
        s.playing,
        s.reorder.held.len() == 0,
        s.reorder.next == None::<u16> || s.reorder.next == Some(sequence),
        losses(s) <= s.lost_at_last_check,
        0 <= i <= ts.len(),
        i % (PACKET_LEN as int) == 0,
        ts.len() % (PACKET_LEN as nat) == 0,
        breaks(s.demux, ts.subrange(i, ts.len() as int)) == 0,
    ensures
        ({
            let ds = datagrams(ts, i, sequence, timestamp, ssrc);
            let (t, out) = all_received(s, ds, 0, now);
            let (d, us) = feed(s.demux, ts.subrange(i, ts.len() as int));
            &&& out == unit_events(us)
            &&& t == (SessionState {
                demux: d,
                reorder: ReorderState {
                    next: if ds.len() == 0 {
                        s.reorder.next
                    } else {
                        Some(seq_after(sequence, ds.len()))
                    },
                    ..s.reorder
                },
                ..s
            })
            &&& d.continuity_errors == s.demux.continuity_errors
        }),
    decreases ts.len() - i,
{
    let rest = ts.subrange(i, ts.len() as int);
    let ds = datagrams(ts, i, sequence, timestamp, ssrc);
    if i == ts.len() {
        assert(feed(s.demux, rest) == (s.demux, Seq::<UnitView>::empty()));
        assert(all_received(s, ds, 0, now) == (s, Seq::<SinkEventView>::empty()));
        assert(unit_events(Seq::empty()) =~= Seq::<SinkEventView>::empty());
    } else {
        let end = group_end(ts, i);
        let group = ts.subrange(i, end);
        let tail = ts.subrange(end, ts.len() as int);
        lemma_group(s.demux, ts, i);
        lemma_one_datagram(s, group, sequence, timestamp, ssrc, now);
        let d1 = feed(s.demux, group).0;
        let t = SessionState {
            demux: d1,
            reorder: ReorderState { next: Some(next_seq(sequence)), ..s.reorder },
            ..s
        };
        let first = datagram(sequence, timestamp, ssrc, group);
        lemma_stream_passes(t, ts, end, next_seq(sequence), timestamp, ssrc, now);
        let ds1 = datagrams(ts, end, next_seq(sequence), timestamp, ssrc);
        assert(ds == seq![first] + ds1);
        assert(ds[0] == first);
        lemma_received_shift(t, ds, 1, ds1, 0, now);
        lemma_unit_events_concat(feed(s.demux, group).1, feed(d1, tail).1);
        lemma_seq_after(sequence, ds1.len());
        assert(all_received(s, ds, 0, now) == (
            all_received(t, ds1, 0, now).0,
            unit_events(feed(s.demux, group).1) + all_received(t, ds1, 0, now).1,
        ));
        assert(ds1.len() == 0 ==> seq_after(sequence, 1) == next_seq(sequence));
    }
}

/// Where the group of transport packets that begins at `i` ends.
pub open spec fn group_end(ts: Seq<u8>, i: int) -> int {
    if i + GROUP_LEN < ts.len() {
        i + GROUP_LEN
    } else {
        ts.len() as int
    }
}

/// A group and what follows it, when nothing is broken in either.
proof fn lemma_group(d: DemuxState, ts: Seq<u8>, i: int)
    requires
        0 <= i < ts.len(),
        i % (PACKET_LEN as int) == 0,
        ts.len() % (PACKET_LEN as nat) == 0,
        breaks(d, ts.subrange(i, ts.len() as int)) == 0,
    ensures
        ({
            let end = group_end(ts, i);
            let group = ts.subrange(i, end);
            let tail = ts.subrange(end, ts.len() as int);
            let rest = ts.subrange(i, ts.len() as int);
            let d1 = feed(d, group).0;
            &&& i < end <= ts.len()
            &&& end % (PACKET_LEN as int) == 0
            &&& d1.continuity_errors == d.continuity_errors
            &&& breaks(d1, tail) == 0
            &&& feed(d, rest).0 == feed(d1, tail).0
            &&& feed(d, rest).1 == feed(d, group).1 + feed(d1, tail).1
        }),
{
    let end = group_end(ts, i);
    let group = ts.subrange(i, end);
    let tail = ts.subrange(end, ts.len() as int);
    assert(GROUP_LEN == 7 * 188);
    assert(end % 188 == 0);
    assert(group.len() == end - i);
    assert(group.len() % 188 == 0);
    assert(ts.subrange(i, ts.len() as int) =~= group + tail);
    lemma_breaks_concat(d, group, tail);
    lemma_breaks_are_counted(d, group);
    lemma_feed_concat(d, group, tail);
}

proof fn lemma_unit_events_concat(a: Seq<UnitView>, b: Seq<UnitView>)
    ensures
        unit_events(a + b) == unit_events(a) + unit_events(b),
{
    assert(unit_events(a + b) =~= unit_events(a) + unit_events(b));
}

proof fn lemma_received_shift(
    s: SessionState,
    a: Seq<Seq<u8>>,
    i: int,
    b: Seq<Seq<u8>>,
    j: int,
    now: Instant,
)
    requires
        0 <= i,
        0 <= j,
        a.len() - i == b.len() - j,
        forall|k: int| 0 <= k < b.len() - j ==> a[i + k] == #[trigger] b[j + k],
    ensures
        all_received(s, a, i, now) == all_received(s, b, j, now),
    decreases a.len() - i,
{
    if i < a.len() {
        assert(a[i + 0] == b[j + 0]);
        let t = media_received(s, a[i], now).0;
        assert forall|k: int| 0 <= k < b.len() - (j + 1) implies a[i + 1 + k] == #[trigger] b[j + 1
            + k] by {
            assert(a[i + (k + 1)] == b[j + (k + 1)]);
        }
        lemma_received_shift(t, a, i + 1, b, j + 1, now);
    }
}

/// A transport stream that is sent as datagrams, each received once and in
/// order by a session that is playing, comes out as exactly the units that the
/// stream holds, with no keyframe asked for: cutting the stream into datagrams
/// and putting them back changes nothing. The stream must have no break in its
/// own counters.
pub proof fn law_a_stream_passes_through(
    s: SessionState,
    ts: Seq<u8>,
    sequence: u16,
    timestamp: u32,
    ssrc: u32,
    now: Instant,
)
    requires
        s.playing,
        s.reorder.held.len() == 0,
        s.reorder.next == None::<u16> || s.reorder.next == Some(sequence),
        losses(s) <= s.lost_at_last_check,
        ts.len() % (PACKET_LEN as nat) == 0,
        ts.len() <= usize::MAX,
        feed(s.demux, ts).0.continuity_errors == s.demux.continuity_errors,
    ensures
        ({
            let ds = datagrams(ts, 0, sequence, timestamp, ssrc);
            let (t, out) = all_received(s, ds, 0, now);
            &&& out == unit_events(feed(s.demux, ts).1)
            &&& t.demux == feed(s.demux, ts).0
            &&& t.playing
            &&& t.reorder.held.len() == 0
            &&& t.reorder.next == if ds.len() == 0 {
                s.reorder.next
            } else {
                Some(seq_after(sequence, ds.len()))
            }
            &&& losses(t) <= t.lost_at_last_check
        }),
{
    assert(ts.subrange(0, ts.len() as int) =~= ts);
    lemma_breaks_are_counted(s.demux, ts);
    let c = s.demux.continuity_errors as int;
    let k = breaks(s.demux, ts) as int;
    assert(k == 0) by {
        assert((c + k) % modulus() == c);
        assert(0 <= c < modulus() && 0 <= k < modulus());
        if c + k >= modulus() {
            assert((c + k) % modulus() == c + k - modulus()) by {
                vstd::arithmetic::div_mod::lemma_fundamental_div_mod_converse(
                    c + k,
                    modulus(),
                    1,
                    c + k - modulus(),
                );
            }
        } else {
            vstd::arithmetic::div_mod::lemma_small_mod((c + k) as nat, modulus() as nat);
        }
    }
    lemma_stream_passes(s, ts, 0, sequence, timestamp, ssrc, now);
}

/// A picture reaches the decoder: when the source multiplexes two access units
/// and sends them as datagrams that all arrive in order, the sink hands on the
/// first, byte for byte and with its time, as soon as the second one begins.
pub proof fn law_a_picture_reaches_the_decoder(
    s: SessionState,
    m: MuxState,
    first: Seq<u8>,
    first_pts: u64,
    second: Seq<u8>,
    second_pts: u64,
    sequence: u16,
    ssrc: u32,
    stamps: (u32, u32),
    now: Instant,
)
    requires
        s.playing,
        s.reorder.held.len() == 0,
        s.reorder.next == None::<u16> || s.reorder.next == Some(sequence),
        losses(s) <= s.lost_at_last_check,
        follows(s.demux, m),
        first.len() > 0,
        video_pushed(m, first, first_pts).1.len() <= usize::MAX,
        video_pushed(video_pushed(m, first, first_pts).0, second, second_pts).1.len()
            <= usize::MAX,
    ensures
        ({
            let (m1, bytes1) = video_pushed(m, first, first_pts);
            let (m2, bytes2) = video_pushed(m1, second, second_pts);
            let ds1 = datagrams(bytes1, 0, sequence, stamps.0, ssrc);
            let ds2 = datagrams(bytes2, 0, seq_after(sequence, ds1.len()), stamps.1, ssrc);
            let (t, out1) = all_received(s, ds1, 0, now);
            let (u, out2) = all_received(t, ds2, 0, now);
            out2 == seq![
                SinkEventView::Video { data: first, pts_us: Some(heard_pts(first_pts)) },
            ]
        }),
{
    let (m1, bytes1) = video_pushed(m, first, first_pts);
    let (m2, bytes2) = video_pushed(m1, second, second_pts);
    law_video_is_whole_packets(m, first, first_pts);
    law_video_is_whole_packets(m1, second, second_pts);
    law_video_reaches_the_demultiplexer(s.demux, m, first, first_pts);
    law_access_unit_survives(s.demux, m, first, first_pts, second, second_pts);
    law_a_stream_passes_through(s, bytes1, sequence, stamps.0, ssrc, now);
    let ds1 = datagrams(bytes1, 0, sequence, stamps.0, ssrc);
    let t = all_received(s, ds1, 0, now).0;
    assert(ds1.len() > 0 || bytes1.len() == 0);
    if bytes1.len() == 0 {
        // No bytes would leave the demultiplexer as it was, with nothing open.
        assert(feed(s.demux, bytes1) == (s.demux, Seq::<UnitView>::empty()));
        assert(seq_after(sequence, 0) == sequence);
    }
    law_a_stream_passes_through(
        t,
        bytes2,
        seq_after(sequence, ds1.len()),
        stamps.1,
        ssrc,
        now,
    );
    let out2 = all_received(
        t,
        datagrams(bytes2, 0, seq_after(sequence, ds1.len()), stamps.1, ssrc),
        0,
        now,
    ).1;
    assert(out2 =~= seq![
        SinkEventView::Video { data: first, pts_us: Some(heard_pts(first_pts)) },
    ]);
}

} // verus!
