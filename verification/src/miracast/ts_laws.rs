//! What is read out of a transport stream that is not as it should be, and of one
//! that is.
use vstd::prelude::*;
use crate::miracast::ts::{
    counter, is_start, learn_pat, learn_pmt, media, note_counter, payload_start, pes, pid_at,
    section, step, streams, ticks_at, AssemblyState, DemuxState, RawUnit, UnitView,
};

verus! {

/// A packet carries something exactly if it is 188 bytes from a sync byte on and
/// says so; it starts behind the header, and behind the adaptation field where
/// there is one that leaves room.
pub proof fn law_where_a_payload_starts(p: Seq<u8>)
    ensures
        ({
            let fit = p.len() == 188 && p[0] == 0x47;
            let kind = p[3] / 16 % 4;
            &&& !fit || kind == 0 || kind == 2 ==> payload_start(p) is None
            &&& fit && kind == 1 ==> payload_start(p) == Some(4int)
            &&& fit && kind == 3 && p[4] <= 182 ==> payload_start(p) == Some(5 + p[4])
            &&& fit && kind == 3 && p[4] > 182 ==> payload_start(p) is None
        }),
{
}

/// The other fields of the header: the start flag is the second bit, the
/// identifier the thirteen after the third, the counter the last four.
pub proof fn law_the_fields_of_a_header(p: Seq<u8>)
    ensures
        is_start(p) <==> 64 <= p[1] % 128,
        pid_at(p, 1) == (256 * p[1] + p[2]) % 8192,
        counter(p) == p[3] % 16,
{
}

/// A PES has a head if it begins with the start code and holds as many further
/// bytes as its ninth says. Its time counts if it is flagged and those bytes hold
/// it; its length counts the head from the seventh byte on, and zero, like one
/// that is too small for the head, declares nothing.
pub proof fn law_what_a_pes_says(p: Seq<u8>)
    ensures
        ({
            let there = p.len() >= 9 && p[0] == 0 && p[1] == 0 && p[2] == 1 && p.len() >= 9 + p[8];
            let declared = 256 * p[4] + p[5];
            &&& pes(p) is Some <==> there
            &&& there ==> pes(p)->0.body == p.skip(9 + p[8])
            &&& there ==> (pes(p)->0.pts_us is Some <==> p[7] >= 128 && p[8] >= 5)
            &&& there && declared >= 3 + p[8] ==> pes(p)->0.payload_len == Some(
                (declared - 3 - p[8]) as nat,
            )
            &&& there && declared < 3 + p[8] ==> pes(p)->0.payload_len is None
        }),
{
    if p.len() >= 9 && p[0] == 0 && p[1] == 0 && p[2] == 1 && p.len() >= 9 + p[8] {
        assert(p.subrange(9 + p[8], p.len() as int) =~= p.skip(9 + p[8]));
    }
}

/// The time of a PES is its 33 bits of ticks, nine hundredths of a microsecond
/// each, cut to whole microseconds.
pub proof fn law_the_time_of_a_pes(p: Seq<u8>)
    requires
        pes(p) is Some,
        pes(p)->0.pts_us is Some,
    ensures
        ({
            let t = (p[9] / 2 % 8) * 0x4000_0000 + (256 * p[10] + p[11]) / 2 * 0x8000 + (256 * p[12]
                + p[13]) / 2;
            let us = pes(p)->0.pts_us->0;
            9 * us <= 100 * t < 9 * (us + 1)
        }),
{
    let t = ticks_at(p, 9);
    assert((256 * p[10] + p[11]) / 2 * 0x8000 == p[10] * 0x40_0000 + p[11] / 2 % 128 * 0x8000);
    assert((256 * p[12] + p[13]) / 2 == p[12] * 128 + p[13] / 2);
    assert(0 <= t < 0x2_0000_0000);
    assert(t * 1_000_000 / 90_000 == t * 100 / 9);
}

// ---- units ----

/// A unit under assembly takes what comes, up to its declared length if it has
/// one.
pub proof fn law_a_unit_takes_what_it_declared(a: AssemblyState, bytes: Seq<u8>)
    ensures
        ({
            let b = a.append(bytes);
            &&& a.expected is None ==> b.data == a.data + bytes
            &&& a.expected matches Some(n) ==> {
                &&& a.data.len() + bytes.len() <= n ==> b.data == a.data + bytes
                &&& a.data.len() <= n < a.data.len() + bytes.len() ==> b.data == a.data
                    + bytes.take(n - a.data.len()) && b.data.len() == n
                &&& a.data.len() > n ==> b.data == a.data
            }
            &&& b == (AssemblyState { data: b.data, ..a })
        }),
{
    let b = a.append(bytes);
    assert(bytes.take(bytes.len() as int) =~= bytes);
    assert(a.data + bytes.take(0) =~= a.data);
}

/// A new start ends the unit before it, which comes out if it is whole: opened by
/// a start of its own, undamaged and not empty. Nothing else of it does.
pub proof fn law_what_a_start_ends(a: AssemblyState, payload: Seq<u8>)
    ensures
        ({
            let (b, out) = media(a, true, payload);
            let sound = a.open && !a.damaged && a.data.len() > 0;
            let old_unit = RawUnit { data: a.data, pts_us: a.pts_us };
            &&& sound ==> out.len() >= 1 && out[0] == old_unit
            &&& pes(payload) is None ==> !b.open && b.damaged && b.data.len() == 0 && out.len() == (
            if sound {
                1int
            } else {
                0
            })
            &&& pes(payload) matches Some(h) ==> {
                &&& h.payload_len is None ==> b.open && !b.damaged && b.data == h.body && b.pts_us
                    == h.pts_us && out.len() == (if sound {
                    1int
                } else {
                    0
                })
                &&& h.payload_len matches Some(n) ==> h.body.len() < n ==> b.open && !b.damaged
                    && b.data == h.body && b.pts_us == h.pts_us && b.expected == Some(n)
                    && out.len() == (if sound {
                    1int
                } else {
                    0
                })
                &&& h.payload_len matches Some(n) ==> h.body.len() >= n ==> !b.open && out.len() > 0
                    && out.last() == (RawUnit { data: h.body.take(n as int), pts_us: h.pts_us })
                    && out.len() == (if sound {
                    2int
                } else {
                    1
                })
            }
        }),
{
    if let Some(h) = pes(payload) {
        let fresh = AssemblyState {
            data: Seq::empty(),
            pts_us: h.pts_us,
            damaged: false,
            open: true,
            expected: h.payload_len,
        };
        law_a_unit_takes_what_it_declared(fresh, h.body);
        assert(Seq::<u8>::empty() + h.body =~= h.body);
        if let Some(n) = h.payload_len {
            if n <= h.body.len() {
                assert(Seq::<u8>::empty() + h.body.take(n as int) =~= h.body.take(n as int));
                assert(h.body.take(h.body.len() as int) =~= h.body);
            }
        }
    }
}

/// What follows a start is added to the unit, which comes out once it has all that
/// it declared, unless it is damaged; what follows no start is left alone.
pub proof fn law_what_continues_a_unit(a: AssemblyState, payload: Seq<u8>)
    ensures
        ({
            let (b, out) = media(a, false, payload);
            let c = a.append(payload);
            let done = a.expected matches Some(n) && c.data.len() >= n;
            &&& !a.open ==> b == a && out.len() == 0
            &&& a.open && (a.damaged || !done) ==> b == c && out.len() == 0
            &&& a.open && !a.damaged && done ==> !b.open && b.data.len() == 0 && out == seq![
                RawUnit { data: c.data, pts_us: a.pts_us },
            ]
        }),
{
}

// ---- losses ----

/// A counter that does not follow the last one on its identifier, going round at
/// sixteen, is a loss: it is counted, and the unit under assembly there is
/// damaged. The first on an identifier follows anything.
pub proof fn law_a_lost_packet_is_noticed(d: DemuxState, pid: u16, cc: u8)
    ensures
        ({
            let e = note_counter(d, pid, cc);
            let follows = !d.last_cc.contains_key(pid) || cc == (d.last_cc[pid] + 1) % 16;
            let video = d.video_pid == Some(pid);
            let audio = !video && d.audio_pid == Some(pid);
            &&& e.last_cc == d.last_cc.insert(pid, cc)
            &&& follows ==> e.continuity_errors == d.continuity_errors && e.video == d.video
                && e.audio == d.audio
            &&& !follows && d.continuity_errors < u64::MAX ==> e.continuity_errors
                == d.continuity_errors + 1
            &&& !follows ==> e.video.damaged == (video || d.video.damaged) && e.audio.damaged == (
            audio || d.audio.damaged)
            &&& e.video.data == d.video.data && e.audio.data == d.audio.data
            &&& e.video.open == d.video.open && e.audio.open == d.audio.open
            &&& e.pmt_pid == d.pmt_pid && e.video_pid == d.video_pid && e.audio_pid == d.audio_pid
        }),
{
}

/// A unit that a loss has damaged never comes out, whatever follows.
pub proof fn law_a_damaged_unit_never_comes_out(a: AssemblyState, start: bool, payload: Seq<u8>)
    requires
        a.damaged,
    ensures
        !start ==> media(a, start, payload).1.len() == 0 && media(a, start, payload).0.damaged,
        start && pes(payload) is None ==> media(a, start, payload).1.len() == 0,
        start && pes(payload) is Some ==> media(a, start, payload).1.len() <= 1,
{
}

// ---- the program ----

/// An association table teaches where the map is: thirteen bits at its eleventh
/// byte, unless they are zero. It has to start in the packet and be at least
/// twelve bytes long, behind its pointer.
pub proof fn law_what_an_association_teaches(d: DemuxState, start: bool, payload: Seq<u8>)
    ensures
        ({
            let k = 1 + payload[0];
            let there = start && payload.len() >= 1 && payload.len() >= k + 12 && payload[k] == 0;
            let pid = (256 * payload[k + 10] + payload[k + 11]) % 8192;
            &&& there && pid != 0 ==> learn_pat(d, start, payload) == (DemuxState {
                pmt_pid: Some(pid as u16),
                ..d
            })
            &&& !there || pid == 0 ==> learn_pat(d, start, payload) == d
        }),
{
    let k = 1 + payload[0];
    if payload.len() >= 1 && payload.len() >= k + 12 {
        let s = payload.subrange(k, payload.len() as int);
        assert(s[0] == payload[k] && s[10] == payload[k + 10] && s[11] == payload[k + 11]);
    }
}

/// The entries of a map are read one after the other, each as long as it says; of
/// several for video, or for audio, the last counts.
pub proof fn law_an_entry_of_a_map(
    s: Seq<u8>,
    i: int,
    end: int,
    video: Option<u16>,
    audio: Option<u16>,
)
    ensures
        ({
            let pid = ((256 * s[i + 1] + s[i + 2]) % 8192) as u16;
            let next = i + 5 + (256 * s[i + 3] + s[i + 4]) % 4096;
            &&& i + 5 > end ==> streams(s, i, end, video, audio) == (video, audio)
            &&& i + 5 <= end && s[i] == 0x1b ==> streams(s, i, end, video, audio) == streams(
                s,
                next,
                end,
                Some(pid),
                audio,
            )
            &&& i + 5 <= end && s[i] == 0x83 ==> streams(s, i, end, video, audio) == streams(
                s,
                next,
                end,
                video,
                Some(pid),
            )
            &&& i + 5 <= end && s[i] != 0x1b && s[i] != 0x83 ==> streams(s, i, end, video, audio)
                == streams(s, next, end, video, audio)
        }),
{
}

/// A map is read from behind its own descriptors up to its checksum, or up to the
/// end of the packet. It has to start in the packet, to have the second table's
/// number and to be long enough for a head, an entry's worth of nothing and the
/// checksum.
pub proof fn law_what_a_map_teaches(d: DemuxState, start: bool, payload: Seq<u8>)
    ensures
        ({
            let s = payload.skip(1 + payload[0]);
            let len = 3 + (256 * s[1] + s[2]) % 4096;
            let there = start && payload.len() >= 1 && payload.len() >= 13 + payload[0] && s[0] == 2
                && len >= 16;
            let end = if len - 4 <= s.len() {
                len - 4
            } else {
                s.len() as int
            };
            let from = 12 + (256 * s[10] + s[11]) % 4096;
            let e = learn_pmt(d, start, payload);
            &&& !there ==> e == d
            &&& there ==> (e.video_pid, e.audio_pid) == streams(
                s,
                from,
                end,
                d.video_pid,
                d.audio_pid,
            ) && e == (DemuxState { video_pid: e.video_pid, audio_pid: e.audio_pid, ..d })
        }),
{
    if payload.len() >= 1 && payload.len() >= 1 + payload[0] {
        assert(payload.skip(1 + payload[0]) =~= payload.subrange(
            1 + payload[0],
            payload.len() as int,
        ));
    }
}

/// A packet goes where its identifier says: zero is the association, then the
/// map, then video, then audio; any other is passed over. Its counter is noted in
/// every case, and a packet that carries nothing changes nothing.
pub proof fn law_where_a_packet_goes(d: DemuxState, p: Seq<u8>)
    ensures
        ({
            let (t, out) = step(d, p);
            let pid = ((256 * p[1] + p[2]) % 8192) as u16;
            let start = 64 <= p[1] % 128;
            let e = note_counter(d, pid, p[3] % 16);
            &&& payload_start(p) is None ==> t == d && out.len() == 0
            &&& payload_start(p) matches Some(off) ==> {
                let payload = p.skip(off);
                &&& pid == 0 ==> t == learn_pat(e, start, payload) && out.len() == 0
                &&& pid != 0 && d.pmt_pid == Some(pid) ==> t == learn_pmt(e, start, payload)
                    && out.len() == 0
                &&& pid != 0 && d.pmt_pid != Some(pid) && d.video_pid == Some(pid) ==> {
                    let (video, raw) = media(e.video, start, payload);
                    &&& t == (DemuxState { video, ..e })
                    &&& out.len() == raw.len()
                    &&& forall|i: int|
                        0 <= i < raw.len() ==> #[trigger] out[i] == (UnitView::Video {
                            data: raw[i].data,
                            pts_us: raw[i].pts_us,
                        })
                }
                &&& pid != 0 && d.pmt_pid != Some(pid) && d.video_pid != Some(pid) && d.audio_pid
                    == Some(pid) ==> {
                    let (audio, raw) = media(e.audio, start, payload);
                    &&& t == (DemuxState { audio, ..e })
                    &&& out.len() == raw.len()
                    &&& forall|i: int|
                        0 <= i < raw.len() ==> #[trigger] out[i] == (UnitView::Audio {
                            data: raw[i].data,
                            pts_us: raw[i].pts_us,
                        })
                }
                &&& pid != 0 && d.pmt_pid != Some(pid) && d.video_pid != Some(pid) && d.audio_pid
                    != Some(pid) ==> t == e && out.len() == 0
            }
        }),
{
    if let Some(off) = payload_start(p) {
        law_where_a_payload_starts(p);
        assert(p.subrange(off, p.len() as int) =~= p.skip(off));
    }
}

} // verus!
