//! What the bytes of a transport stream mean: its times, its checksum and its
//! program tables.
use vstd::prelude::*;
use crate::miracast::source::lpcm::framed;
use crate::miracast::source::ts_mux::{
    audio_queued, crc, crc_bit, crc_bits, frame_pes, frame_pts, frame_sent, level_byte, packetized,
    pat_body, pcr_field, pes_packet, pmt_body, profile_bytes, pts_field, section, section_packet,
    tables, ticks, MuxState,
};
use crate::wire::{be16, be32};

verus! {

// ---- times ----

/// A microsecond is nine hundredths of a tick, and times are cut to whole ticks.
pub proof fn law_ticks(pts_us: u64)
    ensures
        100 * ticks(pts_us) <= 9 * pts_us < 100 * (ticks(pts_us) + 1),
{
}

/// A presentation time is 33 bits in three groups, of 3, 15 and 15 bits, each
/// followed by a one, and the field opens with the nibble that says that no
/// decoding time follows.
pub proof fn law_the_presentation_time(t: int)
    requires
        0 <= t,
    ensures
        ({
            let f = pts_field(t);
            &&& f.len() == 5
            &&& f[0] / 16 == 2
            &&& f[0] % 2 == 1 && f[2] % 2 == 1 && f[4] % 2 == 1
            &&& (f[0] / 2 % 8) * 0x4000_0000 + (256 * f[1] + f[2]) / 2 * 0x8000 + (256 * f[3] + f[4])
                / 2 == t % 0x2_0000_0000
        }),
{
    let f = pts_field(t);
    let (a, b, c, d, e) = (
        t / 1073741824 % 8,
        t / 4194304 % 256,
        t / 32768 % 128,
        t / 128 % 256,
        t % 128,
    );
    lemma_digits(t, 128, 256);
    lemma_digits(t, 32768, 128);
    lemma_digits(t, 4194304, 256);
    lemma_digits(t, 1073741824, 8);
    assert(f[0] == 33 + 2 * a && f[1] == b && f[2] == 2 * c + 1 && f[3] == d && f[4] == 2 * e + 1);
    assert((256 * f[1] + f[2]) / 2 == 128 * b + c);
    assert((256 * f[3] + f[4]) / 2 == 128 * d + e);
    assert(f[0] / 2 % 8 == a);
}

/// The lower digits of a number, and one digit more.
proof fn lemma_digits(t: int, d: int, m: int)
    requires
        0 <= t,
        0 < d,
        0 < m,
    ensures
        t % (d * m) == d * (t / d % m) + t % d,
        0 <= t / d % m < m,
        0 <= t % d < d,
{
    vstd::arithmetic::div_mod::lemma_mod_breakdown(t, d, m);
    vstd::arithmetic::div_mod::lemma_mod_bound(t, d);
    vstd::arithmetic::div_mod::lemma_mod_bound(t / d, m);
}

/// The clock is 33 bits of the same ticks, six ones, and an extension of nine
/// zeros.
pub proof fn law_the_clock_reference(t: int)
    requires
        0 <= t,
    ensures
        ({
            let f = pcr_field(t);
            &&& f.len() == 6
            &&& f[0] * 0x200_0000 + f[1] * 0x2_0000 + f[2] * 0x200 + f[3] * 2 + f[4] / 128 == t
                % 0x2_0000_0000
            &&& f[4] % 128 == 0x7e
            &&& f[5] == 0
        }),
{
    let f = pcr_field(t);
    lemma_digits(t, 2, 256);
    lemma_digits(t, 512, 256);
    lemma_digits(t, 131072, 256);
    lemma_digits(t, 33554432, 256);
    assert(f[4] == 128 * (t % 2) + 126);
    assert(f[4] / 128 == t % 2);
}

// ---- packets of an elementary stream ----

/// The head of a PES: the start code and the stream, the length of what follows
/// where that is declared, the flags that announce a presentation time, that time
/// and its stuffing. The payload is the rest.
pub proof fn law_the_head_of_a_pes(
    stream_id: u8,
    payload: Seq<u8>,
    pts_us: u64,
    bounded: bool,
    stuffed: int,
)
    requires
        0 <= stuffed <= 250,
        payload.len() < 65_000,
    ensures
        ({
            let p = pes_packet(stream_id, payload, pts_us, bounded, stuffed);
            &&& p.len() == 14 + stuffed + payload.len()
            &&& p[0] == 0 && p[1] == 0 && p[2] == 1 && p[3] == stream_id
            &&& bounded ==> 256 * p[4] + p[5] == p.len() - 6
            &&& !bounded ==> p[4] == 0 && p[5] == 0
            &&& p[6] == 0x80 && p[7] == 0x80 && p[8] == 5 + stuffed
            &&& p.subrange(9, 14) == pts_field(ticks(pts_us))
            &&& forall|i: int| 14 <= i < 14 + stuffed ==> #[trigger] p[i] == 0xff
            &&& p.skip(14 + stuffed) == payload
        }),
{
    let p = pes_packet(stream_id, payload, pts_us, bounded, stuffed);
    let declared = if bounded {
        payload.len() + 5 + stuffed + 3
    } else {
        0
    };
    let l = be16(declared);
    assert(p[4] == l[0] && p[5] == l[1]);
    assert(p.subrange(9, 14) =~= pts_field(ticks(pts_us)));
    assert(p.skip(14 + stuffed) =~= payload);
}

// ---- checksums ----

/// The checksum's register: a bit that leaves it at the top comes back as the
/// polynomial 0x04c11db7.
pub proof fn law_the_polynomial(c: u32)
    ensures
        c < 0x8000_0000 ==> crc_bit(c) == 2 * c,
        c >= 0x8000_0000 ==> crc_bit(c) == ((2 * c - 0x1_0000_0000) as u32) ^ 0x04c1_1db7,
{
    assert(c & 0x8000_0000 != 0 <==> c >= 0x8000_0000) by (bit_vector);
    assert(c < 0x8000_0000 ==> c << 1 == 2 * c) by (bit_vector);
    assert(c >= 0x8000_0000 ==> c << 1 == 2 * c - 0x1_0000_0000) by (bit_vector);
}

/// It starts at all ones, and each byte goes in at its top and is shifted out in
/// eight steps.
pub proof fn law_the_register(data: Seq<u8>, b: u8)
    ensures
        crc(Seq::empty()) == 0xffff_ffff,
        crc(data.push(b)) == crc_bits(crc(data) ^ ((b as u32) << 24), 8),
{
    assert(data.push(b).drop_last() =~= data);
    assert(data.push(b).last() == b);
}

proof fn lemma_shifted(x: u32, n: nat)
    requires
        x < 0x100_0000,
        n <= 8,
    ensures
        n == 0 ==> crc_bits(x, n) == x,
        n == 1 ==> crc_bits(x, n) == 2 * x,
        n == 2 ==> crc_bits(x, n) == 4 * x,
        n == 3 ==> crc_bits(x, n) == 8 * x,
        n == 4 ==> crc_bits(x, n) == 16 * x,
        n == 5 ==> crc_bits(x, n) == 32 * x,
        n == 6 ==> crc_bits(x, n) == 64 * x,
        n == 7 ==> crc_bits(x, n) == 128 * x,
        n == 8 ==> crc_bits(x, n) == 256 * x,
    decreases n,
{
    if n > 0 {
        lemma_shifted(x, (n - 1) as nat);
        law_the_polynomial(crc_bits(x, (n - 1) as nat));
    }
}

/// A byte equal to the register's top one leaves the rest of it, moved up.
proof fn lemma_top_byte(data: Seq<u8>, b: u8)
    requires
        b == crc(data) / 0x100_0000,
    ensures
        crc(data.push(b)) == (crc(data) - 0x100_0000 * b) * 256,
{
    law_the_register(data, b);
    let c = crc(data);
    assert(c ^ ((b as u32) << 24) == c % 0x100_0000) by (bit_vector)
        requires
            b == c / 0x100_0000,
    ;
    lemma_shifted(c % 0x100_0000, 8);
}

/// A section with its checksum behind it has the checksum zero, which is how a
/// receiver finds it intact. Its length counts what follows the third byte.
pub proof fn law_sections_check_out(table_id: u8, body: Seq<u8>)
    requires
        body.len() < 1000,
    ensures
        crc(section(table_id, body)) == 0,
        section(table_id, body)[0] == table_id,
        section(table_id, body)[1] / 16 == 0xb,
        256 * (section(table_id, body)[1] % 16) + section(table_id, body)[2] == section(
            table_id,
            body,
        ).len() - 3,
        section(table_id, body).subrange(3, 3 + body.len() as int) == body,
        section(table_id, body).len() == body.len() + 7,
{
    let s = seq![table_id] + be16(0xb000 + body.len() as int + 4) + body;
    let all = section(table_id, body);
    lemma_own_checksum(s);
    let l = be16(0xb000 + body.len() as int + 4);
    assert(all[1] == l[0] && all[2] == l[1]);
    assert(all.subrange(3, 3 + body.len() as int) =~= body);
}

/// Bytes with their own checksum behind them.
proof fn lemma_own_checksum(s: Seq<u8>)
    ensures
        crc(s + be32(crc(s) as int)) == 0,
{
    let c = crc(s);
    let tail = be32(c as int);
    crate::wire::law_the_first_byte_weighs_most(c as int, s, 0);
    let (b0, b1, b2, b3) = (tail[0], tail[1], tail[2], tail[3]);
    assert(c == 0x100_0000 * b0 + 0x1_0000 * b1 + 0x100 * b2 + b3);
    let s1 = s.push(b0);
    let s2 = s1.push(b1);
    let s3 = s2.push(b2);
    let s4 = s3.push(b3);
    assert(s4 =~= s + tail);
    lemma_top_byte(s, b0);
    assert(crc(s1) == 0x100_0000 * b1 + 0x1_0000 * b2 + 0x100 * b3);
    lemma_top_byte(s1, b1);
    assert(crc(s2) == 0x100_0000 * b2 + 0x1_0000 * b3);
    lemma_top_byte(s2, b2);
    assert(crc(s3) == 0x100_0000 * b3);
    lemma_top_byte(s3, b3);
}

// ---- program tables ----

/// Thirteen bits of two bytes.
pub open spec fn low13(s: Seq<u8>, i: int) -> int {
    s[i] % 32 * 256 + s[i + 1]
}

/// Twelve bits of two bytes.
pub open spec fn low12(s: Seq<u8>, i: int) -> int {
    s[i] % 16 * 256 + s[i + 1]
}

/// The association table names one program, the first, and says that its map is
/// on 0x1000. The map says that the clock is on 0x1011, where H.264 is, and that
/// LPCM is on 0x1100; the lengths of the descriptors lead from one to the other
/// and to the end.
pub proof fn law_the_program(profile: u8, level: u8)
    ensures
        ({
            let pat = pat_body();
            let pmt = pmt_body(profile, level);
            let audio = 9 + 5 + low12(pmt, 12);
            &&& pat.len() == 9
            &&& 256 * pat[5] + pat[6] == 1
            &&& low13(pat, 7) == 0x1000
            &&& 256 * pmt[0] + pmt[1] == 1
            &&& low13(pmt, 5) == 0x1011
            &&& low12(pmt, 7) == 0
            &&& pmt[9] == 0x1b && low13(pmt, 10) == 0x1011
            &&& pmt[audio] == 0x83 && low13(pmt, audio + 1) == 0x1100
            &&& audio + 5 + low12(pmt, audio + 3) == pmt.len()
        }),
{
}

/// The descriptor of the video names the profile and the level that were agreed:
/// constrained high for 2, else constrained baseline; and 3.2, 4, 4.1 and 4.2 for
/// the bits from the second on, else 3.1.
pub proof fn law_the_video_descriptor(profile: u8, level: u8)
    ensures
        ({
            let pmt = pmt_body(profile, level);
            &&& pmt[14] == 0x28 && pmt[15] == 4
            &&& profile == 2 ==> pmt[16] == 100 && pmt[17] == 0x0c
            &&& profile != 2 ==> pmt[16] == 66 && pmt[17] == 0xc0
            &&& level == 2 ==> pmt[18] == 32
            &&& level == 4 ==> pmt[18] == 40
            &&& level == 8 ==> pmt[18] == 41
            &&& level == 16 ==> pmt[18] == 42
            &&& level != 2 && level != 4 && level != 8 && level != 16 ==> pmt[18] == 31
        }),
{
}

/// A section goes out in one packet that starts on its identifier, directly after
/// an empty pointer, with its counter and with ones up to the end.
pub proof fn law_the_packet_of_a_section(pid: u16, s: Seq<u8>, cc: u8)
    requires
        pid < 0x2000,
        cc < 16,
        s.len() <= 183,
    ensures
        ({
            let p = section_packet(pid, s, cc);
            &&& p.len() == 188
            &&& p[0] == 0x47
            &&& p[1] / 32 == 2
            &&& low13(p, 1) == pid
            &&& p[3] / 16 == 1 && p[3] % 16 == cc
            &&& p[4] == 0
            &&& p.subrange(5, 5 + s.len() as int) == s
            &&& forall|i: int| 5 + s.len() <= i < 188 ==> #[trigger] p[i] == 0xff
        }),
{
    let p = section_packet(pid, s, cc);
    assert(p.subrange(5, 5 + s.len() as int) =~= s);
}

/// The tables go out before anything else, and again once forty packets have
/// followed them; the count then starts over.
pub proof fn law_when_tables_are_due(m: MuxState)
    ensures
        0 < m.since_tables < 40 ==> tables(m).1.len() == 0 && tables(m).0 == m,
        m.since_tables == 0 || m.since_tables >= 40 ==> tables(m).0.since_tables == 0 && tables(
            m,
        ).1.len() > 0,
{
}

// ---- audio ----

/// Samples join those that wait. The time given is that of the first of them if
/// none waited; else the time goes on from the frame before.
pub proof fn law_samples_wait_their_turn(m: MuxState, samples: Seq<i16>, pts_us: u64)
    ensures
        ({
            let q = audio_queued(m, samples, pts_us);
            &&& q.audio_pending == m.audio_pending + samples
            &&& m.audio_pending.len() == 0 ==> q.next_audio_pts_us == Some(pts_us)
            &&& m.audio_pending.len() > 0 ==> q.next_audio_pts_us == m.next_audio_pts_us
        }),
{
}

/// A frame takes the first 960 samples that wait, and the frame after it is ten
/// milliseconds later. It goes out as private data on 0x1100 without a clock.
pub proof fn law_a_frame_of_samples(m: MuxState, pts_us: u64)
    ensures
        ({
            let at = if m.next_audio_pts_us is Some {
                m.next_audio_pts_us->0
            } else {
                pts_us
            };
            let pes = pes_packet(0xbd, framed(m.audio_pending.take(960)), at, true, 2);
            let left = MuxState {
                audio_pending: m.audio_pending.skip(960),
                next_audio_pts_us: Some(
                    if at + 10_000 <= u64::MAX {
                        (at + 10_000) as u64
                    } else {
                        u64::MAX
                    },
                ),
                ..m
            };
            let (m1, head) = tables(left);
            let (m2, body) = packetized(m1, 0x1100, pes, 0, None);
            frame_sent(m, pts_us) == (m2, head + body)
        }),
{
}

} // verus!
