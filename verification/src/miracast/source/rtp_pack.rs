//! RTP packetization for the source role.
//!
//! Wi-Fi Display carries MPEG-TS in payload type 33, seven transport packets to
//! a datagram: 1316 bytes of payload, which with headers stays inside an
//! ordinary 1500-byte path without fragmenting.
use vstd::prelude::*;
use crate::miracast::rtp::{next_seq, parsed, PacketView};
use crate::miracast::ts::PACKET_LEN;
use crate::wire::{be16, be32, part, push_be16, push_be32, push_bytes};

verus! {

pub const PAYLOAD_TYPE: u8 = 33;

pub const PACKETS_PER_DATAGRAM: usize = 7;

/// The payload of a full datagram.
pub const GROUP_LEN: usize = PACKETS_PER_DATAGRAM * PACKET_LEN;

/// RTP's fixed header, with no contributing sources and no extension.
pub const HEADER_LEN: usize = 12;

/// One datagram.
pub open spec fn datagram(sequence: u16, timestamp: u32, ssrc: u32, group: Seq<u8>) -> Seq<u8> {
    seq![0x80u8, PAYLOAD_TYPE] + be16(sequence as int) + be32(timestamp as int) + be32(ssrc as int)
        + group
}

/// The datagrams for the bytes from `i` on: full groups, then a shorter tail
/// if there is one, with sequence numbers that follow one another.
pub open spec fn datagrams(ts: Seq<u8>, i: int, sequence: u16, timestamp: u32, ssrc: u32) -> Seq<
    Seq<u8>,
>
    decreases ts.len() - i,
{
    if i >= ts.len() {
        Seq::empty()
    } else {
        let end = if i + GROUP_LEN < ts.len() {
            i + GROUP_LEN
        } else {
            ts.len() as int
        };
        seq![datagram(sequence, timestamp, ssrc, ts.subrange(i, end))] + datagrams(
            ts,
            end,
            next_seq(sequence),
            timestamp,
            ssrc,
        )
    }
}

/// The bytes in a run of datagrams.
pub open spec fn datagram_bytes(v: Seq<Vec<u8>>) -> Seq<Seq<u8>> {
    Seq::new(v.len(), |i: int| v[i]@)
}

pub struct Packetizer {
    ssrc: u32,
    sequence: u16,
}

impl Packetizer {
    pub closed spec fn ssrc(&self) -> u32 {
        self.ssrc
    }

    /// The sequence number of the next datagram.
    pub closed spec fn sequence(&self) -> u16 {
        self.sequence
    }

    pub fn new(ssrc: u32) -> (p: Self)
        ensures
            p.ssrc() == ssrc,
            p.sequence() == 0,
    {
        Packetizer { ssrc, sequence: 0 }
    }

    /// Splits whole transport packets into datagrams, all stamped with the same
    /// presentation time: they belong to one access unit.
    ///
    /// A short tail is sent rather than held. Waiting for seven would delay the
    /// end of every frame, and the sink reassembles from the transport stream
    /// regardless of how the datagrams were cut.
    pub fn push(&mut self, ts_packets: &[u8], timestamp_90k: u32) -> (out: Vec<Vec<u8>>)
        ensures
            datagram_bytes(out@) == datagrams(
                ts_packets@,
                0,
                old(self).sequence(),
                timestamp_90k,
                old(self).ssrc(),
            ),
            final(self).ssrc() == old(self).ssrc(),
            final(self).sequence() == (old(self).sequence() + out@.len()) % 65536,
    {
        let mut out: Vec<Vec<u8>> = Vec::new();
        let mut i: usize = 0;
        let ghost all = datagrams(
            ts_packets@,
            0,
            self.sequence,
            timestamp_90k,
            self.ssrc,
        );
        assert(datagram_bytes(out@) + all =~= all);
        while i < ts_packets.len()
            invariant
                i <= ts_packets@.len(),
                self.ssrc == old(self).ssrc,
                self.sequence == (old(self).sequence + out@.len()) % 65536,
                datagram_bytes(out@) + datagrams(
                    ts_packets@,
                    i as int,
                    self.sequence,
                    timestamp_90k,
                    self.ssrc,
                ) == all,
            decreases ts_packets@.len() - i,
        {
            let end: usize = if ts_packets.len() - i > GROUP_LEN {
                i + GROUP_LEN
            } else {
                ts_packets.len()
            };
            let mut d: Vec<u8> = Vec::new();
            d.push(0x80);
            d.push(PAYLOAD_TYPE);
            assert(d@ =~= seq![0x80u8, PAYLOAD_TYPE]);
            push_be16(&mut d, self.sequence);
            push_be32(&mut d, timestamp_90k);
            push_be32(&mut d, self.ssrc);
            push_bytes(&mut d, part(ts_packets, i, end));
            let ghost before = datagram_bytes(out@);
            let ghost first = d@;
            let ghost seq0 = self.sequence;
            self.sequence = self.sequence.wrapping_add(1);
            out.push(d);
            assert(datagram_bytes(out@) =~= before.push(first));
            assert(datagrams(ts_packets@, i as int, seq0, timestamp_90k, self.ssrc) =~= seq![first]
                + datagrams(ts_packets@, end as int, self.sequence, timestamp_90k, self.ssrc));
            assert(datagram_bytes(out@) + datagrams(
                ts_packets@,
                end as int,
                self.sequence,
                timestamp_90k,
                self.ssrc,
            ) =~= before + datagrams(ts_packets@, i as int, seq0, timestamp_90k, self.ssrc));
            i = end;
        }
        assert(datagram_bytes(out@) =~= all);
        out
    }

    /// Continues from another sequence number.
    pub fn set_sequence(&mut self, seq: u16)
        ensures
            final(self).sequence() == seq,
            final(self).ssrc() == old(self).ssrc(),
    {
        self.sequence = seq;
    }
}

// ---- laws ----

/// The RTP parser reads a datagram back as what was put into it.
pub proof fn law_datagram_parses(sequence: u16, timestamp: u32, ssrc: u32, group: Seq<u8>)
    ensures
        parsed(datagram(sequence, timestamp, ssrc, group)) == Some(
            PacketView { sequence, timestamp, payload_type: PAYLOAD_TYPE, payload: group },
        ),
{
    let d = datagram(sequence, timestamp, ssrc, group);
    assert(d.subrange(12, d.len() as int) =~= group);
    assert(d[0] == 0x80 && d[1] == PAYLOAD_TYPE);
    assert(d[2] == be16(sequence as int)[0] && d[3] == be16(sequence as int)[1]);
    assert(d[4] == be32(timestamp as int)[0] && d[5] == be32(timestamp as int)[1] && d[6] == be32(
        timestamp as int,
    )[2] && d[7] == be32(timestamp as int)[3]);
}

/// The payloads of a run of datagrams, one after the other.
pub open spec fn joined_payloads(v: Seq<Seq<u8>>) -> Seq<u8>
    decreases v.len(),
{
    if v.len() == 0 {
        Seq::empty()
    } else {
        v[0].subrange(HEADER_LEN as int, v[0].len() as int) + joined_payloads(v.drop_first())
    }
}

/// The payloads of the datagrams are the transport stream unchanged.
pub proof fn law_datagrams_carry_the_stream(
    ts: Seq<u8>,
    i: int,
    sequence: u16,
    timestamp: u32,
    ssrc: u32,
)
    requires
        0 <= i <= ts.len(),
    ensures
        joined_payloads(datagrams(ts, i, sequence, timestamp, ssrc)) == ts.subrange(
            i,
            ts.len() as int,
        ),
    decreases ts.len() - i,
{
    let all = datagrams(ts, i, sequence, timestamp, ssrc);
    if i < ts.len() {
        let end = if i + GROUP_LEN < ts.len() {
            i + GROUP_LEN
        } else {
            ts.len() as int
        };
        let group = ts.subrange(i, end);
        let first = datagram(sequence, timestamp, ssrc, group);
        let tail = datagrams(ts, end, next_seq(sequence), timestamp, ssrc);
        law_datagrams_carry_the_stream(ts, end, next_seq(sequence), timestamp, ssrc);
        assert(all.drop_first() =~= tail);
        assert(first.subrange(HEADER_LEN as int, first.len() as int) =~= group);
        assert(joined_payloads(all) =~= ts.subrange(i, ts.len() as int));
    } else {
        assert(joined_payloads(all) =~= ts.subrange(i, ts.len() as int));
    }
}

/// The RTP parser reads each datagram, and the one at place `k` carries the
/// `k`-th sequence number from the first.
#[verifier::rlimit(50)]
#[verifier::spinoff_prover]
pub proof fn law_datagrams_are_numbered(
    ts: Seq<u8>,
    i: int,
    sequence: u16,
    timestamp: u32,
    ssrc: u32,
    k: int,
)
    requires
        0 <= i <= ts.len(),
        0 <= k < datagrams(ts, i, sequence, timestamp, ssrc).len(),
    ensures
        parsed(datagrams(ts, i, sequence, timestamp, ssrc)[k]) matches Some(p) && p.sequence == (
        sequence + k) % 65536 && p.timestamp == timestamp && p.payload_type == PAYLOAD_TYPE,
    decreases ts.len() - i,
{
    let all = datagrams(ts, i, sequence, timestamp, ssrc);
    let end = if i + GROUP_LEN < ts.len() {
        i + GROUP_LEN
    } else {
        ts.len() as int
    };
    let tail = datagrams(ts, end, next_seq(sequence), timestamp, ssrc);
    if k == 0 {
        law_datagram_parses(sequence, timestamp, ssrc, ts.subrange(i, end));
    } else {
        assert(all[k] == tail[k - 1]);
        law_datagrams_are_numbered(ts, end, next_seq(sequence), timestamp, ssrc, k - 1);
        assert((next_seq(sequence) + (k - 1)) % 65536 == (sequence + k) % 65536) by {
            if sequence == 65535 {
                assert(sequence + k == 65536 + (k - 1));
            }
        }
    }
}

/// The bytes of a datagram: version 2 and nothing optional, payload type 33
/// without a marker, the sequence number, the time and the source, each with its
/// most significant byte first, and then the transport packets.
pub proof fn law_the_bytes_of_a_datagram(sequence: u16, timestamp: u32, ssrc: u32, group: Seq<u8>)
    ensures
        ({
            let d = datagram(sequence, timestamp, ssrc, group);
            &&& d.len() == 12 + group.len()
            &&& d[0] == 0x80
            &&& d[1] == 33
            &&& 256 * d[2] + d[3] == sequence
            &&& 16777216 * d[4] + 65536 * d[5] + 256 * d[6] + d[7] == timestamp
            &&& 16777216 * d[8] + 65536 * d[9] + 256 * d[10] + d[11] == ssrc
            &&& d.skip(12) == group
        }),
{
    let d = datagram(sequence, timestamp, ssrc, group);
    let (a, b, c) = (be16(sequence as int), be32(timestamp as int), be32(ssrc as int));
    assert(d[2] == a[0] && d[3] == a[1]);
    assert(d[4] == b[0] && d[5] == b[1] && d[6] == b[2] && d[7] == b[3]);
    assert(d[8] == c[0] && d[9] == c[1] && d[10] == c[2] && d[11] == c[3]);
    assert(d.skip(12) =~= group);
}

/// The datagram at place `k` carries the bytes from 1316 times `k` on: 1316 of
/// them, which is seven transport packets, or what is left at the end. There are
/// as many datagrams as that takes, and all have the time and the source.
#[verifier::spinoff_prover]
#[verifier::rlimit(60)]
pub proof fn law_seven_packets_to_a_datagram(
    ts: Seq<u8>,
    i: int,
    sequence: u16,
    timestamp: u32,
    ssrc: u32,
    k: int,
)
    requires
        0 <= i <= ts.len(),
    ensures
        ({
            let all = datagrams(ts, i, sequence, timestamp, ssrc);
            let from = i + 1316 * k;
            &&& 1316 * all.len() >= ts.len() - i
            &&& 1316 * (all.len() - 1) < ts.len() - i
            &&& 0 <= k < all.len() ==> all[k] == datagram(
                ((sequence + k) % 65536) as u16,
                timestamp,
                ssrc,
                ts.subrange(
                    from,
                    if from + 1316 <= ts.len() {
                        from + 1316
                    } else {
                        ts.len() as int
                    },
                ),
            )
        }),
    decreases ts.len() - i,
{
    let all = datagrams(ts, i, sequence, timestamp, ssrc);
    if i < ts.len() {
        let end = if i + GROUP_LEN < ts.len() {
            i + GROUP_LEN
        } else {
            ts.len() as int
        };
        assert(GROUP_LEN == 1316);
        let tail = datagrams(ts, end, next_seq(sequence), timestamp, ssrc);
        law_seven_packets_to_a_datagram(ts, end, next_seq(sequence), timestamp, ssrc, k - 1);
        assert(all.len() == tail.len() + 1);
        if end == ts.len() {
            assert(tail.len() == 0);
        }
        if 0 < k < all.len() {
            assert(all[k] == tail[k - 1]);
            assert(end == i + 1316);
            assert(end + 1316 * (k - 1) == i + 1316 * k);
            assert((next_seq(sequence) + (k - 1)) % 65536 == (sequence + k) % 65536) by {
                if sequence == 65535 {
                    assert(sequence + k == 65536 + (k - 1));
                }
            }
        }
    }
}

} // verus!
