//! What is read out of an RTP datagram, and which packets are taken in.
use vstd::prelude::*;
use crate::miracast::rtp::{parsed, payload_start, PacketView, ReorderState};

verus! {

/// A datagram as a sender may write it: version 2, with or without padding and a
/// marker, with contributing sources and with a header extension.
pub open spec fn written(
    padded: bool,
    marked: bool,
    kind: u8,
    fixed: Seq<u8>,
    sources: Seq<u8>,
    extension: Option<Seq<u8>>,
    payload: Seq<u8>,
) -> Seq<u8> {
    let first = 128 + (if padded {
        32int
    } else {
        0
    }) + (if extension is Some {
        16int
    } else {
        0
    }) + sources.len() / 4;
    let second = kind + (if marked {
        128int
    } else {
        0
    });
    let more = match extension {
        Some(e) => seq![0xbeu8, 0xdeu8, (e.len() / 4 / 256) as u8, (e.len() / 4 % 256) as u8] + e,
        None => seq![],
    };
    seq![first as u8, second as u8] + fixed + sources + more + payload
}

/// Whatever a sender adds to the header, what is read is the number, the time,
/// the type without its marker, and the payload: contributing sources and the
/// extension are skipped, padding is not looked at.
pub proof fn law_optional_parts_are_skipped(
    padded: bool,
    marked: bool,
    kind: u8,
    fixed: Seq<u8>,
    sources: Seq<u8>,
    extension: Option<Seq<u8>>,
    payload: Seq<u8>,
)
    requires
        kind < 128,
        fixed.len() == 10,
        sources.len() % 4 == 0,
        sources.len() < 64,
        extension matches Some(e) ==> e.len() % 4 == 0 && e.len() / 4 < 65536,
    ensures
        parsed(written(padded, marked, kind, fixed, sources, extension, payload)) matches Some(p)
            && {
            &&& p.sequence == 256 * fixed[0] + fixed[1]
            &&& p.timestamp == 16777216 * fixed[2] + 65536 * fixed[3] + 256 * fixed[4] + fixed[5]
            &&& p.payload_type == kind
            &&& p.payload == payload
        },
{
    let b = written(padded, marked, kind, fixed, sources, extension, payload);
    let n = sources.len() as int;
    assert(b[2] == fixed[0] && b[3] == fixed[1] && b[4] == fixed[2]);
    assert(b[5] == fixed[3] && b[6] == fixed[4] && b[7] == fixed[5]);
    match extension {
        Some(e) => {
            let words = e.len() as int / 4;
            assert(b[12 + n + 2] == words / 256);
            assert(b[12 + n + 3] == words % 256);
            assert(payload_start(b) == Some(12 + n + 4 + e.len()));
            assert(b.subrange(12 + n + 4 + e.len(), b.len() as int) =~= payload);
        },
        None => {
            assert(payload_start(b) == Some(12 + n));
            assert(b.subrange(12 + n, b.len() as int) =~= payload);
        },
    }
}

/// Anything shorter than a header, of another version, or cut off within what its
/// header announces, is no packet.
pub proof fn law_what_is_no_packet(b: Seq<u8>)
    ensures
        b.len() < 12 ==> parsed(b) is None,
        b.len() > 0 && (b[0] < 128 || b[0] >= 192) ==> parsed(b) is None,
        b.len() > 0 && b.len() < 12 + 4 * (b[0] % 16) ==> parsed(b) is None,
        b.len() >= 12 && 128 <= b[0] < 192 && b[0] % 32 < 16 && b.len() >= 12 + 4 * (b[0] % 16)
            ==> parsed(b) is Some,
        b.len() >= 12 && b[0] % 32 >= 16 && b.len() < 16 + 4 * (b[0] % 16) ==> parsed(b) is None,
{
}

/// A packet is taken in unless one of its number is held, or it is behind the one
/// that is due: not ahead of it by less than half of all numbers.
pub proof fn law_what_is_taken_in(s: ReorderState, sequence: u16)
    ensures
        s.accepts(sequence) <==> {
            &&& s.next matches Some(n) ==> (sequence - n) % 65536 < 32768
            &&& forall|i: int| 0 <= i < s.held.len() ==> (#[trigger] s.held[i]).sequence != sequence
        },
        ReorderState::init(s.window).next is None,
        ReorderState::init(s.window).held.len() == 0,
        ReorderState::init(s.window).lost == 0,
{
}

} // verus!
