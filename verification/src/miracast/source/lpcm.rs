//! Wi-Fi Display LPCM framing.
//!
//! The audio a sink expects is not plain PCM: each payload carries a short
//! header that declares its size and format, and the samples that follow are
//! big-endian.
//!
//! `payload` strips a header only where the substream identifier and a
//! non-zero access-unit count are present, so audio from a source that sends
//! bare samples stays whole.
use vstd::prelude::*;
use crate::wire::{be16, be16_at, part, push_be16};

verus! {

/// Bytes of the private header ahead of the samples.
pub const HEADER_LEN: usize = 4;

/// One access unit is eighty samples per channel. Six access units make the
/// ten milliseconds of 48 kHz stereo that a PES carries.
pub const SAMPLES_PER_AU_PER_CHANNEL: usize = 80;

pub const CHANNELS: usize = 2;

pub const AUS_PER_FRAME: usize = 6;

pub const SAMPLES_PER_FRAME: usize = SAMPLES_PER_AU_PER_CHANNEL * CHANNELS * AUS_PER_FRAME;

pub const SUBSTREAM_ID: u8 = 0xa0;

/// Sixteen bits, 48 kHz, stereo.
pub const FORMAT_BYTE: u8 = 0x11;

/// The header of a frame of six access units.
pub open spec fn header() -> Seq<u8> {
    seq![SUBSTREAM_ID, AUS_PER_FRAME as u8, 0u8, FORMAT_BYTE]
}

/// Samples as big-endian bytes.
pub open spec fn sample_bytes(samples: Seq<i16>) -> Seq<u8>
    decreases samples.len(),
{
    if samples.len() == 0 {
        Seq::empty()
    } else {
        sample_bytes(samples.drop_last()) + be16(samples.last() as int % 65536)
    }
}

/// One audio frame.
pub open spec fn framed(samples: Seq<i16>) -> Seq<u8> {
    header() + sample_bytes(samples)
}

/// The samples of a frame, without the header if it has one.
pub open spec fn unframed(frame: Seq<u8>) -> Seq<u8> {
    if frame.len() < HEADER_LEN {
        Seq::empty()
    } else if frame[0] == SUBSTREAM_ID && frame[1] > 0 {
        frame.subrange(HEADER_LEN as int, frame.len() as int)
    } else {
        frame
    }
}

/// The bits of a sample as an unsigned number.
fn sample_bits(s: i16) -> (u: u16)
    ensures
        u == s as int % 65536,
{
    if s >= 0 {
        s as u16
    } else {
        (65536i32 + s as i32) as u16
    }
}

/// Wraps interleaved stereo samples as one LPCM audio frame.
pub fn frame(samples: &[i16]) -> (out: Vec<u8>)
    requires
        samples@.len() == SAMPLES_PER_FRAME,
    ensures
        out@ == framed(samples@),
        out@.len() == HEADER_LEN + 2 * SAMPLES_PER_FRAME,
{
    let mut out: Vec<u8> = Vec::new();
    out.push(SUBSTREAM_ID);
    out.push(AUS_PER_FRAME as u8);
    out.push(0);
    out.push(FORMAT_BYTE);
    let mut i: usize = 0;
    assert(out@ =~= header());
    assert(out@ =~= header() + sample_bytes(samples@.take(0)));
    while i < samples.len()
        invariant
            i <= samples@.len(),
            samples@.len() == SAMPLES_PER_FRAME,
            out@ == header() + sample_bytes(samples@.take(i as int)),
            out@.len() == HEADER_LEN + 2 * i,
        decreases samples@.len() - i,
    {
        let u = sample_bits(samples[i]);
        push_be16(&mut out, u);
        i = i + 1;
        assert(samples@.take(i as int).drop_last() =~= samples@.take(i - 1));
        assert(out@ =~= header() + sample_bytes(samples@.take(i as int)));
    }
    assert(samples@.take(i as int) =~= samples@);
    out
}

/// The samples of a frame, without the header if it has one.
pub fn payload(frame: &[u8]) -> (r: &[u8])
    ensures
        r@ == unframed(frame@),
{
    if frame.len() < HEADER_LEN {
        assert(frame@.subrange(0, 0) =~= Seq::empty());
        return part(frame, 0, 0);
    }
    if frame[0] == SUBSTREAM_ID && frame[1] > 0 {
        part(frame, HEADER_LEN, frame.len())
    } else {
        frame
    }
}

/// The sample in the two bytes at `i`.
pub open spec fn sample_at(s: Seq<u8>, i: int) -> int {
    let u = be16_at(s, i);
    if u < 32768 {
        u
    } else {
        u - 65536
    }
}

/// A frame's samples come back out of it: its payload is their bytes, and
/// each pair of bytes is the sample that went in.
pub proof fn law_frame_round_trips(samples: Seq<i16>)
    ensures
        unframed(framed(samples)) == sample_bytes(samples),
        sample_bytes(samples).len() == 2 * samples.len(),
        forall|i: int|
            0 <= i < samples.len() ==> sample_at(sample_bytes(samples), 2 * i) == #[trigger] samples[i],
    decreases samples.len(),
{
    assert(unframed(framed(samples)) =~= sample_bytes(samples));
    if samples.len() > 0 {
        law_frame_round_trips(samples.drop_last());
        assert forall|i: int| 0 <= i < samples.len() implies sample_at(
            sample_bytes(samples),
            2 * i,
        ) == #[trigger] samples[i] by {
            if i < samples.len() - 1 {
                assert(samples.drop_last()[i] == samples[i]);
            }
        }
    }
}

/// Bare samples, which do not start with the header, are kept whole.
pub proof fn law_bare_samples_are_kept(bare: Seq<u8>)
    requires
        bare.len() >= HEADER_LEN,
        bare[0] != SUBSTREAM_ID,
    ensures
        unframed(bare) == bare,
{
}

/// A frame starts with the substream, six access units, and the byte for sixteen
/// bits at 48 kHz in stereo. After that each sample takes two bytes, the more
/// significant one first.
pub proof fn law_the_bytes_of_a_frame(samples: Seq<i16>, i: int)
    requires
        0 <= i < samples.len(),
    ensures
        ({
            let f = framed(samples);
            &&& f.len() == 4 + 2 * samples.len()
            &&& f[0] == 0xa0 && f[1] == 6 && f[2] == 0 && f[3] == 0x11
            &&& samples[i] >= 0 ==> 256 * f[4 + 2 * i] + f[5 + 2 * i] == samples[i]
            &&& samples[i] < 0 ==> 256 * f[4 + 2 * i] + f[5 + 2 * i] == 65536 + samples[i]
        }),
{
    law_frame_round_trips(samples);
    let f = framed(samples);
    let b = sample_bytes(samples);
    assert(sample_at(b, 2 * i) == samples[i]);
    assert(f[4 + 2 * i] == b[2 * i]);
    assert(f[5 + 2 * i] == b[2 * i + 1]);
}

/// What counts as a header is four bytes of which the first is that of the
/// substream and the second is not zero; anything shorter holds nothing.
pub proof fn law_what_is_stripped(f: Seq<u8>)
    ensures
        f.len() < 4 ==> unframed(f).len() == 0,
        f.len() >= 4 && f[0] == 0xa0 && f[1] != 0 ==> unframed(f) == f.skip(4),
        f.len() >= 4 && (f[0] != 0xa0 || f[1] == 0) ==> unframed(f) == f,
{
    if f.len() >= 4 {
        assert(f.subrange(4, f.len() as int) =~= f.skip(4));
    }
}

} // verus!
