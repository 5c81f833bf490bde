//! Sound as the render device plays it.
use vstd::prelude::*;

verus! {

/// `AUDCLNT_BUFFERFLAGS_SILENT`.
pub const BUFFER_SILENT: u32 = 2;

/// Units of 100 ns to a millisecond.
pub const REFTIMES_PER_MS: i64 = 10_000;

/// How much the device is asked to buffer, in milliseconds.
pub const BUFFER_MS: i64 = 50;

/// The sample format that is asked for: 48 kHz stereo 16-bit.
#[derive(Debug, Clone, Copy, PartialEq, Eq, Structural)]
pub struct WaveFormat {
    pub channels: u16,
    pub samples_per_sec: u32,
    pub avg_bytes_per_sec: u32,
    pub block_align: u16,
    pub bits_per_sample: u16,
}

pub fn loopback_format() -> (f: WaveFormat)
    ensures
        f == (WaveFormat {
            channels: 2,
            samples_per_sec: 48_000,
            avg_bytes_per_sec: 192_000,
            block_align: 4,
            bits_per_sample: 16,
        }),
        f.block_align == f.channels * (f.bits_per_sample / 8),
        f.avg_bytes_per_sec == f.samples_per_sec * f.block_align,
{
    WaveFormat {
        channels: 2,
        samples_per_sec: 48_000,
        avg_bytes_per_sec: 48_000 * 4,
        block_align: 4,
        bits_per_sample: 16,
    }
}

/// Whether a packet is to be taken as silence.
pub open spec fn silent(flags: u32) -> bool {
    (flags / BUFFER_SILENT) % 2 == 1
}

/// Whether a packet is to be taken as silence.
pub fn is_silent(flags: u32) -> (r: bool)
    ensures
        r == silent(flags),
{
    (flags / BUFFER_SILENT) % 2 == 1
}

/// The samples of a packet: those that came with it, or as many zeros.
pub open spec fn heard(frames: u32, flags: u32, samples: Option<Seq<i16>>) -> Seq<i16> {
    match samples {
        Some(s) if !silent(flags) => s,
        _ => Seq::new((2 * frames) as nat, |i: int| 0i16),
    }
}

pub open spec fn samples_view(samples: Option<Vec<i16>>) -> Option<Seq<i16>> {
    match samples {
        Some(s) => Some(s@),
        None => None,
    }
}

/// Appends a packet of `frames` stereo instants. Silence packets, and those
/// without samples, append zeros.
pub fn append_packet(out: &mut Vec<i16>, frames: u32, flags: u32, samples: Option<Vec<i16>>)
    ensures
        final(out)@ == old(out)@ + heard(frames, flags, samples_view(samples)),
{
    let ghost before = out@;
    if let Some(s) = &samples {
        if !is_silent(flags) {
            let mut s: Vec<i16> = samples.unwrap();
            out.append(&mut s);
            assert(out@ =~= before + heard(frames, flags, samples_view(samples)));
            return;
        }
    }
    let n: u64 = 2 * frames as u64;
    let mut i: u64 = 0;
    while i < n
        invariant
            i <= n,
            out@ =~= before + Seq::new(i as nat, |i: int| 0i16),
        decreases n - i,
    {
        out.push(0);
        i = i + 1;
    }
    assert(out@ =~= before + heard(frames, flags, samples_view(samples)));
}

// ---- laws ----

/// A packet is silence exactly if its second flag is set, or if it came without
/// samples: it is as many zeros as it has instants, twice. Any other packet is the
/// samples it came with.
pub proof fn law_what_is_heard(frames: u32, flags: u32, samples: Option<Seq<i16>>)
    ensures
        flags & 2 == 0 && samples is Some ==> heard(frames, flags, samples) == samples->0,
        flags & 2 != 0 || samples is None ==> heard(frames, flags, samples).len() == 2 * frames
            && forall|i: int|
            0 <= i < 2 * frames ==> #[trigger] heard(frames, flags, samples)[i] == 0,
{
    assert(flags & 2 != 0 <==> (flags / 2) % 2 == 1) by (bit_vector);
}

} // verus!
