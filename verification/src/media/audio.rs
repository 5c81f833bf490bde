//! Audio frames: how samples are cut for the codec, and what it is handed.
use vstd::prelude::*;
use crate::number::{dec, push_dec};
use crate::text::{push_str, to_string};

verus! {

pub const SAMPLE_RATE: u32 = 48_000;

pub const CHANNELS: usize = 2;

pub const FRAME_SAMPLES: usize = 480;

pub const FRAME_INTERLEAVED: usize = FRAME_SAMPLES * CHANNELS;

/// The largest packet the encoder is given room for.
pub const MAX_PACKET: usize = 1500;

/// Checks that samples are exactly one frame for the encoder. Returns what is
/// wrong otherwise.
pub fn check_frame(pcm: &[i16]) -> (r: Result<(), String>)
    ensures
        r is Ok <==> pcm@.len() == FRAME_INTERLEAVED,
        r matches Err(e) ==> e@ == "expected 960 samples, got "@ + dec(pcm@.len()),
{
    let n: usize = pcm.len();
    if n == FRAME_INTERLEAVED {
        return Ok(());
    }
    let mut s: Vec<char> = Vec::new();
    push_str(&mut s, "expected 960 samples, got ");
    push_dec(&mut s, n as u64);
    assert(s@ =~= "expected 960 samples, got "@ + dec(pcm@.len()));
    Err(to_string(&s))
}

/// What the encoder wrote into its buffer: the first `n` bytes.
pub fn packet_of(buffer: Vec<u8>, n: usize) -> (p: Vec<u8>)
    ensures
        p@ == if n < buffer@.len() {
            buffer@.take(n as int)
        } else {
            buffer@
        },
{
    let mut p = buffer;
    p.truncate(n);
    p
}

/// What the decoder wrote into its buffer: the samples of `n` instants, both
/// channels of each.
pub fn samples_of(buffer: Vec<i16>, n: usize) -> (s: Vec<i16>)
    requires
        n * CHANNELS <= usize::MAX,
    ensures
        s@ == if n * CHANNELS < buffer@.len() {
            buffer@.take(n * CHANNELS)
        } else {
            buffer@
        },
{
    let mut s = buffer;
    s.truncate(n * CHANNELS);
    s
}

/// Cuts a run of samples into frames.
pub struct FrameChunker {
    buf: Vec<i16>,
}

impl View for FrameChunker {
    type V = Seq<i16>;

    closed spec fn view(&self) -> Seq<i16> {
        self.buf@
    }
}

impl Default for FrameChunker {
    fn default() -> (c: Self)
        ensures
            c@ == Seq::<i16>::empty(),
    {
        FrameChunker::new()
    }
}

impl FrameChunker {
    pub fn new() -> (c: Self)
        ensures
            c@ == Seq::<i16>::empty(),
    {
        FrameChunker { buf: Vec::new() }
    }

    pub fn push(&mut self, samples: &[i16])
        ensures
            final(self)@ == old(self)@ + samples@,
    {
        self.buf.extend_from_slice(samples);
        assert(self@ =~= old(self)@ + samples@);
    }

    /// The next whole frame, if there is one.
    pub fn next_frame(&mut self) -> (r: Option<Vec<i16>>)
        ensures
            r is Some <==> old(self)@.len() >= FRAME_INTERLEAVED,
            r is None ==> final(self)@ == old(self)@,
            r matches Some(f) ==> f@ == old(self)@.take(FRAME_INTERLEAVED as int) && final(self)@
                == old(self)@.skip(FRAME_INTERLEAVED as int),
    {
        if self.buf.len() < FRAME_INTERLEAVED {
            return None;
        }
        let mut frame = self.buf.split_off(FRAME_INTERLEAVED);
        std::mem::swap(&mut frame, &mut self.buf);
        assert(frame@ =~= old(self)@.take(FRAME_INTERLEAVED as int));
        assert(self.buf@ =~= old(self)@.skip(FRAME_INTERLEAVED as int));
        Some(frame)
    }
}

// ---- laws ----

/// The frames that a run of samples is cut into.
pub open spec fn frames_of(samples: Seq<i16>) -> Seq<Seq<i16>>
    decreases samples.len(),
{
    if samples.len() < FRAME_INTERLEAVED {
        seq![]
    } else {
        seq![samples.take(FRAME_INTERLEAVED as int)] + frames_of(
            samples.skip(FRAME_INTERLEAVED as int),
        )
    }
}

/// Every frame is ten milliseconds of two channels, 960 samples; frame after
/// frame they are the samples in their order, and fewer than 960 are left over.
pub proof fn law_frames_are_the_samples(samples: Seq<i16>, k: int, i: int)
    ensures
        960 * frames_of(samples).len() <= samples.len() < 960 * (frames_of(samples).len() + 1),
        0 <= k < frames_of(samples).len() ==> frames_of(samples)[k].len() == 960,
        0 <= k < frames_of(samples).len() && 0 <= i < 960 ==> frames_of(samples)[k][i]
            == samples[960 * k + i],
        960 * 100 == SAMPLE_RATE * CHANNELS,
    decreases samples.len(),
{
    if samples.len() >= 960 {
        let rest = samples.skip(960);
        law_frames_are_the_samples(rest, k - 1, i);
        let all = frames_of(samples);
        assert(all == seq![samples.take(960)] + frames_of(rest));
        if 0 < k < all.len() {
            assert(all[k] == frames_of(rest)[k - 1]);
        }
    }
}

} // verus!
