//! What a codec's attributes, layouts and calls come to, in numbers.
use vstd::prelude::*;
use crate::media::codec::{EncodedFrameView, EncoderConfig, Mode, PixelFormat, RawFrameView};
use crate::media::crop::{lemma_rows, rows};
use crate::mf::attributes::{micros_of, packed, steered, unpacked, video_type_of};
use crate::mf::decoder::{aperture_from, laid_out, zeros, Layout};
use crate::mf::encoder::{
    flow_refused, later, provides, unit_of, ActionView, FlowError, FlowState, Phase,
};
use crate::time::Instant;

verus! {

// ---- attributes ----

/// Of two numbers in one attribute the first is in the upper 32 bits.
pub proof fn law_the_first_is_above(a: u32, b: u32, x: u64)
    ensures
        packed(a, b) == 4294967296 * a + b,
        x == 4294967296 * unpacked(x).0 + unpacked(x).1,
{
}

/// A video type is its size, its rate in frames to the second and square pixels;
/// only what is coded has a profile.
pub proof fn law_a_video_type(h264: bool, w: u32, h: u32, fps: u32, bitrate: Option<u32>)
    ensures
        ({
            let t = video_type_of(h264, w, h, fps, bitrate);
            &&& t.frame_size == 4294967296 * w + h
            &&& t.frame_rate == 4294967296 * fps + 1
            &&& t.pixel_aspect_ratio == 4294967296 + 1
            &&& t.avg_bitrate == bitrate
            &&& t.h264 == h264
            &&& t.main_profile == h264
        }),
{
}

/// A sample's time is in tenths of a microsecond; whole ones count, and none
/// before the beginning.
pub proof fn law_the_time_of_a_sample(t: i64)
    ensures
        t >= 0 ==> 10 * micros_of(t) <= t < 10 * (micros_of(t) + 1),
        t < 0 ==> micros_of(t) == 0,
{
}

/// Game holds the rate, with a keyframe every ten seconds; Quality lets it vary,
/// with one every two.
pub proof fn law_how_the_rate_is_steered(cfg: EncoderConfig)
    ensures
        cfg.mode == Mode::Game && 10 * cfg.fps <= u32::MAX ==> steered(cfg).mode == 0 && steered(
            cfg,
        ).gop == 10 * cfg.fps,
        cfg.mode == Mode::Quality && 2 * cfg.fps <= u32::MAX ==> steered(cfg).mode == 2 && steered(
            cfg,
        ).gop == 2 * cfg.fps,
        steered(cfg).mean_bitrate == cfg.bitrate_bps,
{
}

// ---- layouts ----

/// The visible region is that of the first aperture with two positive sides.
pub proof fn law_the_first_real_aperture(apertures: Seq<Option<(i32, i32)>>, k: int)
    ensures
        0 <= k < apertures.len() && (apertures[k] matches Some((cx, cy)) && cx > 0 && cy > 0)
            && (forall|i: int|
            0 <= i < k ==> !(#[trigger] apertures[i] matches Some((cx, cy)) && cx > 0 && cy > 0))
            ==> aperture_from(apertures, 0) == Some(
            ((apertures[k]->0).0 as u32, (apertures[k]->0).1 as u32),
        ),
        (forall|i: int|
            0 <= i < apertures.len() ==> !(#[trigger] apertures[i] matches Some((cx, cy)) && cx > 0
                && cy > 0)) ==> aperture_from(apertures, 0) is None,
{
    lemma_aperture(apertures, k, 0);
}

proof fn lemma_aperture(apertures: Seq<Option<(i32, i32)>>, k: int, j: int)
    requires
        0 <= j,
    ensures
        j <= k < apertures.len() && (apertures[k] matches Some((cx, cy)) && cx > 0 && cy > 0)
            && (forall|i: int|
            0 <= i < k ==> !(#[trigger] apertures[i] matches Some((cx, cy)) && cx > 0 && cy > 0))
            ==> aperture_from(apertures, j) == Some(
            ((apertures[k]->0).0 as u32, (apertures[k]->0).1 as u32),
        ),
        (forall|i: int|
            0 <= i < apertures.len() ==> !(#[trigger] apertures[i] matches Some((cx, cy)) && cx > 0
                && cy > 0)) ==> aperture_from(apertures, j) is None,
    decreases apertures.len() - j,
{
    if j < apertures.len() {
        lemma_aperture(apertures, k, j + 1);
        if j < k {
            let a = apertures[j];
        }
    }
}

/// A layout has the coded size, shows the aperture or else all of it, has room for
/// what is asked and at least for a coded picture, and brings its own samples if
/// the flag 0x100 says so.
pub proof fn law_a_layout(
    coded: (u32, u32),
    aperture: Option<(u32, u32)>,
    buffer_size: u32,
    flags: u32,
)
    requires
        coded.0 * coded.1 * 3 <= u32::MAX,
    ensures
        ({
            let l = laid_out(coded, aperture, buffer_size, flags);
            &&& (l.coded_width, l.coded_height) == coded
            &&& aperture is Some ==> (l.width, l.height) == aperture->0
            &&& aperture is None ==> (l.width, l.height) == coded
            &&& l.output_size >= buffer_size
            &&& 2 * l.output_size + 1 >= 3 * (coded.0 * coded.1)
            &&& l.output_size == buffer_size || 2 * l.output_size <= 3 * (coded.0 * coded.1)
            &&& l.provides_samples <==> flags & 0x100 != 0
        }),
{
    assert(flags & 0x100 != 0 <==> (flags / 0x100) % 2 == 1) by (bit_vector);
    assert(coded.0 * coded.1 >= 0) by (nonlinear_arith)
        requires
            coded.0 >= 0,
            coded.1 >= 0,
    ;
}

/// A picture is read out of a surface in place: luma from its top, chroma from
/// below all its coded rows, whatever lies between the rows.
pub proof fn law_a_surface_is_read_in_place(l: Layout, src: Seq<u8>, pitch: int, r: int, c: int)
    requires
        0 <= pitch,
        l.height > 0 ==> (l.height - 1) * pitch + l.width <= src.len(),
        l.height / 2 > 0 ==> l.coded_height * pitch + (l.height / 2 - 1) * pitch + l.width
            <= src.len(),
        0 <= c < l.width,
    ensures
        ({
            let out = l.from_surface(src, pitch);
            let (w, h) = (l.width as int, l.height as int);
            &&& 0 <= r < h ==> out[r * w + c] == src[r * pitch + c]
            &&& 0 <= r < h / 2 ==> out[h * w + r * w + c] == src[(l.coded_height + r) * pitch + c]
        }),
{
    let (w, h) = (l.width as int, l.height as int);
    let base = l.coded_height * pitch;
    assert(0 <= base) by (nonlinear_arith)
        requires
            base == l.coded_height * pitch,
            0 <= pitch,
            0 <= l.coded_height,
    ;
    lemma_rows(src, 0, pitch, w, h, r, c);
    lemma_rows(src, base, pitch, w, h / 2, r, c);
    assert((l.coded_height + r) * pitch == l.coded_height * pitch + r * pitch) by (nonlinear_arith);
}

/// As much of a surface is read as holds every byte of the picture, and no more: the
/// last byte that is read is that of the last row of luma or of chroma.
pub proof fn law_how_much_of_a_surface_is_read(l: Layout, pitch: int, r: int, c: int)
    requires
        0 <= pitch,
        0 <= c < l.width,
    ensures
        ({
            let n = l.surface_len(pitch);
            let (w, h) = (l.width as int, l.height as int);
            &&& 0 <= r < h ==> r * pitch + c < n
            &&& 0 <= r < h / 2 ==> (l.coded_height + r) * pitch + c < n
            &&& n == 0 || (h > 0 && n == (h - 1) * pitch + w) || (h >= 2 && n == (l.coded_height + h
                / 2 - 1) * pitch + w)
        }),
{
    let h = l.height as int;
    if 0 <= r < h {
        assert(r * pitch <= (h - 1) * pitch) by (nonlinear_arith)
            requires
                r <= h - 1,
                0 <= pitch,
        ;
    }
    if 0 <= r < h / 2 {
        let (a, b) = (l.coded_height + r, l.coded_height + h / 2 - 1);
        assert(a * pitch <= b * pitch) by (nonlinear_arith)
            requires
                a <= b,
                0 <= pitch,
        ;
    }
}

/// A buffer that is padded nowhere is taken as it is, as far as the picture goes;
/// what it lacks is zero.
pub proof fn law_a_tight_buffer_is_the_picture(l: Layout, data: Seq<u8>, k: int)
    requires
        l.coded_width == l.width,
        l.coded_height == l.height,
        0 <= k < l.width * l.height * 3 / 2,
    ensures
        l.from_buffer(data).len() == l.width * l.height * 3 / 2,
        l.from_buffer(data)[k] == if k < data.len() {
            data[k]
        } else {
            0u8
        },
{
}

/// A padded buffer is read like a surface whose rows are the coded width apart, if
/// all of it is there; otherwise the picture is zero.
pub proof fn law_a_padded_buffer_is_a_surface(l: Layout, data: Seq<u8>)
    requires
        l.coded_width != l.width || l.coded_height != l.height,
    ensures
        3 * (l.coded_width * l.coded_height) <= 2 * data.len() + 1 ==> l.from_buffer(data)
            == l.from_surface(data, l.coded_width as int),
        3 * (l.coded_width * l.coded_height) > 2 * data.len() + 1 ==> forall|k: int|
            0 <= k < l.from_buffer(data).len() ==> #[trigger] l.from_buffer(data)[k] == 0,
{
}

/// A picture that is shown is NV12 of the visible size without slack, at its own
/// time or else at that of its input.
pub proof fn law_what_is_shown(l: Layout, data: Seq<u8>, time: Option<i64>, timestamp_us: u64)
    ensures
        ({
            let f = l.shown(data, time, timestamp_us);
            &&& f.format == PixelFormat::Nv12
            &&& f.width == l.width && f.height == l.height && f.stride == l.width
            &&& f.data == data
            &&& time is None ==> f.timestamp_us == timestamp_us
            &&& time matches Some(t) ==> t >= 0 ==> 10 * f.timestamp_us <= t < 10 * (f.timestamp_us
                + 1)
        }),
{
}

// ---- calls ----

/// Whether a moment is some time after another, or the last there is.
pub open spec fn is_after(t: Instant, now: Instant, nanos: int) -> bool {
    t.nanos == now.nanos + nanos || (now.nanos + nanos > u64::MAX && t.nanos == u64::MAX)
}

/// A call for a picture: a synchronous encoder is fed at once, an asynchronous one
/// against a request that is open, or else it is listened to five milliseconds at a
/// time for up to 200.
pub proof fn law_how_a_call_begins(s: FlowState, now: Instant)
    ensures
        ({
            let (t, a) = s.begun(now);
            &&& !s.asynchronous ==> a == ActionView::Feed && t.phase == Phase::Feeding && t.credits
                == s.credits
            &&& s.asynchronous ==> is_after(t.deadline, now, 200_000_000)
            &&& s.asynchronous && s.credits > 0 ==> a == ActionView::Feed && t.phase
                == Phase::Feeding && t.credits == s.credits - 1
            &&& s.asynchronous && s.credits == 0 ==> a == ActionView::Poll && t.phase
                == Phase::AwaitInput && is_after(t.until, now, 5_000_000) && t.credits == 0
            &&& t.pending == s.pending && t.frame_index == s.frame_index
        }),
{
}

/// A picture that has been fed is counted. The output of the first three is waited
/// for up to 200 milliseconds, that of any other up to 100.
pub proof fn law_how_long_a_picture_may_take(s: FlowState, now: Instant)
    requires
        s.frame_index < u64::MAX,
    ensures
        ({
            let (t, a) = s.fed(now);
            &&& t.frame_index == s.frame_index + 1
            &&& !s.asynchronous ==> a == ActionView::Take && t.phase == Phase::TakeFirst
            &&& s.asynchronous ==> a == ActionView::Poll && t.phase == Phase::AwaitOutput
            &&& s.asynchronous && s.frame_index < 3 ==> is_after(t.until, now, 200_000_000)
            &&& s.asynchronous && s.frame_index >= 3 ==> is_after(t.until, now, 100_000_000)
            &&& t.pending == s.pending && t.credits == s.credits
        }),
{
}

/// Event 601 is a request for input and opens one more; event 602 announces output,
/// which is then taken; any other is passed over.
pub proof fn law_what_events_mean(s: FlowState, event: u32, now: Instant)
    requires
        s.credits < u32::MAX,
    ensures
        ({
            let (t, a) = s.polled(Some(event), now);
            &&& event == 601 ==> a == ActionView::Poll && t == (FlowState {
                credits: (s.credits + 1) as u32,
                ..s
            })
            &&& event == 602 ==> a == ActionView::Take && t == (FlowState { phase: t.phase, ..s })
            &&& event == 602 && s.phase == Phase::AwaitInput ==> t.phase == Phase::AwaitInputTake
            &&& event == 602 && s.phase == Phase::AwaitOutput ==> t.phase == Phase::TakeFirst
            &&& event == 602 && s.phase == Phase::PollMore ==> t.phase == Phase::TakeMore
            &&& event != 601 && event != 602 ==> a == ActionView::Poll && t == s
        }),
{
}

/// Without an event there is a nap while there is time. Then a wait for input goes
/// on until its own time is up, and any other wait ends the call with the oldest
/// output there is.
pub proof fn law_what_silence_means(s: FlowState, now: Instant)
    ensures
        ({
            let (t, a) = s.polled(None, now);
            let up = now.nanos >= s.until.nanos;
            let asking = s.phase == Phase::AwaitInput;
            let stuck = now.nanos >= s.deadline.nanos;
            &&& !up ==> a == ActionView::Nap && t == s
            &&& up && asking && stuck ==> a == ActionView::Fail(FlowError::Stuck) && t.phase
                == Phase::Idle && t.pending == s.pending
            &&& up && asking && !stuck && s.credits > 0 ==> a == ActionView::Feed && t.credits
                == s.credits - 1
            &&& up && asking && !stuck && s.credits == 0 ==> a == ActionView::Poll && is_after(
                t.until,
                now,
                5_000_000,
            )
            &&& up && !asking && s.pending.len() == 0 ==> a == ActionView::Done(None) && t.phase
                == Phase::Idle
            &&& up && !asking && s.pending.len() > 0 ==> a == ActionView::Done(Some(s.pending[0]))
                && t.pending == s.pending.skip(1) && t.phase == Phase::Idle
        }),
{
}

/// Output that came while input was waited for is held back, and the wait goes on;
/// the picture's own is looked behind for more until there is none, and then the
/// oldest of all is handed out.
pub proof fn law_what_is_done_with_output(s: FlowState, f: Option<EncodedFrameView>, now: Instant)
    ensures
        ({
            let (t, a) = s.taken(f, now);
            let held = if f is Some {
                s.pending.push(f->0)
            } else {
                s.pending
            };
            let first = s.phase == Phase::TakeFirst;
            let more = first || f is Some;
            &&& s.phase == Phase::AwaitInputTake ==> t.pending == held && (a == ActionView::Feed
                || a == ActionView::Poll || a == ActionView::Fail(FlowError::Stuck))
            &&& s.phase != Phase::AwaitInputTake && more && s.asynchronous ==> a == ActionView::Poll
                && t.phase == Phase::PollMore && t.until == now && t.pending == held
            &&& s.phase != Phase::AwaitInputTake && more && !s.asynchronous ==> a
                == ActionView::Take && t.phase == Phase::TakeMore && t.pending == held
            &&& s.phase != Phase::AwaitInputTake && !more && held.len() > 0 ==> a
                == ActionView::Done(Some(held[0])) && t.pending == held.skip(1)
            &&& s.phase != Phase::AwaitInputTake && !more && held.len() == 0 ==> a
                == ActionView::Done(None)
        }),
{
}

/// A picture is taken if it is NV12 and of the agreed size.
pub proof fn law_which_pictures_are_taken(cfg: EncoderConfig, f: RawFrameView)
    ensures
        flow_refused(cfg, f) is None <==> f.format == PixelFormat::Nv12 && f.width == cfg.width
            && f.height == cfg.height,
        f.format != PixelFormat::Nv12 ==> flow_refused(cfg, f) == Some(FlowError::Format),
        f.format == PixelFormat::Nv12 && (f.width != cfg.width || f.height != cfg.height)
            ==> flow_refused(cfg, f) == Some(FlowError::Size),
{
}

/// An encoder brings its own samples if either of the flags 0x100 and 0x200 says so.
pub proof fn law_who_brings_the_samples(flags: u32)
    ensures
        provides(flags) <==> flags & 0x300 != 0,
{
    assert(flags & 0x300 != 0 <==> ((flags / 0x100) % 2 == 1 || (flags / 0x200) % 2 == 1))
        by (bit_vector);
}

/// A sample with bytes is an access unit: a keyframe if it is marked as a clean
/// point, at its time in microseconds, or at the beginning where it has none.
pub proof fn law_the_unit_of_a_sample(data: Seq<u8>, clean: Option<u32>, time: Option<i64>)
    ensures
        unit_of(data, clean, time) is None <==> data.len() == 0,
        unit_of(data, clean, time) matches Some(u) ==> {
            &&& u.data == data
            &&& u.keyframe <==> clean == Some(1u32)
            &&& time is None ==> u.timestamp_us == 0
            &&& time matches Some(t) ==> t >= 0 ==> 10 * u.timestamp_us <= t < 10 * (u.timestamp_us
                + 1)
        },
{
}

} // verus!
