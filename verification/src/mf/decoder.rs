//! The pictures of a decoder that pads what it puts out.
use vstd::prelude::*;
use crate::media::codec::{PixelFormat, RawFrame, RawFrameView};
use crate::media::crop::{push_rows, rows};
use crate::mf::attributes::{micros, micros_of, unpack, unpacked};
use crate::wire::{part, push_bytes, push_fill};

verus! {

/// `MFT_OUTPUT_STREAM_PROVIDES_SAMPLES`.
pub const PROVIDES_SAMPLES: u32 = 0x100;

/// How long a picture is taken to last, in microseconds.
pub const PICTURE_US: u64 = 33_333;

/// How the decoder lays out its pictures.
#[derive(Debug, Clone, Copy, PartialEq, Eq, Structural)]
pub struct Layout {
    /// Coded (padded) surface size, used to compute buffer strides.
    pub coded_width: u32,
    pub coded_height: u32,
    /// Visible size reported to callers, taken from the display aperture when
    /// the decoder exposes one (the coded size is macroblock-aligned and can be
    /// larger).
    pub width: u32,
    pub height: u32,
    pub output_size: u32,
    pub provides_samples: bool,
}

/// The first of the apertures from `i` on that names an area.
pub open spec fn aperture_from(apertures: Seq<Option<(i32, i32)>>, i: int) -> Option<(u32, u32)>
    decreases apertures.len() - i,
{
    if i >= apertures.len() || i < 0 {
        None
    } else {
        match apertures[i] {
            Some(a) if a.0 > 0 && a.1 > 0 => Some((a.0 as u32, a.1 as u32)),
            _ => aperture_from(apertures, i + 1),
        }
    }
}

/// The visible region of a type, by its apertures in the order in which they
/// count, if any of them names one.
pub fn display_aperture(apertures: &[Option<(i32, i32)>]) -> (r: Option<(u32, u32)>)
    ensures
        r == aperture_from(apertures@, 0),
{
    let n: usize = apertures.len();
    let mut i: usize = 0;
    while i < n
        invariant
            i <= n,
            n == apertures@.len(),
            aperture_from(apertures@, 0) == aperture_from(apertures@, i as int),
        decreases n - i,
    {
        if let Some((cx, cy)) = apertures[i] {
            if cx > 0 && cy > 0 {
                return Some((cx as u32, cy as u32));
            }
        }
        i = i + 1;
    }
    None
}

/// What an output type comes to.
pub open spec fn laid_out(
    coded: (u32, u32),
    aperture: Option<(u32, u32)>,
    buffer_size: u32,
    flags: u32,
) -> Layout {
    let visible = match aperture {
        Some(a) => a,
        None => coded,
    };
    let least = coded.0 * coded.1 * 3 / 2;
    Layout {
        coded_width: coded.0,
        coded_height: coded.1,
        width: visible.0,
        height: visible.1,
        output_size: if buffer_size >= least {
            buffer_size
        } else {
            least as u32
        },
        provides_samples: (flags / PROVIDES_SAMPLES) % 2 == 1,
    }
}

/// What an output type comes to: the packed frame size it announces, its
/// apertures, the buffer size and the flags of its stream.
pub fn layout(
    frame_size: u64,
    apertures: &[Option<(i32, i32)>],
    buffer_size: u32,
    flags: u32,
) -> (l: Layout)
    requires
        unpacked(frame_size).0 * unpacked(frame_size).1 * 3 <= u32::MAX,
    ensures
        l == laid_out(unpacked(frame_size), aperture_from(apertures@, 0), buffer_size, flags),
{
    let (w, h) = unpack(frame_size);
    let (width, height) = match display_aperture(apertures) {
        Some(a) => a,
        None => (w, h),
    };
    assert(w * h >= 0) by (nonlinear_arith);
    assert(w * h * 3 <= u32::MAX);
    let least: u32 = (w as u64 * h as u64 * 3 / 2) as u32;
    Layout {
        coded_width: w,
        coded_height: h,
        width,
        height,
        output_size: if buffer_size >= least {
            buffer_size
        } else {
            least
        },
        provides_samples: (flags / PROVIDES_SAMPLES) % 2 == 1,
    }
}

impl Layout {
    /// Bytes of a picture in NV12.
    pub open spec fn picture_len(self) -> int {
        self.width * self.height * 3 / 2
    }

    /// The picture in a surface with rows `pitch` apart: `height` rows of
    /// luma, and half as many of interleaved chroma, which start at the coded
    /// luma height, not the visible one. An odd byte is left zero.
    pub open spec fn from_surface(self, src: Seq<u8>, pitch: int) -> Seq<u8> {
        let w = self.width as int;
        let h = self.height as int;
        let visible = rows(src, 0, pitch, w, h) + rows(
            src,
            self.coded_height * pitch,
            pitch,
            w,
            h / 2,
        );
        visible + zeros(self.picture_len() - visible.len())
    }

    /// The picture in a buffer without slack: the buffer itself where nothing
    /// is padded, cut or filled up with zeros to the picture's size; else the
    /// visible part of the coded surface, or nothing where that is not all
    /// there.
    pub open spec fn from_buffer(self, data: Seq<u8>) -> Seq<u8> {
        let n = self.picture_len();
        if self.coded_width == self.width && self.coded_height == self.height {
            if data.len() >= n {
                data.take(n)
            } else {
                data + zeros(n - data.len())
            }
        } else if data.len() >= self.coded_width * self.coded_height * 3 / 2 {
            self.from_surface(data, self.coded_width as int)
        } else {
            zeros(n)
        }
    }

    /// Bytes of a surface that its picture is read from: up to the end of the
    /// last row of luma, or of chroma if that is further.
    pub open spec fn surface_len(self, pitch: int) -> int {
        let luma = if self.height > 0 {
            (self.height - 1) * pitch + self.width
        } else {
            0
        };
        let chroma = if self.height / 2 > 0 {
            (self.coded_height + self.height / 2 - 1) * pitch + self.width
        } else {
            0
        };
        if luma >= chroma {
            luma
        } else {
            chroma
        }
    }

    /// Bytes of a surface that its picture is read from.
    pub fn surface_bytes(&self, pitch: u32) -> (n: u128)
        ensures
            n == self.surface_len(pitch as int),
    {
        let w: u128 = self.width as u128;
        let h: u128 = self.height as u128;
        let c: u128 = self.coded_height as u128;
        let p: u128 = pitch as u128;
        assert(h > 0 ==> 0 <= (h - 1) * p <= 0xffff_ffff * 0xffff_ffff) by (nonlinear_arith)
            requires
                0 <= h <= 0xffff_ffff,
                0 <= p <= 0xffff_ffff,
        ;
        assert(h / 2 > 0 ==> 0 <= (c + h / 2 - 1) * p <= 0x1_ffff_ffff * 0xffff_ffff)
            by (nonlinear_arith)
            requires
                0 <= h <= 0xffff_ffff,
                0 <= c <= 0xffff_ffff,
                0 <= p <= 0xffff_ffff,
        ;
        let luma: u128 = if h > 0 {
            (h - 1) * p + w
        } else {
            0
        };
        let chroma: u128 = if h / 2 > 0 {
            (c + h / 2 - 1) * p + w
        } else {
            0
        };
        if luma >= chroma {
            luma
        } else {
            chroma
        }
    }

    /// The picture in a surface with rows `pitch` apart.
    pub fn read_surface(&self, src: &[u8], pitch: usize) -> (out: Vec<u8>)
        requires
            self.width * self.height * 3 <= usize::MAX,
            self.surface_len(pitch as int) <= src@.len(),
        ensures
            out@ == self.from_surface(src@, pitch as int),
    {
        let w: usize = self.width as usize;
        let h: usize = self.height as usize;
        let len: usize = src.len();
        let ghost chroma = self.coded_height * pitch;
        proof {
            lemma_surface(*self, pitch as int);
        }
        let mut out: Vec<u8> = Vec::new();
        push_rows(&mut out, src, 0, pitch, w, h);
        if h / 2 > 0 {
            push_rows(&mut out, src, self.coded_height as usize * pitch, pitch, w, h / 2);
        }
        let ghost visible = out@;
        proof {
            lemma_rows_len(src@, 0, pitch as int, w as int, h as int);
            lemma_rows_len(src@, chroma, pitch as int, w as int, h as int / 2);
            lemma_halves(w as int, h as int);
            assert(visible =~= rows(src@, 0, pitch as int, w as int, h as int) + rows(
                src@,
                self.coded_height * pitch,
                pitch as int,
                w as int,
                h as int / 2,
            ));
        }
        let n: usize = w * h * 3 / 2;
        let have: usize = out.len();
        push_fill(&mut out, 0, n - have);
        assert(out@ =~= self.from_surface(src@, pitch as int));
        out
    }

    /// The picture in a buffer without slack.
    pub fn read_buffer(&self, data: &[u8]) -> (out: Vec<u8>)
        requires
            self.width * self.height * 3 <= usize::MAX,
            (self.coded_width != self.width || self.coded_height != self.height) && data@.len()
                >= self.coded_width * self.coded_height * 3 / 2 ==> self.surface_len(
                self.coded_width as int,
            ) <= data@.len(),
        ensures
            out@ == self.from_buffer(data@),
    {
        assert(0 <= self.width * self.height) by (nonlinear_arith);
        assert(0 <= self.coded_width * self.coded_height <= 0xffff_ffff * 0xffff_ffff)
            by (nonlinear_arith)
            requires
                0 <= self.coded_width <= 0xffff_ffff,
                0 <= self.coded_height <= 0xffff_ffff,
        ;
        let n: usize = self.width as usize * self.height as usize * 3 / 2;
        let len: usize = data.len();
        if self.coded_width == self.width && self.coded_height == self.height {
            let take: usize = if len >= n {
                n
            } else {
                len
            };
            let mut out: Vec<u8> = Vec::new();
            push_bytes(&mut out, part(data, 0, take));
            push_fill(&mut out, 0, n - take);
            assert(out@ =~= self.from_buffer(data@));
            out
        } else if len as u128 >= self.coded_width as u128 * self.coded_height as u128 * 3 / 2 {
            self.read_surface(data, self.coded_width as usize)
        } else {
            let mut out: Vec<u8> = Vec::new();
            push_fill(&mut out, 0, n);
            assert(out@ =~= self.from_buffer(data@));
            out
        }
    }

    /// The picture of a sample: at the sample's time, or at its input's where it
    /// has none.
    pub open spec fn shown(self, data: Seq<u8>, time: Option<i64>, timestamp_us: u64) -> RawFrameView {
        RawFrameView {
            format: PixelFormat::Nv12,
            width: self.width,
            height: self.height,
            stride: self.width,
            data,
            timestamp_us: match time {
                Some(t) => micros_of(t),
                None => timestamp_us,
            },
        }
    }

    /// The picture of a sample: at the sample's time, or at its input's where it
    /// has none.
    pub fn picture(&self, data: Vec<u8>, time: Option<i64>, timestamp_us: u64) -> (f: RawFrame)
        ensures
            f@ == self.shown(data@, time, timestamp_us),
    {
        RawFrame {
            format: PixelFormat::Nv12,
            width: self.width,
            height: self.height,
            stride: self.width,
            data,
            timestamp_us: match time {
                Some(t) => micros(t),
                None => timestamp_us,
            },
        }
    }
}

/// As many zeros.
pub open spec fn zeros(n: int) -> Seq<u8> {
    Seq::new(
        (if n > 0 {
            n
        } else {
            0
        }) as nat,
        |i: int| 0u8,
    )
}

proof fn lemma_rows_len(src: Seq<u8>, base: int, stride: int, w: int, n: int)
    requires
        0 <= n,
        0 <= w,
        0 <= stride,
        0 <= base,
        n > 0 ==> base + (n - 1) * stride + w <= src.len(),
    ensures
        rows(src, base, stride, w, n).len() == n * w,
    decreases n,
{
    if n > 0 {
        assert((n - 1) * stride >= 0) by (nonlinear_arith)
            requires
                n > 0,
                stride >= 0,
        ;
        assert(n - 1 > 0 ==> (n - 2) * stride <= (n - 1) * stride) by (nonlinear_arith)
            requires
                n > 0,
                stride >= 0,
        ;
        lemma_rows_len(src, base, stride, w, n - 1);
        assert((n - 1) * w + w == n * w) by (nonlinear_arith);
    } else {
        assert(0 * w == 0) by (nonlinear_arith);
    }
}

/// The rows a picture is read from lie within its surface.
proof fn lemma_surface(l: Layout, pitch: int)
    requires
        pitch >= 0,
    ensures
        l.height > 0 ==> (l.height - 1) * pitch + l.width <= l.surface_len(pitch),
        l.height / 2 > 0 ==> l.coded_height * pitch + (l.height as int / 2 - 1) * pitch + l.width
            <= l.surface_len(pitch),
        0 <= l.coded_height * pitch,
        l.height / 2 > 0 ==> l.coded_height * pitch <= l.surface_len(pitch),
        l.width * l.height >= 0,
{
    let c = l.coded_height as int;
    let half = l.height as int / 2;
    assert((c + half - 1) * pitch == c * pitch + (half - 1) * pitch) by (nonlinear_arith);
    assert(c * pitch >= 0 && (half > 0 ==> (half - 1) * pitch >= 0)) by (nonlinear_arith)
        requires
            c >= 0,
            pitch >= 0,
    ;
    assert(l.width * l.height >= 0) by (nonlinear_arith);
}

/// What is visible is at most the picture.
proof fn lemma_halves(w: int, h: int)
    requires
        w >= 0,
        h >= 0,
    ensures
        h * w + (h / 2) * w <= w * h * 3 / 2,
{
    assert(2 * ((h / 2) * w) <= h * w) by (nonlinear_arith)
        requires
            w >= 0,
            h >= 0,
    ;
    assert(h * w == w * h) by (nonlinear_arith);
}

// ---- laws ----

/// A picture has the size it announces, whatever the decoder handed over, as
/// long as the visible part lies within the coded one.
pub proof fn law_pictures_have_their_size(l: Layout, data: Seq<u8>)
    requires
        l.width <= l.coded_width,
        l.height <= l.coded_height,
    ensures
        l.from_buffer(data).len() == l.picture_len(),
{
    let w = l.width as int;
    let h = l.height as int;
    let cw = l.coded_width as int;
    let ch = l.coded_height as int;
    assert(0 <= w * h && 0 <= cw * ch) by (nonlinear_arith)
        requires
            w >= 0,
            h >= 0,
            cw >= 0,
            ch >= 0,
    ;
    if data.len() >= cw * ch * 3 / 2 {
        lemma_tight(l);
        lemma_surface(l, cw);
        lemma_rows_len(data, 0, cw, w, h);
        lemma_rows_len(data, ch * cw, cw, w, h / 2);
        lemma_halves(w, h);
    }
}

/// A coded picture without slack holds the visible one.
proof fn lemma_tight(l: Layout)
    requires
        l.width <= l.coded_width,
        l.height <= l.coded_height,
    ensures
        l.surface_len(l.coded_width as int) <= l.coded_width * l.coded_height * 3 / 2,
{
    let cw = l.coded_width as int;
    let ch = l.coded_height as int;
    let h = l.height as int;
    let half = h / 2;
    assert(h > 0 ==> (h - 1) * cw + cw <= cw * ch) by (nonlinear_arith)
        requires
            h <= ch,
            cw >= 0,
    ;
    assert(half > 0 ==> 2 * ((ch + half - 1) * cw + cw) <= 3 * (cw * ch)) by (nonlinear_arith)
        requires
            2 * half <= ch,
            cw >= 0,
            ch >= 0,
    ;
    assert(0 <= cw * ch) by (nonlinear_arith)
        requires
            cw >= 0,
            ch >= 0,
    ;
}

} // verus!
