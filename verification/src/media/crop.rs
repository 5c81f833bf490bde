//! Cutting the visible picture out of a larger NV12 surface.
use vstd::prelude::*;
use crate::wire::{part, push_bytes};

verus! {

/// `n` rows of `w` bytes, `stride` apart, the first at `base`.
pub open spec fn rows(src: Seq<u8>, base: int, stride: int, w: int, n: int) -> Seq<u8>
    decreases n,
{
    if n <= 0 {
        Seq::empty()
    } else {
        rows(src, base, stride, w, n - 1) + src.subrange(
            base + (n - 1) * stride,
            base + (n - 1) * stride + w,
        )
    }
}

/// The NV12 picture of `w` by `h` at `left`, `top` of a surface of `coded_h`
/// rows: its luma rows, then half as many rows of interleaved chroma, which
/// begin after the whole luma surface.
pub open spec fn cropped(
    src: Seq<u8>,
    stride: int,
    coded_h: int,
    left: int,
    top: int,
    w: int,
    h: int,
) -> Seq<u8> {
    rows(src, top * stride + left, stride, w, h) + rows(
        src,
        stride * coded_h + (top / 2) * stride + left,
        stride,
        w,
        h / 2,
    )
}

/// Whether a surface of `len` bytes holds all of the visible picture.
pub open spec fn fits(
    len: int,
    stride: int,
    coded_h: int,
    left: int,
    top: int,
    w: int,
    h: int,
) -> bool {
    stride * coded_h * 3 / 2 <= len && top + h <= coded_h && left + w <= stride
}

/// Whether a surface of `len` bytes holds all of the visible picture.
pub fn fits_in(len: usize, stride: u32, coded_h: u32, left: u32, top: u32, w: u32, h: u32) -> (r:
    bool)
    ensures
        r == fits(
            len as int,
            stride as int,
            coded_h as int,
            left as int,
            top as int,
            w as int,
            h as int,
        ),
{
    assert(0 <= stride * coded_h <= 0xffff_ffff * 0xffff_ffff) by (nonlinear_arith)
        requires
            0 <= stride <= 0xffff_ffff,
            0 <= coded_h <= 0xffff_ffff,
    ;
    stride as u128 * coded_h as u128 * 3 / 2 <= len as u128 && top as u64 + h as u64
        <= coded_h as u64 && left as u64 + w as u64 <= stride as u64
}

pub(crate) fn push_rows(out: &mut Vec<u8>, src: &[u8], base: usize, stride: usize, w: usize, n: usize)
    requires
        n > 0 ==> base + (n - 1) * stride + w <= src@.len(),
    ensures
        final(out)@ == old(out)@ + rows(src@, base as int, stride as int, w as int, n as int),
{
    let len: usize = src.len();
    let mut i: usize = 0;
    assert(out@ =~= old(out)@ + rows(src@, base as int, stride as int, w as int, 0));
    while i < n
        invariant
            i <= n,
            len == src@.len(),
            n > 0 ==> base + (n - 1) * stride + w <= src@.len(),
            out@ == old(out)@ + rows(src@, base as int, stride as int, w as int, i as int),
        decreases n - i,
    {
        assert(0 <= i * stride <= (n - 1) * stride) by (nonlinear_arith)
            requires
                0 <= i <= n - 1,
                0 <= stride,
        ;
        let o: usize = base + i * stride;
        push_bytes(out, part(src, o, o + w));
        i = i + 1;
        assert(out@ =~= old(out)@ + rows(src@, base as int, stride as int, w as int, i as int));
    }
}

/// The visible picture of an NV12 surface.
pub fn crop_nv12(
    src: &[u8],
    stride: u32,
    coded_h: u32,
    left: u32,
    top: u32,
    w: u32,
    h: u32,
) -> (out: Vec<u8>)
    requires
        fits(
            src@.len() as int,
            stride as int,
            coded_h as int,
            left as int,
            top as int,
            w as int,
            h as int,
        ),
    ensures
        out@ == cropped(
            src@,
            stride as int,
            coded_h as int,
            left as int,
            top as int,
            w as int,
            h as int,
        ),
{
    let len: usize = src.len();
    let mut out: Vec<u8> = Vec::new();
    let st: usize = stride as usize;
    proof {
        lemma_fits(
            len as int,
            stride as int,
            coded_h as int,
            left as int,
            top as int,
            w as int,
            h as int,
        );
    }
    if h > 0 {
        let base: usize = top as usize * st + left as usize;
        push_rows(&mut out, src, base, st, w as usize, h as usize);
    }
    assert(out@ =~= rows(src@, top * stride + left, stride as int, w as int, h as int));
    if h / 2 > 0 {
        let base: usize = st * coded_h as usize + (top / 2) as usize * st + left as usize;
        push_rows(&mut out, src, base, st, w as usize, (h / 2) as usize);
    }
    assert(out@ =~= cropped(
        src@,
        stride as int,
        coded_h as int,
        left as int,
        top as int,
        w as int,
        h as int,
    ));
    out
}

/// Every row of a picture that fits lies in the surface.
proof fn lemma_fits(len: int, stride: int, coded_h: int, left: int, top: int, w: int, h: int)
    requires
        fits(len, stride, coded_h, left, top, w, h),
        0 <= stride,
        0 <= coded_h,
        0 <= left,
        0 <= top,
        0 <= w,
        0 <= h,
    ensures
        h > 0 ==> {
            &&& 0 <= top * stride
            &&& 0 <= (h - 1) * stride
            &&& top * stride + left + (h - 1) * stride + w <= len
        },
        h / 2 > 0 ==> {
            &&& 0 <= stride * coded_h
            &&& 0 <= (top / 2) * stride
            &&& 0 <= (h / 2 - 1) * stride
            &&& stride * coded_h + (top / 2) * stride + left + (h / 2 - 1) * stride + w <= len
        },
{
    let area = stride * coded_h;
    assert(area >= 0) by (nonlinear_arith)
        requires
            area == stride * coded_h,
            stride >= 0,
            coded_h >= 0,
    ;
    if h > 0 {
        assert(0 <= top * stride && 0 <= (h - 1) * stride && top * stride + (h - 1) * stride
            + stride <= area) by (nonlinear_arith)
            requires
                area == stride * coded_h,
                0 <= stride,
                0 <= top,
                1 <= h,
                top + h <= coded_h,
        ;
    }
    if h / 2 > 0 {
        let (t2, h2, c2) = (top / 2, h / 2, coded_h / 2);
        assert(t2 + h2 <= c2);
        assert(0 <= t2 * stride && 0 <= (h2 - 1) * stride && t2 * stride + (h2 - 1) * stride
            + stride <= stride * c2) by (nonlinear_arith)
            requires
                0 <= stride,
                0 <= t2,
                1 <= h2,
                t2 + h2 <= c2,
        ;
        assert(2 * (stride * c2) <= area) by (nonlinear_arith)
            requires
                area == stride * coded_h,
                0 <= stride,
                2 * c2 <= coded_h,
        ;
    }
}

// ---- laws ----

/// Rows that are taken out of a surface: byte `c` of row `r` lies `r` strides and
/// `c` bytes from where they begin.
pub proof fn lemma_rows(src: Seq<u8>, base: int, stride: int, w: int, n: int, r: int, c: int)
    requires
        0 <= base,
        0 <= stride,
        0 <= w,
        0 <= n,
        n > 0 ==> base + (n - 1) * stride + w <= src.len(),
    ensures
        rows(src, base, stride, w, n).len() == n * w,
        0 <= r < n && 0 <= c < w ==> 0 <= r * w + c < n * w && rows(src, base, stride, w, n)[r * w
            + c] == src[base + r * stride + c],
    decreases n,
{
    if n > 0 {
        assert(0 <= (n - 1) * stride && (n > 1 ==> (n - 2) * stride <= (n - 1) * stride))
            by (nonlinear_arith)
            requires
                n >= 1,
                stride >= 0,
        ;
        lemma_rows(src, base, stride, w, n - 1, r, c);
        assert((n - 1) * w + w == n * w) by (nonlinear_arith);
        if 0 <= r < n && 0 <= c < w {
            assert(0 <= r * w && r * w + w <= n * w && (r < n - 1 ==> r * w + w <= (n - 1) * w))
                by (nonlinear_arith)
                requires
                    0 <= r < n,
                    0 <= w,
            ;
        }
    } else {
        assert(0 * w == 0) by (nonlinear_arith);
    }
}

/// Every byte of the picture is that of its own place: luma `r` rows down and `c`
/// across from the corner, chroma as far from the corner's half height below all
/// rows of luma. The picture has no slack.
pub proof fn law_the_picture_is_cut_in_place(
    src: Seq<u8>,
    stride: int,
    coded_h: int,
    left: int,
    top: int,
    w: int,
    h: int,
    r: int,
    c: int,
)
    requires
        fits(src.len() as int, stride, coded_h, left, top, w, h),
        0 <= stride,
        0 <= coded_h,
        0 <= left,
        0 <= top,
        0 <= w,
        0 <= h,
        0 <= c < w,
    ensures
        ({
            let out = cropped(src, stride, coded_h, left, top, w, h);
            &&& out.len() == h * w + h / 2 * w
            &&& 0 <= r < h ==> out[r * w + c] == src[(top + r) * stride + left + c]
            &&& 0 <= r < h / 2 ==> out[h * w + r * w + c] == src[coded_h * stride + (top / 2 + r)
                * stride + left + c]
        }),
{
    lemma_fits(src.len() as int, stride, coded_h, left, top, w, h);
    assert(0 <= top * stride && 0 <= stride * coded_h && 0 <= (top / 2) * stride)
        by (nonlinear_arith)
        requires
            0 <= top,
            0 <= stride,
            0 <= coded_h,
    ;
    lemma_rows(src, top * stride + left, stride, w, h, r, c);
    lemma_rows(src, stride * coded_h + (top / 2) * stride + left, stride, w, h / 2, r, c);
    assert((top + r) * stride == top * stride + r * stride) by (nonlinear_arith);
    assert((top / 2 + r) * stride == (top / 2) * stride + r * stride) by (nonlinear_arith);
    assert(stride * coded_h == coded_h * stride) by (nonlinear_arith);
}

/// A surface holds a picture exactly if the picture lies within its rows and its
/// bytes are three halves of its area, in whole bytes.
pub proof fn law_what_fits(len: int, stride: int, coded_h: int, left: int, top: int, w: int, h: int)
    ensures
        fits(len, stride, coded_h, left, top, w, h) <==> {
            &&& 3 * (stride * coded_h) <= 2 * len + 1
            &&& top + h <= coded_h
            &&& left + w <= stride
        },
{
}

} // verus!
