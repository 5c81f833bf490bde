//! What a converted picture looks like, colour by colour and place by place.
use vstd::prelude::*;
use crate::media::codec::{PixelFormat, RawFrameView};
use crate::media::convert::{
    block_sum, can_convert, chroma_u, chroma_v, convertible, converted, i420_of, i420_of_nv12, luma,
    luma_at, nv12_of, pixel_at, u_at, u_plane, v_at, v_plane, y_plane,
};

verus! {

// ---- colours ----

/// Luma is that of BT.601 in limited range, to the nearest step: black is 16 and
/// white 235, and of the three colours green weighs most and blue least.
pub proof fn law_luma(r: int, g: int, b: int)
    requires
        0 <= r <= 255,
        0 <= g <= 255,
        0 <= b <= 255,
    ensures
        -128 <= 256 * (luma(r, g, b) - 16) - (66 * r + 129 * g + 25 * b) <= 128,
        16 <= luma(r, g, b) <= 235,
        r == 0 && g == 0 && b == 0 ==> luma(r, g, b) == 16,
        r == 255 && g == 255 && b == 255 ==> luma(r, g, b) == 235,
        r == 255 && g == 0 && b == 0 ==> luma(r, g, b) == 82,
        r == 0 && g == 255 && b == 0 ==> luma(r, g, b) == 144,
        r == 0 && g == 0 && b == 255 ==> luma(r, g, b) == 41,
{
}

/// Chroma is that of BT.601 in limited range, to the nearest step: a grey has
/// none, pure blue has the most of the one and pure red of the other, and they
/// are the least where those two are missing.
pub proof fn law_chroma(r: int, g: int, b: int)
    requires
        0 <= r <= 255,
        0 <= g <= 255,
        0 <= b <= 255,
    ensures
        -128 <= 256 * (chroma_u(r, g, b) - 128) - (112 * b - 38 * r - 74 * g) <= 128,
        -128 <= 256 * (chroma_v(r, g, b) - 128) - (112 * r - 94 * g - 18 * b) <= 128,
        16 <= chroma_u(r, g, b) <= 240,
        16 <= chroma_v(r, g, b) <= 240,
        r == g && g == b ==> chroma_u(r, g, b) == 128 && chroma_v(r, g, b) == 128,
        r == 0 && g == 0 && b == 255 ==> chroma_u(r, g, b) == 240,
        r == 255 && g == 255 && b == 0 ==> chroma_u(r, g, b) == 16,
        r == 255 && g == 0 && b == 0 ==> chroma_v(r, g, b) == 240,
        r == 0 && g == 255 && b == 255 ==> chroma_v(r, g, b) == 16,
{
}

/// More of any colour is never darker.
pub proof fn law_more_light_is_brighter(r: int, g: int, b: int, r2: int, g2: int, b2: int)
    requires
        0 <= r <= r2 <= 255,
        0 <= g <= g2 <= 255,
        0 <= b <= b2 <= 255,
    ensures
        luma(r, g, b) <= luma(r2, g2, b2),
{
}

// ---- places ----

/// The four pixels of the two-by-two block that pixel `row`, `col` heads: the sum
/// of the bytes `k` places into each.
pub open spec fn four(src: Seq<u8>, stride: int, row: int, col: int, k: int) -> int {
    src[row * stride + 4 * col + k] + src[row * stride + 4 * col + 4 + k] + src[(row + 1) * stride
        + 4 * col + k] + src[(row + 1) * stride + 4 * col + 4 + k]
}

proof fn lemma_index(w: int, h: int, row: int, col: int)
    requires
        0 <= row < h,
        0 <= col < w,
    ensures
        0 <= row * w + col < w * h,
        (row * w + col) / w == row,
        (row * w + col) % w == col,
{
    vstd::arithmetic::div_mod::lemma_fundamental_div_mod_converse(row * w + col, w, row, col);
    assert(row * w + col < w * h) by (nonlinear_arith)
        requires
            0 <= row < h,
            0 <= col < w,
    ;
    assert(0 <= row * w) by (nonlinear_arith)
        requires
            0 <= row,
            0 < w,
    ;
}

/// Every pixel of a BGRA picture has its luma in its own place of what comes out,
/// row by row without slack, in either format: the third byte of the pixel is its
/// red, the second its green, the first its blue.
pub proof fn law_every_pixel_has_its_luma(
    src: Seq<u8>,
    w: int,
    h: int,
    stride: int,
    row: int,
    col: int,
)
    requires
        0 <= row < h,
        0 <= col < w,
    ensures
        ({
            let p = row * stride + 4 * col;
            let s = 66 * src[p + 2] + 129 * src[p + 1] + 25 * src[p];
            let y = i420_of(src, w, h, stride)[row * w + col];
            &&& -128 <= 256 * (y - 16) - s <= 128
            &&& nv12_of(src, w, h, stride)[row * w + col] == y
        }),
{
    lemma_index(w, h, row, col);
    let i = row * w + col;
    let p = row * stride + 4 * col;
    assert(pixel_at(stride, row, col) == p);
    assert(y_plane(src, w, h, stride)[i] == luma_at(src, stride, row, col));
    law_luma(src[p + 2] as int, src[p + 1] as int, src[p] as int);
    assert(i420_of(src, w, h, stride)[i] == y_plane(src, w, h, stride)[i]);
    assert(nv12_of(src, w, h, stride)[i] == y_plane(src, w, h, stride)[i]);
}

/// Every two-by-two block has its chroma, that of its mean colour, in its own
/// place behind the luma: in I420 all of the blue difference first and then all
/// of the red difference, in NV12 the two in turn.
pub proof fn law_every_block_has_its_chroma(
    src: Seq<u8>,
    w: int,
    h: int,
    stride: int,
    row: int,
    col: int,
)
    requires
        w % 2 == 0,
        h % 2 == 0,
        0 <= row < h / 2,
        0 <= col < w / 2,
    ensures
        ({
            let r = four(src, stride, 2 * row, 2 * col, 2) / 4;
            let g = four(src, stride, 2 * row, 2 * col, 1) / 4;
            let b = four(src, stride, 2 * row, 2 * col, 0) / 4;
            let k = row * (w / 2) + col;
            let n = w * h;
            let planar = i420_of(src, w, h, stride);
            let paired = nv12_of(src, w, h, stride);
            &&& planar.len() == n + n / 2
            &&& paired.len() == n + n / 2
            &&& -128 <= 256 * (planar[n + k] - 128) - (112 * b - 38 * r - 74 * g) <= 128
            &&& -128 <= 256 * (planar[n + n / 4 + k] - 128) - (112 * r - 94 * g - 18 * b) <= 128
            &&& paired[n + 2 * k] == planar[n + k]
            &&& paired[n + 2 * k + 1] == planar[n + n / 4 + k]
        }),
{
    let (w2, h2) = (w / 2, h / 2);
    lemma_index(w2, h2, row, col);
    let k = row * w2 + col;
    let n = w * h;
    assert(n == 4 * (w2 * h2)) by (nonlinear_arith)
        requires
            n == w * h,
            w == 2 * w2,
            h == 2 * h2,
    ;
    let u = u_plane(src, w, h, stride);
    let v = v_plane(src, w, h, stride);
    assert(k / w2 * 2 == 2 * row);
    assert(k % w2 * 2 == 2 * col);
    assert(u[k] == u_at(src, stride, 2 * row, 2 * col));
    assert(v[k] == v_at(src, stride, 2 * row, 2 * col));
    let r = four(src, stride, 2 * row, 2 * col, 2) / 4;
    let g = four(src, stride, 2 * row, 2 * col, 1) / 4;
    let b = four(src, stride, 2 * row, 2 * col, 0) / 4;
    law_chroma(r, g, b);
    let planar = i420_of(src, w, h, stride);
    assert(planar[n + k] == u[k]);
    assert(planar[n + n / 4 + k] == v[k]);
    let paired = nv12_of(src, w, h, stride);
    assert(paired[n + 2 * k] == u[k]);
    assert(paired[n + 2 * k + 1] == v[k]);
}

/// From NV12 to I420 the luma stays, and the chroma that came in turn is taken
/// apart: the first of each pair goes ahead of all the second ones.
pub proof fn law_nv12_is_taken_apart(src: Seq<u8>, w: int, h: int, k: int)
    requires
        0 <= w * h,
        w * h % 4 == 0,
        src.len() == w * h + w * h / 2,
    ensures
        ({
            let n = w * h;
            let out = i420_of_nv12(src, w, h);
            &&& out.len() == src.len()
            &&& 0 <= k < n ==> out[k] == src[k]
            &&& 0 <= k < n / 4 ==> out[n + k] == src[n + 2 * k] && out[n + n / 4 + k] == src[n + 2
                * k + 1]
        }),
{
}

/// A picture that is converted keeps its size and its time, and its rows have no
/// slack afterwards; one that is in the format already stays as it is.
pub proof fn law_a_conversion_keeps_the_picture(f: RawFrameView, to: PixelFormat)
    requires
        can_convert(f, to),
    ensures
        converted(f, to).format == to,
        converted(f, to).width == f.width,
        converted(f, to).height == f.height,
        converted(f, to).timestamp_us == f.timestamp_us,
        f.format != to ==> converted(f, to).stride == f.width,
        f.format == to ==> converted(f, to) == f,
        f.format == PixelFormat::Bgra && to == PixelFormat::I420 ==> converted(f, to).data
            == i420_of(f.data, f.width as int, f.height as int, f.stride as int),
        f.format == PixelFormat::Bgra && to == PixelFormat::Nv12 ==> converted(f, to).data
            == nv12_of(f.data, f.width as int, f.height as int, f.stride as int),
        f.format == PixelFormat::Nv12 && to == PixelFormat::I420 ==> converted(f, to).data
            == i420_of_nv12(f.data, f.width as int, f.height as int),
{
}

} // verus!
