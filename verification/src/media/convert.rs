//! Conversion between pixel formats: BT.601 limited range, 4:2:0.
use vstd::arithmetic::div_mod::lemma_fundamental_div_mod_converse;
use vstd::prelude::*;
use crate::media::codec::{PixelFormat, RawFrame, RawFrameView};
use crate::wire::{part, push_bytes};

verus! {

pub open spec fn clamp(x: int, low: int, high: int) -> int {
    if x < low {
        low
    } else if x > high {
        high
    } else {
        x
    }
}

/// Luma of a colour.
pub open spec fn luma(r: int, g: int, b: int) -> u8 {
    clamp(16 + (66 * r + 129 * g + 25 * b + 128) / 256, 16, 235) as u8
}

/// Blue-difference chroma of a colour.
pub open spec fn chroma_u(r: int, g: int, b: int) -> u8 {
    clamp(128 + (-38 * r - 74 * g + 112 * b + 128) / 256, 16, 240) as u8
}

/// Red-difference chroma of a colour.
pub open spec fn chroma_v(r: int, g: int, b: int) -> u8 {
    clamp(128 + (112 * r - 94 * g - 18 * b + 128) / 256, 16, 240) as u8
}

/// Where the pixel in column `col` of row `row` begins.
pub open spec fn pixel_at(stride: int, row: int, col: int) -> int {
    row * stride + col * 4
}

/// The sum of one colour channel over the two-by-two block at `row`, `col`.
pub open spec fn block_sum(src: Seq<u8>, stride: int, row: int, col: int, channel: int) -> int {
    src[pixel_at(stride, row, col) + channel] + src[pixel_at(stride, row, col + 1) + channel]
        + src[pixel_at(stride, row + 1, col) + channel] + src[pixel_at(stride, row + 1, col + 1)
        + channel]
}

pub open spec fn luma_at(src: Seq<u8>, stride: int, row: int, col: int) -> u8 {
    let p = pixel_at(stride, row, col);
    luma(src[p + 2] as int, src[p + 1] as int, src[p] as int)
}

pub open spec fn u_at(src: Seq<u8>, stride: int, row: int, col: int) -> u8 {
    chroma_u(
        block_sum(src, stride, row, col, 2) / 4,
        block_sum(src, stride, row, col, 1) / 4,
        block_sum(src, stride, row, col, 0) / 4,
    )
}

pub open spec fn v_at(src: Seq<u8>, stride: int, row: int, col: int) -> u8 {
    chroma_v(
        block_sum(src, stride, row, col, 2) / 4,
        block_sum(src, stride, row, col, 1) / 4,
        block_sum(src, stride, row, col, 0) / 4,
    )
}

/// The luma plane: one byte per pixel, row by row.
pub open spec fn y_plane(src: Seq<u8>, w: int, h: int, stride: int) -> Seq<u8> {
    Seq::new((w * h) as nat, |i: int| luma_at(src, stride, i / w, i % w))
}

/// The blue-difference plane: one byte per two-by-two block.
pub open spec fn u_plane(src: Seq<u8>, w: int, h: int, stride: int) -> Seq<u8> {
    Seq::new(
        ((w / 2) * (h / 2)) as nat,
        |i: int| u_at(src, stride, i / (w / 2) * 2, i % (w / 2) * 2),
    )
}

/// The red-difference plane: one byte per two-by-two block.
pub open spec fn v_plane(src: Seq<u8>, w: int, h: int, stride: int) -> Seq<u8> {
    Seq::new(
        ((w / 2) * (h / 2)) as nat,
        |i: int| v_at(src, stride, i / (w / 2) * 2, i % (w / 2) * 2),
    )
}

/// Two planes sample by sample.
pub open spec fn interleaved(a: Seq<u8>, b: Seq<u8>) -> Seq<u8> {
    Seq::new(2 * a.len(), |i: int| if i % 2 == 0 {
        a[i / 2]
    } else {
        b[i / 2]
    })
}

/// The bytes at even places.
pub open spec fn evens(s: Seq<u8>) -> Seq<u8> {
    Seq::new((s.len() + 1) / 2, |i: int| s[2 * i])
}

/// The bytes at odd places.
pub open spec fn odds(s: Seq<u8>) -> Seq<u8> {
    Seq::new(s.len() / 2, |i: int| s[2 * i + 1])
}

/// A picture that can be converted: even on both sides, its pixels all in the
/// buffer, and its planes of a size that can be counted.
pub open spec fn convertible(len: nat, w: int, h: int, stride: int) -> bool {
    &&& w % 2 == 0
    &&& h % 2 == 0
    &&& w * h * 3 / 2 <= usize::MAX
    &&& w > 0 && h > 0 ==> (h - 1) * stride + (w - 1) * 4 + 2 < len
}

pub open spec fn i420_of(src: Seq<u8>, w: int, h: int, stride: int) -> Seq<u8> {
    y_plane(src, w, h, stride) + u_plane(src, w, h, stride) + v_plane(src, w, h, stride)
}

pub open spec fn nv12_of(src: Seq<u8>, w: int, h: int, stride: int) -> Seq<u8> {
    y_plane(src, w, h, stride) + interleaved(
        u_plane(src, w, h, stride),
        v_plane(src, w, h, stride),
    )
}

pub open spec fn i420_of_nv12(src: Seq<u8>, w: int, h: int) -> Seq<u8> {
    let uv = src.skip(w * h);
    src.take(w * h) + evens(uv) + odds(uv)
}

fn clamp_byte(x: i32, low: i32, high: i32) -> (r: u8)
    requires
        0 <= low <= high <= 255,
    ensures
        r == clamp(x as int, low as int, high as int),
{
    if x < low {
        low as u8
    } else if x > high {
        high as u8
    } else {
        x as u8
    }
}

fn rgb_to_y(r: u8, g: u8, b: u8) -> (y: u8)
    ensures
        y == luma(r as int, g as int, b as int),
{
    clamp_byte(16 + (66 * r as i32 + 129 * g as i32 + 25 * b as i32 + 128) / 256, 16, 235)
}

fn rgb_to_u(r: i32, g: i32, b: i32) -> (u: u8)
    requires
        0 <= r <= 255,
        0 <= g <= 255,
        0 <= b <= 255,
    ensures
        u == chroma_u(r as int, g as int, b as int),
{
    // Shifted up by a multiple of 256 so that the division rounds down.
    let x: i32 = (112 * b + 128 + 65536 - 38 * r - 74 * g) / 256 - 256;
    clamp_byte(128 + x, 16, 240)
}

fn rgb_to_v(r: i32, g: i32, b: i32) -> (v: u8)
    requires
        0 <= r <= 255,
        0 <= g <= 255,
        0 <= b <= 255,
    ensures
        v == chroma_v(r as int, g as int, b as int),
{
    let x: i32 = (112 * r + 128 + 65536 - 94 * g - 18 * b) / 256 - 256;
    clamp_byte(128 + x, 16, 240)
}

/// A pixel of a convertible picture lies in the buffer.
proof fn lemma_pixel_in_range(len: nat, w: int, h: int, stride: int, row: int, col: int)
    requires
        convertible(len, w, h, stride),
        0 <= stride,
        0 <= row < h,
        0 <= col < w,
    ensures
        0 <= row * stride,
        0 <= pixel_at(stride, row, col),
        pixel_at(stride, row, col) + 2 < len,
{
    assert(0 <= row * stride <= (h - 1) * stride) by (nonlinear_arith)
        requires
            0 <= row <= h - 1,
            0 <= stride,
    ;
}

/// Row and column come back out of a position.
proof fn lemma_row_col(w: int, row: int, col: int)
    requires
        0 <= col < w,
        0 <= row,
    ensures
        (row * w + col) / w == row,
        (row * w + col) % w == col,
{
    lemma_fundamental_div_mod_converse(row * w + col, w, row, col);
}

/// The luma plane.
fn make_y(src: &[u8], w: usize, h: usize, s: usize) -> (y: Vec<u8>)
    requires
        convertible(src@.len(), w as int, h as int, s as int),
    ensures
        y@ == y_plane(src@, w as int, h as int, s as int),
{
    let len: usize = src.len();
    let mut y: Vec<u8> = Vec::new();
    let ghost all = y_plane(src@, w as int, h as int, s as int);
    let mut row: usize = 0;
    assert(0 * w == 0) by (nonlinear_arith);
    while row < h
        invariant
            row <= h,
            len == src@.len(),
            convertible(src@.len(), w as int, h as int, s as int),
            all == y_plane(src@, w as int, h as int, s as int),
            y@.len() == row * w,
            row * w <= h * w,
            forall|i: int| 0 <= i < y@.len() ==> y@[i] == all[i],
        decreases h - row,
    {
        let mut col: usize = 0;
        assert(row * w + w <= h * w) by (nonlinear_arith)
            requires
                row + 1 <= h,
                0 <= w,
        ;
        while col < w
            invariant
                row < h,
                col <= w,
                len == src@.len(),
                convertible(src@.len(), w as int, h as int, s as int),
                all == y_plane(src@, w as int, h as int, s as int),
                y@.len() == row * w + col,
                row * w + w <= h * w,
                forall|i: int| 0 <= i < y@.len() ==> y@[i] == all[i],
            decreases w - col,
        {
            proof {
                lemma_pixel_in_range(
                    src@.len(),
                    w as int,
                    h as int,
                    s as int,
                    row as int,
                    col as int,
                );
                lemma_row_col(w as int, row as int, col as int);
                assert(h * w == w * h) by (nonlinear_arith);
            }
            let p: usize = row * s + col * 4;
            y.push(rgb_to_y(src[p + 2], src[p + 1], src[p]));
            col = col + 1;
        }
        assert((row + 1) * w == row * w + w) by (nonlinear_arith);
        row = row + 1;
    }
    assert(h * w == w * h) by (nonlinear_arith);
    assert(y@ =~= all);
    y
}

/// The two chroma planes.
fn make_uv(src: &[u8], w: usize, h: usize, s: usize) -> (r: (Vec<u8>, Vec<u8>))
    requires
        convertible(src@.len(), w as int, h as int, s as int),
    ensures
        r.0@ == u_plane(src@, w as int, h as int, s as int),
        r.1@ == v_plane(src@, w as int, h as int, s as int),
{
    let len: usize = src.len();
    let mut u: Vec<u8> = Vec::new();
    let mut v: Vec<u8> = Vec::new();
    let w2: usize = w / 2;
    let h2: usize = h / 2;
    let ghost all_u = u_plane(src@, w as int, h as int, s as int);
    let ghost all_v = v_plane(src@, w as int, h as int, s as int);
    let mut row: usize = 0;
    assert(0 * w2 == 0) by (nonlinear_arith);
    while row < h2
        invariant
            row <= h2,
            len == src@.len(),
            w2 == w / 2,
            h2 == h / 2,
            convertible(src@.len(), w as int, h as int, s as int),
            all_u == u_plane(src@, w as int, h as int, s as int),
            all_v == v_plane(src@, w as int, h as int, s as int),
            u@.len() == row * w2,
            v@.len() == row * w2,
            row * w2 <= h2 * w2,
            forall|i: int| 0 <= i < u@.len() ==> u@[i] == all_u[i],
            forall|i: int| 0 <= i < v@.len() ==> v@[i] == all_v[i],
        decreases h2 - row,
    {
        let mut col: usize = 0;
        assert(row * w2 + w2 <= h2 * w2) by (nonlinear_arith)
            requires
                row + 1 <= h2,
                0 <= w2,
        ;
        while col < w2
            invariant
                row < h2,
                col <= w2,
                len == src@.len(),
                w2 == w / 2,
                h2 == h / 2,
                convertible(src@.len(), w as int, h as int, s as int),
                all_u == u_plane(src@, w as int, h as int, s as int),
                all_v == v_plane(src@, w as int, h as int, s as int),
                u@.len() == row * w2 + col,
                v@.len() == row * w2 + col,
                row * w2 + w2 <= h2 * w2,
                forall|i: int| 0 <= i < u@.len() ==> u@[i] == all_u[i],
                forall|i: int| 0 <= i < v@.len() ==> v@[i] == all_v[i],
            decreases w2 - col,
        {
            let top: usize = row * 2;
            let left: usize = col * 2;
            proof {
                let (len, wi, hi, si) = (src@.len(), w as int, h as int, s as int);
                lemma_pixel_in_range(len, wi, hi, si, top as int, left as int);
                lemma_pixel_in_range(len, wi, hi, si, top as int, left + 1);
                lemma_pixel_in_range(len, wi, hi, si, top + 1, left as int);
                lemma_pixel_in_range(len, wi, hi, si, top + 1, left + 1);
                lemma_row_col(w2 as int, row as int, col as int);
                assert(h2 * w2 == w2 * h2) by (nonlinear_arith);
            }
            let p0: usize = top * s + left * 4;
            let p1: usize = top * s + (left + 1) * 4;
            let p2: usize = (top + 1) * s + left * 4;
            let p3: usize = (top + 1) * s + (left + 1) * 4;
            let b: i32 = (src[p0] as i32 + src[p1] as i32 + src[p2] as i32 + src[p3] as i32) / 4;
            let g: i32 = (src[p0 + 1] as i32 + src[p1 + 1] as i32 + src[p2 + 1] as i32 + src[p3
                + 1] as i32) / 4;
            let r: i32 = (src[p0 + 2] as i32 + src[p1 + 2] as i32 + src[p2 + 2] as i32 + src[p3
                + 2] as i32) / 4;
            u.push(rgb_to_u(r, g, b));
            v.push(rgb_to_v(r, g, b));
            col = col + 1;
        }
        assert((row + 1) * w2 == row * w2 + w2) by (nonlinear_arith);
        row = row + 1;
    }
    assert(h2 * w2 == w2 * h2) by (nonlinear_arith);
    assert(u@ =~= all_u);
    assert(v@ =~= all_v);
    (u, v)
}

pub fn bgra_to_i420(src: &[u8], width: u32, height: u32, stride: u32) -> (out: Vec<u8>)
    requires
        convertible(src@.len(), width as int, height as int, stride as int),
    ensures
        out@ == i420_of(src@, width as int, height as int, stride as int),
{
    let mut y = make_y(src, width as usize, height as usize, stride as usize);
    let (u, v) = make_uv(src, width as usize, height as usize, stride as usize);
    push_bytes(&mut y, &u);
    push_bytes(&mut y, &v);
    y
}

pub fn bgra_to_nv12(src: &[u8], width: u32, height: u32, stride: u32) -> (out: Vec<u8>)
    requires
        convertible(src@.len(), width as int, height as int, stride as int),
    ensures
        out@ == nv12_of(src@, width as int, height as int, stride as int),
{
    let mut out = make_y(src, width as usize, height as usize, stride as usize);
    let ghost y = out@;
    let (u, v) = make_uv(src, width as usize, height as usize, stride as usize);
    let ghost uv = interleaved(u@, v@);
    let mut i: usize = 0;
    assert(out@ =~= y + uv.take(0));
    while i < u.len()
        invariant
            i <= u@.len(),
            u@.len() == v@.len(),
            uv == interleaved(u@, v@),
            out@ == y + uv.take(2 * i as int),
        decreases u@.len() - i,
    {
        out.push(u[i]);
        out.push(v[i]);
        assert(uv[2 * i as int] == u@[i as int]);
        assert(uv[2 * i as int + 1] == v@[i as int]);
        assert(out@ =~= y + uv.take(2 * i as int + 2));
        i = i + 1;
    }
    assert(uv.take(2 * i as int) =~= uv);
    out
}

pub fn nv12_to_i420(src: &[u8], width: u32, height: u32) -> (out: Vec<u8>)
    requires
        width * height <= src@.len(),
    ensures
        out@ == i420_of_nv12(src@, width as int, height as int),
{
    let len: usize = src.len();
    assert(0 <= width * height <= 0xffff_ffff * 0xffff_ffff) by (nonlinear_arith)
        requires
            0 <= width <= 0xffff_ffff,
            0 <= height <= 0xffff_ffff,
    ;
    let n: usize = (width as u64 * height as u64) as usize;
    let mut out: Vec<u8> = Vec::new();
    push_bytes(&mut out, part(src, 0, n));
    let ghost y = out@;
    let ghost uv = src@.skip(n as int);
    assert(y =~= src@.take(n as int));
    let mut i: usize = n;
    assert(out@ =~= y + evens(uv).take(0));
    while i < src.len()
        invariant
            n <= i <= src@.len() + 1,
            (i - n) % 2 == 0,
            n == width * height,
            y == src@.take(n as int),
            uv == src@.skip(n as int),
            out@ == y + evens(uv).take((i - n) / 2),
        decreases src@.len() + 1 - i,
    {
        out.push(src[i]);
        let ghost k = (i - n) / 2;
        assert(evens(uv).take(k + 1) =~= evens(uv).take(k).push(uv[2 * k]));
        assert(out@ =~= y + evens(uv).take(k + 1));
        if i + 1 >= src.len() {
            assert(evens(uv).take(k + 1) =~= evens(uv));
            assert(odds(uv).len() == k);
            assert(out@ =~= y + evens(uv));
            return push_odds(out, src, n);
        }
        i = i + 2;
    }
    assert(evens(uv).take((i - n) / 2) =~= evens(uv));
    push_odds(out, src, n)
}

fn push_odds(start: Vec<u8>, src: &[u8], n: usize) -> (out: Vec<u8>)
    requires
        n <= src@.len(),
    ensures
        out@ == start@ + odds(src@.skip(n as int)),
{
    let mut out = start;
    let ghost uv = src@.skip(n as int);
    let mut k: usize = 0;
    let len: usize = src.len();
    let count: usize = (len - n) / 2;
    assert(out@ =~= start@ + odds(uv).take(0));
    while k < count
        invariant
            k <= count,
            len == src@.len(),
            count == (len - n) / 2,
            n <= src@.len(),
            uv == src@.skip(n as int),
            out@ == start@ + odds(uv).take(k as int),
        decreases count - k,
    {
        out.push(src[n + 2 * k + 1]);
        k = k + 1;
        assert(odds(uv).take(k as int) =~= odds(uv).take(k - 1).push(uv[2 * (k - 1) + 1]));
        assert(out@ =~= start@ + odds(uv).take(k as int));
    }
    assert(odds(uv).take(k as int) =~= odds(uv));
    out
}

/// A conversion there is, on a picture it can take.
pub open spec fn can_convert(f: RawFrameView, to: PixelFormat) -> bool {
    match (f.format, to) {
        (PixelFormat::Bgra, PixelFormat::I420) | (PixelFormat::Bgra, PixelFormat::Nv12) =>
            convertible(f.data.len(), f.width as int, f.height as int, f.stride as int),
        (PixelFormat::Nv12, PixelFormat::I420) => f.width * f.height <= f.data.len(),
        (from, to) => from == to,
    }
}

/// The picture in another format.
pub open spec fn converted(f: RawFrameView, to: PixelFormat) -> RawFrameView {
    if f.format == to {
        f
    } else {
        let (w, h) = (f.width as int, f.height as int);
        RawFrameView {
            format: to,
            stride: f.width,
            data: match (f.format, to) {
                (PixelFormat::Bgra, PixelFormat::I420) => i420_of(f.data, w, h, f.stride as int),
                (PixelFormat::Bgra, _) => nv12_of(f.data, w, h, f.stride as int),
                _ => i420_of_nv12(f.data, w, h),
            },
            ..f
        }
    }
}

pub fn convert(frame: &RawFrame, to: PixelFormat) -> (r: RawFrame)
    requires
        can_convert(frame@, to),
    ensures
        r@ == converted(frame@, to),
{
    if frame.format == to {
        return frame.copied();
    }
    let data = match (frame.format, to) {
        (PixelFormat::Bgra, PixelFormat::I420) => bgra_to_i420(
            &frame.data,
            frame.width,
            frame.height,
            frame.stride,
        ),
        (PixelFormat::Bgra, _) => bgra_to_nv12(
            &frame.data,
            frame.width,
            frame.height,
            frame.stride,
        ),
        _ => nv12_to_i420(&frame.data, frame.width, frame.height),
    };
    RawFrame {
        format: to,
        width: frame.width,
        height: frame.height,
        stride: frame.width,
        data,
        timestamp_us: frame.timestamp_us,
    }
}

/// Both ways from BGRA to I420 agree: directly, and by way of NV12.
pub proof fn law_nv12_and_i420_agree(src: Seq<u8>, w: int, h: int, stride: int)
    requires
        w >= 0,
        h >= 0,
    ensures
        i420_of_nv12(nv12_of(src, w, h, stride), w, h) == i420_of(src, w, h, stride),
        nv12_of(src, w, h, stride).len() == i420_of(src, w, h, stride).len(),
{
    let y = y_plane(src, w, h, stride);
    let u = u_plane(src, w, h, stride);
    let v = v_plane(src, w, h, stride);
    let nv12 = nv12_of(src, w, h, stride);
    assert(w * h >= 0) by (nonlinear_arith)
        requires
            w >= 0,
            h >= 0,
    ;
    assert((w / 2) * (h / 2) >= 0) by (nonlinear_arith)
        requires
            w / 2 >= 0,
            h / 2 >= 0,
    ;
    assert(nv12.take(w * h) =~= y);
    assert(nv12.skip(w * h) =~= interleaved(u, v));
    assert(evens(interleaved(u, v)) =~= u);
    assert(odds(interleaved(u, v)) =~= v);
}

} // verus!
