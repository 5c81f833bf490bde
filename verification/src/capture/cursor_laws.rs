//! What a cursor looks like once it is drawn, for each kind of shape.
use vstd::prelude::*;
use crate::capture::cursor::{
    colour_at, drawn, law_each_pixel_is_painted, mask_bit, mix, painted, Bgr, CursorKind,
    CursorShape, Place,
};

verus! {

/// The byte of the picture at which the pixel `cx`, `cy` of a shape lands.
pub open spec fn spot(at: Place, cx: int, cy: int) -> int {
    (at.y + cy) * at.stride + 4 * (at.x + cx)
}

/// Whether that pixel lies in the picture, and in the buffer.
pub open spec fn lands(at: Place, cx: int, cy: int, dst: Seq<u8>) -> bool {
    &&& at.stride >= 4 * at.width
    &&& 0 <= at.x + cx < at.width
    &&& 0 <= at.y + cy < at.height
    &&& spot(at, cx, cy) + 4 <= dst.len()
}

/// Whether three bytes of a picture are these: blue, green and red.
pub open spec fn shows(dst: Seq<u8>, i: int, b: int, g: int, r: int) -> bool {
    dst[i] == b && dst[i + 1] == g && dst[i + 2] == r
}

/// The bits of a byte, the highest first.
proof fn lemma_mask_bit(byte: u8, cx: int)
    requires
        0 <= cx,
    ensures
        mask_bit(byte, cx) == ((byte >> ((7 - cx % 8) as u8)) & 1 == 1),
{
    assert((byte >> 7u8) & 1 == byte / 128 % 2) by (bit_vector);
    assert((byte >> 6u8) & 1 == byte / 64 % 2) by (bit_vector);
    assert((byte >> 5u8) & 1 == byte / 32 % 2) by (bit_vector);
    assert((byte >> 4u8) & 1 == byte / 16 % 2) by (bit_vector);
    assert((byte >> 3u8) & 1 == byte / 8 % 2) by (bit_vector);
    assert((byte >> 2u8) & 1 == byte / 4 % 2) by (bit_vector);
    assert((byte >> 1u8) & 1 == byte / 2 % 2) by (bit_vector);
    assert((byte >> 0u8) & 1 == byte % 2) by (bit_vector);
}

/// A monochrome shape is two masks of the same size, the second below the first.
/// A pixel is decided by the two bits in its own place, the highest bit of a byte
/// being the leftmost: neither set is black, only the second is white, only the
/// first leaves what is there, and both invert it.
pub proof fn law_monochrome_pixels(
    shape: CursorShape,
    at: Place,
    dst: Seq<u8>,
    first: Seq<u8>,
    second: Seq<u8>,
    cx: int,
    cy: int,
)
    requires
        shape.kind == CursorKind::Monochrome,
        shape.height % 2 == 0,
        shape.data@ == first + second,
        first.len() == shape.height / 2 * shape.pitch,
        second.len() == first.len(),
        shape.width <= 8 * shape.pitch,
        0 <= cx < shape.width,
        0 <= cy < shape.height / 2,
        lands(at, cx, cy, dst),
    ensures
        ({
            let k = cy * shape.pitch + cx / 8;
            let n = (7 - cx % 8) as u8;
            let one = (first[k] >> n) & 1 == 1;
            let two = (second[k] >> n) & 1 == 1;
            let i = spot(at, cx, cy);
            let out = drawn(shape, at, dst);
            &&& 0 <= k < first.len()
            &&& !one && !two ==> shows(out, i, 0, 0, 0)
            &&& !one && two ==> shows(out, i, 255, 255, 255)
            &&& one && !two ==> shows(out, i, dst[i] as int, dst[i + 1] as int, dst[i + 2] as int)
            &&& one && two ==> shows(out, i, 255 - dst[i], 255 - dst[i + 1], 255 - dst[i + 2])
        }),
{
    law_each_pixel_is_painted(shape, at, dst, cx, cy);
    let k = cy * shape.pitch + cx / 8;
    let rows = shape.height as int / 2;
    let pitch = shape.pitch as int;
    assert(0 <= cy * pitch && cy * pitch + pitch <= rows * pitch) by (nonlinear_arith)
        requires
            0 <= cy,
            cy + 1 <= rows,
            0 <= pitch,
    ;
    assert((cy + rows) * pitch == cy * pitch + rows * pitch) by (nonlinear_arith);
    assert(0 <= k < first.len());
    assert(shape.data@[k] == first[k]);
    assert(shape.data@[(cy + rows) * pitch + cx / 8] == second[k]);
    lemma_mask_bit(first[k], cx);
    lemma_mask_bit(second[k], cx);
}

/// A pixel of a colour shape is laid over what is there by its alpha: each colour
/// comes out as the weighted mean of the two, cut to a whole number.
pub proof fn law_colour_pixels(shape: CursorShape, at: Place, dst: Seq<u8>, cx: int, cy: int)
    requires
        shape.kind == CursorKind::Color,
        0 <= cx < shape.width,
        0 <= cy < shape.height,
        cy * shape.pitch + 4 * cx + 4 <= shape.data@.len(),
        lands(at, cx, cy, dst),
    ensures
        ({
            let k = cy * shape.pitch + 4 * cx;
            let a = shape.data@[k + 3];
            let i = spot(at, cx, cy);
            let out = drawn(shape, at, dst);
            forall|c: int|
                0 <= c < 3 ==> {
                    let sum = shape.data@[k + c] * a + dst[i + c] * (255 - a);
                    255 * #[trigger] out[i + c] <= sum < 255 * (out[i + c] + 1)
                }
        }),
{
    law_each_pixel_is_painted(shape, at, dst, cx, cy);
    let k = cy * shape.pitch + 4 * cx;
    let a = shape.data@[k + 3];
    let i = spot(at, cx, cy);
    assert(0 <= cy * shape.pitch) by (nonlinear_arith)
        requires
            0 <= cy,
            0 <= shape.pitch,
    ;
    lemma_mix(shape.data@[k], a, dst[i]);
    lemma_mix(shape.data@[k + 1], a, dst[i + 1]);
    lemma_mix(shape.data@[k + 2], a, dst[i + 2]);
    let out = drawn(shape, at, dst);
    assert(colour_at(out, i) == (Bgr {
        b: mix(shape.data@[k], a, dst[i]),
        g: mix(shape.data@[k + 1], a, dst[i + 1]),
        r: mix(shape.data@[k + 2], a, dst[i + 2]),
    }));
    assert forall|c: int| 0 <= c < 3 implies {
        let sum = shape.data@[k + c] * a + dst[i + c] * (255 - a);
        255 * #[trigger] out[i + c] <= sum < 255 * (out[i + c] + 1)
    } by {
        if c == 0 {
        } else if c == 1 {
        } else {
            assert(c == 2);
        }
    }
}

proof fn lemma_mix(s: u8, a: u8, d: u8)
    ensures
        255 * mix(s, a, d) <= s * a + d * (255 - a) < 255 * (mix(s, a, d) + 1),
{
    let sum = s * a + d * (255 - a);
    assert(0 <= sum <= 255 * 255) by (nonlinear_arith)
        requires
            sum == s * a + d * (255 - a),
            0 <= s <= 255,
            0 <= a <= 255,
            0 <= d <= 255,
    ;
}

/// A pixel of a masked shape replaces what is there if its alpha is zero, and
/// otherwise has its bits flipped into it, so that drawing it twice undoes it.
pub proof fn law_masked_pixels(shape: CursorShape, at: Place, dst: Seq<u8>, cx: int, cy: int)
    requires
        shape.kind == CursorKind::MaskedColor,
        0 <= cx < shape.width,
        0 <= cy < shape.height,
        cy * shape.pitch + 4 * cx + 4 <= shape.data@.len(),
        lands(at, cx, cy, dst),
    ensures
        ({
            let k = cy * shape.pitch + 4 * cx;
            let i = spot(at, cx, cy);
            let out = drawn(shape, at, dst);
            &&& shape.data@[k + 3] == 0 ==> forall|c: int|
                0 <= c < 3 ==> #[trigger] out[i + c] == shape.data@[k + c]
            &&& shape.data@[k + 3] != 0 ==> forall|c: int|
                0 <= c < 3 ==> (#[trigger] out[i + c]) ^ dst[i + c] == shape.data@[k + c]
        }),
{
    law_each_pixel_is_painted(shape, at, dst, cx, cy);
    let k = cy * shape.pitch + 4 * cx;
    let i = spot(at, cx, cy);
    let out = drawn(shape, at, dst);
    assert(0 <= cy * shape.pitch) by (nonlinear_arith)
        requires
            0 <= cy,
            0 <= shape.pitch,
    ;
    assert(colour_at(out, i) == painted(shape, cx, cy, colour_at(dst, i)));
    assert forall|u: u8, s: u8| (#[trigger] (u ^ s)) ^ u == s by {
        assert((u ^ s) ^ u == s) by (bit_vector);
    }
    if shape.data@[k + 3] == 0 {
        assert forall|c: int| 0 <= c < 3 implies #[trigger] out[i + c] == shape.data@[k + c] by {
            assert(c == 0 || c == 1 || c == 2);
        }
    } else {
        assert forall|c: int| 0 <= c < 3 implies (#[trigger] out[i + c]) ^ dst[i + c]
            == shape.data@[k + c] by {
            assert(c == 0 || c == 1 || c == 2);
            assert(out[i + c] == dst[i + c] ^ shape.data@[k + c]);
        }
    }
}

/// A pixel that the shape's buffer does not hold leaves what is there.
pub proof fn law_missing_pixels(shape: CursorShape, at: Place, dst: Seq<u8>, cx: int, cy: int)
    requires
        shape.kind != CursorKind::Monochrome,
        0 <= cx < shape.width,
        0 <= cy < shape.height,
        cy * shape.pitch + 4 * cx + 4 > shape.data@.len(),
        lands(at, cx, cy, dst),
    ensures
        ({
            let i = spot(at, cx, cy);
            shows(
                drawn(shape, at, dst),
                i,
                dst[i] as int,
                dst[i + 1] as int,
                dst[i + 2] as int,
            )
        }),
{
    law_each_pixel_is_painted(shape, at, dst, cx, cy);
}

} // verus!
