//! Cursor shapes, and drawing one into a BGRA frame.
//!
//! Windows leaves the cursor out of the duplicated desktop and hands it over
//! separately, in three formats, two of which predate alpha channels. The
//! arrow and the text I-beam are monochrome, and getting their mask rules wrong
//! renders the text cursor as a black rectangle.
use vstd::prelude::*;

verus! {

#[derive(Debug, Clone, Copy, PartialEq, Eq, Structural)]
pub enum CursorKind {
    /// 32-bit BGRA with a real alpha channel.
    Color,
    /// 1 bit per pixel: an AND mask with the XOR mask stacked underneath it,
    /// in one buffer of double height. The standard arrow and the text
    /// I-beam are still this.
    Monochrome,
    /// 32-bit BGRA where alpha is a switch rather than a blend.
    MaskedColor,
}

#[derive(Debug, Clone)]
pub struct CursorShape {
    pub kind: CursorKind,
    pub width: u32,
    /// Rows in `data`. For `Monochrome` this is twice the drawn height.
    pub height: u32,
    /// Bytes per row in `data`.
    pub pitch: u32,
    pub hotspot_x: i32,
    pub hotspot_y: i32,
    pub data: Vec<u8>,
}

impl CursorShape {
    /// The rows that are drawn.
    pub open spec fn rows(self) -> int {
        if self.kind == CursorKind::Monochrome {
            self.height as int / 2
        } else {
            self.height as int
        }
    }

    /// Rows actually drawn, which is half the buffer for a monochrome shape.
    pub fn drawn_height(&self) -> (h: u32)
        ensures
            h == self.rows(),
    {
        match self.kind {
            CursorKind::Monochrome => self.height / 2,
            _ => self.height,
        }
    }
}

// ---- the model ----

/// The three colour bytes of a pixel: blue, green, red.
pub struct Bgr {
    pub b: u8,
    pub g: u8,
    pub r: u8,
}

/// One channel of a colour laid over another with an alpha.
pub open spec fn mix(s: u8, a: u8, d: u8) -> u8 {
    ((s * a + d * (255 - a)) / 255) as u8
}

/// The bit for column `cx` in a byte of a one-bit mask: the leftmost pixel is
/// the highest bit.
pub open spec fn mask_bit(byte: u8, cx: int) -> bool {
    (if cx % 8 == 7 {
        byte as int
    } else if cx % 8 == 6 {
        byte as int / 2
    } else if cx % 8 == 5 {
        byte as int / 4
    } else if cx % 8 == 4 {
        byte as int / 8
    } else if cx % 8 == 3 {
        byte as int / 16
    } else if cx % 8 == 2 {
        byte as int / 32
    } else if cx % 8 == 1 {
        byte as int / 64
    } else {
        byte as int / 128
    }) % 2 == 1
}

/// What pixel `cx`, `cy` of the shape makes of the colour under it. A pixel
/// that the shape's buffer does not hold leaves it alone.
pub open spec fn painted(shape: CursorShape, cx: int, cy: int, under: Bgr) -> Bgr {
    let data = shape.data@;
    if shape.kind == CursorKind::Monochrome {
        let and_i = cy * shape.pitch + cx / 8;
        let xor_i = (cy + shape.rows()) * shape.pitch + cx / 8;
        if and_i >= data.len() || xor_i >= data.len() {
            under
        } else {
            match (mask_bit(data[and_i], cx), mask_bit(data[xor_i], cx)) {
                (false, false) => Bgr { b: 0, g: 0, r: 0 },
                (false, true) => Bgr { b: 255, g: 255, r: 255 },
                (true, false) => under,
                (true, true) => Bgr {
                    b: (255 - under.b) as u8,
                    g: (255 - under.g) as u8,
                    r: (255 - under.r) as u8,
                },
            }
        }
    } else {
        let i = cy * shape.pitch + cx * 4;
        if i + 4 > data.len() {
            under
        } else if shape.kind == CursorKind::Color {
            let a = data[i + 3];
            Bgr {
                b: mix(data[i], a, under.b),
                g: mix(data[i + 1], a, under.g),
                r: mix(data[i + 2], a, under.r),
            }
        } else if data[i + 3] == 0 {
            Bgr { b: data[i], g: data[i + 1], r: data[i + 2] }
        } else {
            Bgr {
                b: under.b ^ data[i],
                g: under.g ^ data[i + 1],
                r: under.r ^ data[i + 2],
            }
        }
    }
}

/// Where a shape is drawn, and into what.
pub struct Place {
    pub x: int,
    pub y: int,
    pub width: int,
    pub height: int,
    pub stride: int,
}

impl Place {
    /// Where shape pixel `cx`, `cy` lands in the buffer.
    pub open spec fn offset(self, cx: int, cy: int) -> int {
        (self.y + cy) * self.stride + (self.x + cx) * 4
    }

    /// Whether it lands inside the picture.
    pub open spec fn inside(self, cx: int, cy: int) -> bool {
        0 <= self.y + cy < self.height && 0 <= self.x + cx < self.width
    }
}

pub open spec fn colour_at(dst: Seq<u8>, i: int) -> Bgr {
    Bgr { b: dst[i], g: dst[i + 1], r: dst[i + 2] }
}

pub open spec fn with_colour(dst: Seq<u8>, i: int, c: Bgr) -> Seq<u8> {
    dst.update(i, c.b).update(i + 1, c.g).update(i + 2, c.r)
}

/// After one pixel of the shape. One that falls outside the picture or the
/// buffer is clipped.
pub open spec fn with_pixel(
    shape: CursorShape,
    at: Place,
    cx: int,
    cy: int,
    dst: Seq<u8>,
) -> Seq<u8> {
    let i = at.offset(cx, cy);
    if at.inside(cx, cy) && i + 3 < dst.len() {
        with_colour(dst, i, painted(shape, cx, cy, colour_at(dst, i)))
    } else {
        dst
    }
}

/// After the first `n` pixels of a row.
pub open spec fn with_row(shape: CursorShape, at: Place, cy: int, n: int, dst: Seq<u8>) -> Seq<u8>
    decreases n,
{
    if n <= 0 {
        dst
    } else {
        with_pixel(shape, at, n - 1, cy, with_row(shape, at, cy, n - 1, dst))
    }
}

/// After the first `n` rows.
pub open spec fn with_rows(shape: CursorShape, at: Place, n: int, dst: Seq<u8>) -> Seq<u8>
    decreases n,
{
    if n <= 0 {
        dst
    } else {
        with_row(shape, at, n - 1, shape.width as int, with_rows(shape, at, n - 1, dst))
    }
}

/// The picture with the shape drawn into it.
pub open spec fn drawn(shape: CursorShape, at: Place, dst: Seq<u8>) -> Seq<u8> {
    with_rows(shape, at, shape.rows(), dst)
}

pub open spec fn place(x: i32, y: i32, width: u32, height: u32, stride: u32) -> Place {
    Place {
        x: x as int,
        y: y as int,
        width: width as int,
        height: height as int,
        stride: stride as int,
    }
}

// ---- the code ----

fn mask_bit_of(byte: u8, cx: u32) -> (r: bool)
    ensures
        r == mask_bit(byte, cx as int),
{
    let shifted: u8 = match cx % 8 {
        0 => byte / 128,
        1 => byte / 64,
        2 => byte / 32,
        3 => byte / 16,
        4 => byte / 8,
        5 => byte / 4,
        6 => byte / 2,
        _ => byte,
    };
    shifted % 2 == 1
}

fn mix_of(s: u8, a: u8, d: u8) -> (r: u8)
    ensures
        r == mix(s, a, d),
{
    assert(0 <= s * a <= 255 * a && 0 <= d * (255 - a) <= 255 * (255 - a)) by (nonlinear_arith)
        requires
            0 <= s <= 255,
            0 <= a <= 255,
            0 <= d <= 255,
    ;
    ((s as u32 * a as u32 + d as u32 * (255 - a as u32)) / 255) as u8
}

/// The index, if the buffer has it.
fn index_of(i: u128, len: usize) -> (r: Option<usize>)
    ensures
        r == (if i < len {
            Some(i as usize)
        } else {
            None::<usize>
        }),
{
    if i < len as u128 {
        Some(i as usize)
    } else {
        None
    }
}

fn paint(shape: &CursorShape, rows: u32, cx: u32, cy: u32, under: Bgr) -> (c: Bgr)
    requires
        rows == shape.rows(),
    ensures
        c == painted(*shape, cx as int, cy as int, under),
{
    let pitch: u128 = shape.pitch as u128;
    proof {
        lemma_products(cy as int, shape.pitch as int);
        lemma_products(cy + rows, shape.pitch as int);
    }
    match shape.kind {
        CursorKind::Monochrome => {
            let byte: u128 = (cx / 8) as u128;
            let and_i = index_of(cy as u128 * pitch + byte, shape.data.len());
            let xor_i = index_of((cy as u128 + rows as u128) * pitch + byte, shape.data.len());
            match (and_i, xor_i) {
                (Some(a), Some(x)) => {
                    let and = mask_bit_of(shape.data[a], cx);
                    let xor = mask_bit_of(shape.data[x], cx);
                    if !and && !xor {
                        Bgr { b: 0, g: 0, r: 0 }
                    } else if !and {
                        Bgr { b: 255, g: 255, r: 255 }
                    } else if !xor {
                        under
                    } else {
                        Bgr { b: 255 - under.b, g: 255 - under.g, r: 255 - under.r }
                    }
                },
                _ => under,
            }
        },
        CursorKind::Color => {
            match index_of(cy as u128 * pitch + cx as u128 * 4 + 3, shape.data.len()) {
                Some(last) => {
                    let a = shape.data[last];
                    Bgr {
                        b: mix_of(shape.data[last - 3], a, under.b),
                        g: mix_of(shape.data[last - 2], a, under.g),
                        r: mix_of(shape.data[last - 1], a, under.r),
                    }
                },
                None => under,
            }
        },
        CursorKind::MaskedColor => {
            match index_of(cy as u128 * pitch + cx as u128 * 4 + 3, shape.data.len()) {
                Some(last) => {
                    let (b, g, r) = (
                        shape.data[last - 3],
                        shape.data[last - 2],
                        shape.data[last - 1],
                    );
                    if shape.data[last] == 0 {
                        Bgr { b, g, r }
                    } else {
                        Bgr { b: under.b ^ b, g: under.g ^ g, r: under.r ^ r }
                    }
                },
                None => under,
            }
        },
    }
}

/// A product of two numbers below 2^33 is not negative and below 2^66.
proof fn lemma_products(a: int, b: int)
    requires
        0 <= a < 0x2_0000_0000,
        0 <= b < 0x2_0000_0000,
    ensures
        0 <= a * b < 0x4_0000_0000_0000_0000,
{
    assert(0 <= a * b < 0x4_0000_0000_0000_0000) by (nonlinear_arith)
        requires
            0 <= a < 0x2_0000_0000,
            0 <= b < 0x2_0000_0000,
    ;
}

/// Draws `shape` into a BGRA buffer with its top-left corner at `(x, y)`.
///
/// `x` and `y` are already hotspot-adjusted by the caller. Anything falling
/// outside the destination is clipped, and a `data` buffer shorter than the
/// declared dimensions draws what it has: a cursor that is wrong is far
/// better than a capture thread that panics mid-cast.
pub fn blend(
    shape: &CursorShape,
    x: i32,
    y: i32,
    dst: &mut [u8],
    dst_width: u32,
    dst_height: u32,
    dst_stride: u32,
)
    ensures
        final(dst)@ == drawn(*shape, place(x, y, dst_width, dst_height, dst_stride), old(dst)@),
        final(dst)@.len() == old(dst)@.len(),
{
    let rows = shape.drawn_height();
    let ghost at = place(x, y, dst_width, dst_height, dst_stride);
    let ghost start = dst@;
    let mut cy: u32 = 0;
    while cy < rows
        invariant
            cy <= rows,
            rows == shape.rows(),
            at == place(x, y, dst_width, dst_height, dst_stride),
            dst@.len() == start.len(),
            dst@ == with_rows(*shape, at, cy as int, start),
        decreases rows - cy,
    {
        let ghost row_start = dst@;
        let dy: i64 = y as i64 + cy as i64;
        let mut cx: u32 = 0;
        while cx < shape.width
            invariant
                cx <= shape.width,
                cy < rows,
                rows == shape.rows(),
                dy == y + cy,
                at == place(x, y, dst_width, dst_height, dst_stride),
                dst@.len() == row_start.len(),
                dst@ == with_row(*shape, at, cy as int, cx as int, row_start),
            decreases shape.width - cx,
        {
            let dx: i64 = x as i64 + cx as i64;
            if 0 <= dy && dy < dst_height as i64 && 0 <= dx && dx < dst_width as i64 {
                proof {
                    lemma_products(dy as int, dst_stride as int);
                }
                let last = index_of(
                    dy as u128 * dst_stride as u128 + dx as u128 * 4 + 3,
                    dst.len(),
                );
                if let Some(last) = last {
                    let i: usize = last - 3;
                    let c = paint(
                        shape,
                        rows,
                        cx,
                        cy,
                        Bgr { b: dst[i], g: dst[i + 1], r: dst[i + 2] },
                    );
                    dst[i] = c.b;
                    dst[i + 1] = c.g;
                    dst[i + 2] = c.r;
                }
            }
            cx = cx + 1;
        }
        cy = cy + 1;
    }
}

/// The last shape, position and visibility reported by the duplication API.
///
/// Neither half arrives every frame: a shape comes only when it changes, and a
/// position only on a frame that carries a mouse update. Both are therefore
/// held until something replaces them.
pub struct CursorCache {
    shape: Option<CursorShape>,
    x: i32,
    y: i32,
    visible: bool,
}

impl Default for CursorCache {
    fn default() -> (c: Self)
        ensures
            c.shape() is None,
            c.position() == (0i32, 0i32, false),
    {
        CursorCache::new()
    }
}

impl CursorCache {
    /// The shape that was reported last.
    pub closed spec fn shape(&self) -> Option<CursorShape> {
        self.shape
    }

    /// The position and visibility that were reported last.
    pub closed spec fn position(&self) -> (i32, i32, bool) {
        (self.x, self.y, self.visible)
    }

    pub fn new() -> (c: Self)
        ensures
            c.shape() is None,
            c.position() == (0i32, 0i32, false),
    {
        CursorCache { shape: None, x: 0, y: 0, visible: false }
    }

    /// `position` is `Some((x, y, visible))` only for a frame that reported a
    /// mouse update; `None` means "nothing new", not "no cursor".
    pub fn update(&mut self, position: Option<(i32, i32, bool)>, shape: Option<CursorShape>)
        ensures
            final(self).position() == match position {
                Some(p) => p,
                None => old(self).position(),
            },
            final(self).shape() == match shape {
                Some(s) => Some(s),
                None => old(self).shape(),
            },
    {
        if let Some((x, y, visible)) = position {
            self.x = x;
            self.y = y;
            self.visible = visible;
        }
        if let Some(s) = shape {
            self.shape = Some(s);
        }
    }

    /// Draws the cursor into a BGRA frame.
    ///
    /// The position is used as it arrived. The duplication API reports where
    /// the pointer bitmap's top-left corner sits, not where its hotspot does,
    /// so subtracting the hotspot here would shift the cursor up and left by
    /// it.
    pub fn draw(&self, dst: &mut [u8], width: u32, height: u32, stride: u32)
        ensures
            final(dst)@ == match self.shape() {
                Some(s) if self.position().2 => drawn(
                    s,
                    place(self.position().0, self.position().1, width, height, stride),
                    old(dst)@,
                ),
                _ => old(dst)@,
            },
    {
        if !self.visible {
            return ;
        }
        if let Some(s) = &self.shape {
            blend(s, self.x, self.y, dst, width, height, stride);
        }
    }
}

// ---- laws ----

/// Two pixels of the picture do not overlap, where its rows do not.
proof fn lemma_apart(at: Place, cx: int, cy: int, ox: int, oy: int)
    requires
        at.stride >= 4 * at.width,
        at.inside(cx, cy),
        at.inside(ox, oy),
        cx != ox || cy != oy,
    ensures
        at.offset(cx, cy) + 4 <= at.offset(ox, oy) || at.offset(ox, oy) + 4 <= at.offset(cx, cy),
{
    let (ya, yb) = (at.y + cy, at.y + oy);
    if ya < yb {
        assert(ya * at.stride + at.stride <= yb * at.stride) by (nonlinear_arith)
            requires
                ya + 1 <= yb,
                at.stride >= 0,
        ;
    } else if yb < ya {
        assert(yb * at.stride + at.stride <= ya * at.stride) by (nonlinear_arith)
            requires
                yb + 1 <= ya,
                at.stride >= 0,
        ;
    }
}

proof fn lemma_offset(at: Place, cx: int, cy: int)
    requires
        at.stride >= 0,
        at.inside(cx, cy),
    ensures
        at.offset(cx, cy) >= 0,
{
    assert((at.y + cy) * at.stride >= 0) by (nonlinear_arith)
        requires
            at.y + cy >= 0,
            at.stride >= 0,
    ;
}

/// What the first `n` pixels of row `row` do to pixel `cx`, `cy`.
proof fn lemma_row(shape: CursorShape, at: Place, row: int, n: int, dst: Seq<u8>, cx: int, cy: int)
    requires
        at.stride >= 4 * at.width,
        at.inside(cx, cy),
        at.offset(cx, cy) + 3 < dst.len(),
    ensures
        with_row(shape, at, row, n, dst).len() == dst.len(),
        colour_at(with_row(shape, at, row, n, dst), at.offset(cx, cy)) == if row == cy && 0 <= cx
            < n {
            painted(shape, cx, cy, colour_at(dst, at.offset(cx, cy)))
        } else {
            colour_at(dst, at.offset(cx, cy))
        },
    decreases n,
{
    lemma_offset(at, cx, cy);
    if n > 0 {
        lemma_row(shape, at, row, n - 1, dst, cx, cy);
        if at.inside(n - 1, row) {
            lemma_offset(at, n - 1, row);
            if n - 1 != cx || row != cy {
                lemma_apart(at, cx, cy, n - 1, row);
            }
        }
    }
}

proof fn lemma_rows(shape: CursorShape, at: Place, n: int, dst: Seq<u8>, cx: int, cy: int)
    requires
        at.stride >= 4 * at.width,
        at.inside(cx, cy),
        at.offset(cx, cy) + 3 < dst.len(),
        0 <= cx < shape.width,
    ensures
        with_rows(shape, at, n, dst).len() == dst.len(),
        colour_at(with_rows(shape, at, n, dst), at.offset(cx, cy)) == if 0 <= cy < n {
            painted(shape, cx, cy, colour_at(dst, at.offset(cx, cy)))
        } else {
            colour_at(dst, at.offset(cx, cy))
        },
    decreases n,
{
    if n > 0 {
        lemma_rows(shape, at, n - 1, dst, cx, cy);
        lemma_row(
            shape,
            at,
            n - 1,
            shape.width as int,
            with_rows(shape, at, n - 1, dst),
            cx,
            cy,
        );
    }
}

/// Every pixel of the shape that lands in the picture paints what was under
/// it, once, and no other pixel of the shape touches it.
pub proof fn law_each_pixel_is_painted(
    shape: CursorShape,
    at: Place,
    dst: Seq<u8>,
    cx: int,
    cy: int,
)
    requires
        at.stride >= 4 * at.width,
        0 <= cx < shape.width,
        0 <= cy < shape.rows(),
        at.inside(cx, cy),
        at.offset(cx, cy) + 3 < dst.len(),
    ensures
        colour_at(drawn(shape, at, dst), at.offset(cx, cy)) == painted(
            shape,
            cx,
            cy,
            colour_at(dst, at.offset(cx, cy)),
        ),
{
    lemma_rows(shape, at, shape.rows(), dst, cx, cy);
}

/// Whether a byte of the picture belongs to the colour of a pixel that the
/// shape covers.
pub open spec fn covered(shape: CursorShape, at: Place, k: int) -> bool {
    exists|cx: int, cy: int|
        0 <= cx < shape.width && 0 <= cy < shape.rows() && #[trigger] at.inside(cx, cy)
            && at.offset(cx, cy) <= k < at.offset(cx, cy) + 3
}

proof fn lemma_row_untouched(
    shape: CursorShape,
    at: Place,
    row: int,
    n: int,
    dst: Seq<u8>,
    k: int,
)
    requires
        at.stride >= 0,
        !covered(shape, at, k),
        0 <= row < shape.rows(),
        n <= shape.width,
        0 <= k < dst.len(),
    ensures
        with_row(shape, at, row, n, dst).len() == dst.len(),
        with_row(shape, at, row, n, dst)[k] == dst[k],
    decreases n,
{
    if n > 0 {
        lemma_row_untouched(shape, at, row, n - 1, dst, k);
        if at.inside(n - 1, row) {
            lemma_offset(at, n - 1, row);
        }
    }
}

proof fn lemma_rows_untouched(shape: CursorShape, at: Place, n: int, dst: Seq<u8>, k: int)
    requires
        at.stride >= 0,
        !covered(shape, at, k),
        n <= shape.rows(),
        0 <= k < dst.len(),
    ensures
        with_rows(shape, at, n, dst).len() == dst.len(),
        with_rows(shape, at, n, dst)[k] == dst[k],
    decreases n,
{
    if n > 0 {
        lemma_rows_untouched(shape, at, n - 1, dst, k);
        lemma_row_untouched(
            shape,
            at,
            n - 1,
            shape.width as int,
            with_rows(shape, at, n - 1, dst),
            k,
        );
    }
}

/// A byte that no pixel of the shape covers stays as it was. The alpha bytes
/// are among them.
pub proof fn law_nothing_else_is_touched(shape: CursorShape, at: Place, dst: Seq<u8>, k: int)
    requires
        at.stride >= 0,
        !covered(shape, at, k),
        0 <= k < dst.len(),
    ensures
        drawn(shape, at, dst)[k] == dst[k],
{
    lemma_rows_untouched(shape, at, shape.rows(), dst, k);
}

/// A fully transparent pixel changes nothing, and an opaque one replaces what
/// is under it.
pub proof fn law_alpha_extremes(s: u8, d: u8)
    ensures
        mix(s, 0, d) == d,
        mix(s, 255, d) == s,
{
}

/// A cursor entirely off the picture draws nothing.
pub proof fn law_off_screen_draws_nothing(shape: CursorShape, at: Place, dst: Seq<u8>)
    requires
        at.stride >= 0,
        at.x >= at.width || at.y >= at.height || at.x + shape.width <= 0 || at.y + shape.rows()
            <= 0,
    ensures
        drawn(shape, at, dst) == dst,
{
    assert forall|k: int| 0 <= k < dst.len() implies drawn(shape, at, dst)[k] == dst[k] by {
        law_nothing_else_is_touched(shape, at, dst, k);
    }
    if dst.len() > 0 {
        lemma_rows_untouched(shape, at, shape.rows(), dst, 0);
    } else {
        lemma_rows_empty(shape, at, shape.rows(), dst);
    }
    assert(drawn(shape, at, dst) =~= dst);
}

proof fn lemma_rows_empty(shape: CursorShape, at: Place, n: int, dst: Seq<u8>)
    requires
        at.stride >= 0,
        dst.len() == 0,
    ensures
        with_rows(shape, at, n, dst) == dst,
    decreases n,
{
    if n > 0 {
        lemma_rows_empty(shape, at, n - 1, dst);
        lemma_row_empty(shape, at, n - 1, shape.width as int, dst);
    }
}

proof fn lemma_row_empty(shape: CursorShape, at: Place, row: int, n: int, dst: Seq<u8>)
    requires
        at.stride >= 0,
        dst.len() == 0,
    ensures
        with_row(shape, at, row, n, dst) == dst,
    decreases n,
{
    if n > 0 {
        lemma_row_empty(shape, at, row, n - 1, dst);
        if at.inside(n - 1, row) {
            lemma_offset(at, n - 1, row);
        }
    }
}

/// Every pixel of the picture, by its own row and column: those that the shape covers
/// are painted with the pixel of the shape that lies over them, and all others stay.
/// A monochrome shape is half as high as its bitmap, which holds two masks.
pub proof fn law_where_a_shape_lands(
    shape: CursorShape,
    x: i32,
    y: i32,
    width: u32,
    height: u32,
    stride: u32,
    dst: Seq<u8>,
    row: int,
    col: int,
)
    requires
        stride >= 4 * width,
        0 <= row < height,
        0 <= col < width,
        row * stride + 4 * col + 3 < dst.len(),
    ensures
        ({
            let out = drawn(shape, place(x, y, width, height, stride), dst);
            let k = row * stride + 4 * col;
            let (cx, cy) = (col - x, row - y);
            let rows = if shape.kind == CursorKind::Monochrome {
                (shape.height / 2) as int
            } else {
                shape.height as int
            };
            let under = Bgr { b: dst[k], g: dst[k + 1], r: dst[k + 2] };
            let c = painted(shape, cx, cy, under);
            &&& out.len() == dst.len()
            &&& 0 <= cx < shape.width && 0 <= cy < rows ==> out[k] == c.b && out[k + 1] == c.g
                && out[k + 2] == c.r
            &&& !(0 <= cx < shape.width && 0 <= cy < rows) ==> out[k] == dst[k] && out[k + 1]
                == dst[k + 1] && out[k + 2] == dst[k + 2]
            &&& out[k + 3] == dst[k + 3]
        }),
{
    let at = place(x, y, width, height, stride);
    let (cx, cy) = (col - x, row - y);
    let k = row * stride + 4 * col;
    assert(at.offset(cx, cy) == k);
    assert(k >= 0) by (nonlinear_arith)
        requires
            k == row * stride + 4 * col,
            row >= 0,
            stride >= 0,
            col >= 0,
    ;
    if 0 <= cx < shape.width && 0 <= cy < shape.rows() {
        law_each_pixel_is_painted(shape, at, dst, cx, cy);
    }
    lemma_uncovered(shape, at, row, col);
    law_nothing_else_is_touched(shape, at, dst, k + 3);
    lemma_drawn_len(shape, at, shape.rows(), dst);
    if !(0 <= cx < shape.width && 0 <= cy < shape.rows()) {
        law_nothing_else_is_touched(shape, at, dst, k);
        law_nothing_else_is_touched(shape, at, dst, k + 1);
        law_nothing_else_is_touched(shape, at, dst, k + 2);
    }
}

proof fn lemma_drawn_len(shape: CursorShape, at: Place, n: int, dst: Seq<u8>)
    requires
        at.stride >= 0,
    ensures
        with_rows(shape, at, n, dst).len() == dst.len(),
    decreases n,
{
    if n > 0 {
        lemma_drawn_len(shape, at, n - 1, dst);
        lemma_row_len(shape, at, n - 1, shape.width as int, with_rows(shape, at, n - 1, dst));
    }
}

proof fn lemma_row_len(shape: CursorShape, at: Place, cy: int, n: int, dst: Seq<u8>)
    requires
        at.stride >= 0,
    ensures
        with_row(shape, at, cy, n, dst).len() == dst.len(),
    decreases n,
{
    if n > 0 {
        lemma_row_len(shape, at, cy, n - 1, dst);
        if at.inside(n - 1, cy) {
            lemma_offset(at, n - 1, cy);
        }
    }
}

/// A byte of a pixel's own belongs to no pixel of the shape but the one over it, and
/// its last byte to none.
proof fn lemma_uncovered(shape: CursorShape, at: Place, row: int, col: int)
    requires
        at.stride >= 4 * at.width,
        0 <= row < at.height,
        0 <= col < at.width,
    ensures
        ({
            let k = row * at.stride + 4 * col;
            let (cx, cy) = (col - at.x, row - at.y);
            let over = 0 <= cx < shape.width && 0 <= cy < shape.rows();
            &&& !covered(shape, at, k + 3)
            &&& !over ==> !covered(shape, at, k) && !covered(shape, at, k + 1) && !covered(
                shape,
                at,
                k + 2,
            )
        }),
{
    let k = row * at.stride + 4 * col;
    assert forall|d: int| 0 <= d <= 3 && #[trigger] covered(shape, at, k + d) implies d < 3 && 0
        <= col - at.x < shape.width && 0 <= row - at.y < shape.rows() by {
        let (cx, cy) = choose|cx: int, cy: int|
            0 <= cx < shape.width && 0 <= cy < shape.rows() && #[trigger] at.inside(cx, cy)
                && at.offset(cx, cy) <= k + d < at.offset(cx, cy) + 3;
        lemma_one_pixel(at, row, col, cx, cy, d);
    }
    assert(k + 0 == k);
    assert(covered(shape, at, k + 0) == covered(shape, at, k));
}

proof fn lemma_one_pixel(at: Place, row: int, col: int, cx: int, cy: int, d: int)
    requires
        at.stride >= 4 * at.width,
        0 <= row < at.height,
        0 <= col < at.width,
        at.inside(cx, cy),
        0 <= d <= 3,
        0 <= row * at.stride + 4 * col + d - at.offset(cx, cy) < 3,
    ensures
        cx == col - at.x,
        cy == row - at.y,
        d < 3,
{
    let (r, s) = (at.y + cy, at.stride);
    if r > row {
        assert(r * s >= row * s + s) by (nonlinear_arith)
            requires
                r >= row + 1,
                s >= 0,
        ;
    } else if r < row {
        assert(row * s >= r * s + s) by (nonlinear_arith)
            requires
                row >= r + 1,
                s >= 0,
        ;
    }
}

} // verus!
