//! Frames of the desktop, put together from what duplication reports.
//!
//! The texture never contains the cursor; Windows hands it over separately, so
//! it is drawn here rather than by the receiver, which keeps it consistent with
//! the picture.
use vstd::prelude::*;
use crate::capture::cursor::{drawn, place, CursorCache, CursorKind, CursorShape};
use crate::media::codec::{PixelFormat, RawFrame};

verus! {

/// `DXGI_ERROR_WAIT_TIMEOUT`.
pub const WAIT_TIMEOUT: u32 = 0x887A_0027;

/// `DXGI_ERROR_ACCESS_LOST`.
pub const ACCESS_LOST: u32 = 0x887A_0026;

/// `DXGI_OUTDUPL_POINTER_SHAPE_TYPE_MONOCHROME`.
pub const SHAPE_MONOCHROME: u32 = 1;

/// `DXGI_OUTDUPL_POINTER_SHAPE_TYPE_COLOR`.
pub const SHAPE_COLOR: u32 = 2;

/// `DXGI_OUTDUPL_POINTER_SHAPE_TYPE_MASKED_COLOR`.
pub const SHAPE_MASKED_COLOR: u32 = 4;

/// What a failure to get a frame means.
#[derive(Debug, Clone, Copy, PartialEq, Eq, Structural)]
pub enum AcquireFailure {
    /// Nothing changed on the screen: there is no frame this time.
    NoFrame,
    /// Duplication has to be set up again.
    AccessLost,
    Other,
}

/// What the code of a failure to get a frame means.
pub fn acquire_failure(code: u32) -> (r: AcquireFailure)
    ensures
        r == if code == WAIT_TIMEOUT {
            AcquireFailure::NoFrame
        } else if code == ACCESS_LOST {
            AcquireFailure::AccessLost
        } else {
            AcquireFailure::Other
        },
{
    if code == WAIT_TIMEOUT {
        AcquireFailure::NoFrame
    } else if code == ACCESS_LOST {
        AcquireFailure::AccessLost
    } else {
        AcquireFailure::Other
    }
}

/// The pointer's shape as it is reported.
#[derive(Debug, Clone)]
pub struct ReportedShape {
    pub shape_type: u32,
    pub width: u32,
    pub height: u32,
    pub pitch: u32,
    pub hotspot_x: i32,
    pub hotspot_y: i32,
    pub data: Vec<u8>,
}

/// What is reported of the pointer with a frame.
#[derive(Debug)]
pub struct ReportedPointer {
    /// Bytes a new shape takes; zero where there is none.
    pub shape_size: u32,
    /// The new shape, where it could be read.
    pub shape: Option<ReportedShape>,
    /// When the mouse was last heard of; zero where this frame has nothing of
    /// it.
    pub last_update: i64,
    pub x: i32,
    pub y: i32,
    pub visible: bool,
}

/// The kind a reported type stands for. A shape type we do not know how to draw
/// is skipped rather than guessed at.
pub open spec fn kind_of(shape_type: u32) -> Option<CursorKind> {
    if shape_type == SHAPE_MONOCHROME {
        Some(CursorKind::Monochrome)
    } else if shape_type == SHAPE_COLOR {
        Some(CursorKind::Color)
    } else if shape_type == SHAPE_MASKED_COLOR {
        Some(CursorKind::MaskedColor)
    } else {
        None
    }
}

/// The shape that is reported, if it is one that can be drawn. The shape is
/// sent only when it changes, so a zero size means "reuse what you have", not
/// "no cursor"; and where it could not be read, a stale cursor beats none.
pub open spec fn new_shape(p: ReportedPointer) -> Option<CursorShape> {
    if p.shape_size == 0 {
        None
    } else {
        match p.shape {
            Some(s) => match kind_of(s.shape_type) {
                Some(kind) => Some(
                    CursorShape {
                        kind,
                        width: s.width,
                        height: s.height,
                        pitch: s.pitch,
                        hotspot_x: s.hotspot_x,
                        hotspot_y: s.hotspot_y,
                        data: s.data,
                    },
                ),
                None => None,
            },
            None => None,
        }
    }
}

/// The position that is reported. It is filled in only on a frame that carries
/// a mouse update; on every other frame it is zeroed. Reading it regardless
/// would park a still cursor at the origin and call it hidden, which is most of
/// the time - the pointer is stationary far more often than not.
pub open spec fn new_position(p: ReportedPointer) -> Option<(i32, i32, bool)> {
    if p.last_update != 0 {
        Some((p.x, p.y, p.visible))
    } else {
        None
    }
}

/// What a frame's texture came to: its row pitch and its bytes, or nothing.
pub struct Texture {
    pub row_pitch: u32,
    pub data: Vec<u8>,
}

/// The desktop that is captured: its size, and the cursor on it.
pub struct Desktop {
    width: u32,
    height: u32,
    cursor: CursorCache,
}

impl Desktop {
    pub closed spec fn dimensions(&self) -> (u32, u32) {
        (self.width, self.height)
    }

    /// The shape that was reported last.
    pub closed spec fn shape(&self) -> Option<CursorShape> {
        self.cursor.shape()
    }

    /// The position and visibility that were reported last.
    pub closed spec fn position(&self) -> (i32, i32, bool) {
        self.cursor.position()
    }

    /// A desktop in the mode that duplication reports. Its sides are made even,
    /// for 4:2:0.
    pub fn new(mode_width: u32, mode_height: u32) -> (d: Self)
        ensures
            d.dimensions() == (
                (mode_width - mode_width % 2) as u32,
                (mode_height - mode_height % 2) as u32,
            ),
            d.shape() is None,
            d.position() == (0i32, 0i32, false),
    {
        Desktop {
            width: mode_width - mode_width % 2,
            height: mode_height - mode_height % 2,
            cursor: CursorCache::new(),
        }
    }

    pub fn size(&self) -> (r: (u32, u32))
        ensures
            r == self.dimensions(),
    {
        (self.width, self.height)
    }

    /// How many bytes a mapped texture of this desktop has.
    pub fn mapped_len(&self, row_pitch: u32) -> (n: u64)
        ensures
            n == row_pitch * self.dimensions().1,
    {
        assert(row_pitch * self.height <= 0xffff_ffff * 0xffff_ffff) by (nonlinear_arith)
            requires
                0 <= row_pitch <= 0xffff_ffff,
                0 <= self.height <= 0xffff_ffff,
        ;
        row_pitch as u64 * self.height as u64
    }

    /// Takes in a frame: what is reported of the pointer is remembered whatever
    /// became of the texture, and the cursor is drawn over the texture where
    /// there is one.
    pub fn on_frame(
        &mut self,
        pointer: ReportedPointer,
        texture: Option<Texture>,
        timestamp_us: u64,
    ) -> (r: Option<RawFrame>)
        ensures
            final(self).dimensions() == old(self).dimensions(),
            final(self).shape() == match new_shape(pointer) {
                Some(s) => Some(s),
                None => old(self).shape(),
            },
            final(self).position() == match new_position(pointer) {
                Some(p) => p,
                None => old(self).position(),
            },
            r is Some <==> texture is Some,
            r matches Some(f) ==> {
                let t = texture.unwrap();
                let (w, h) = old(self).dimensions();
                let (x, y, visible) = final(self).position();
                &&& f.format == PixelFormat::Bgra
                &&& (f.width, f.height) == (w, h)
                &&& f.stride == t.row_pitch
                &&& f.timestamp_us == timestamp_us
                &&& f.data@ == match final(self).shape() {
                    Some(s) if visible => drawn(s, place(x, y, w, h, t.row_pitch), t.data@),
                    _ => t.data@,
                }
            },
    {
        let shape = if pointer.shape_size > 0 {
            match pointer.shape {
                Some(s) => match drawable(s.shape_type) {
                    Some(kind) => Some(
                        CursorShape {
                            kind,
                            width: s.width,
                            height: s.height,
                            pitch: s.pitch,
                            hotspot_x: s.hotspot_x,
                            hotspot_y: s.hotspot_y,
                            data: s.data,
                        },
                    ),
                    None => None,
                },
                None => None,
            }
        } else {
            None
        };
        let position = if pointer.last_update != 0 {
            Some((pointer.x, pointer.y, pointer.visible))
        } else {
            None
        };
        self.cursor.update(position, shape);
        match texture {
            None => None,
            Some(t) => {
                let stride: u32 = t.row_pitch;
                let mut data = t.data;
                self.cursor.draw(data.as_mut_slice(), self.width, self.height, stride);
                Some(
                    RawFrame {
                        format: PixelFormat::Bgra,
                        width: self.width,
                        height: self.height,
                        stride,
                        data,
                        timestamp_us,
                    },
                )
            },
        }
    }
}

/// The kind a reported type stands for.
fn drawable(shape_type: u32) -> (r: Option<CursorKind>)
    ensures
        r == kind_of(shape_type),
{
    if shape_type == SHAPE_MONOCHROME {
        Some(CursorKind::Monochrome)
    } else if shape_type == SHAPE_COLOR {
        Some(CursorKind::Color)
    } else if shape_type == SHAPE_MASKED_COLOR {
        Some(CursorKind::MaskedColor)
    } else {
        None
    }
}

// ---- laws ----

/// A desktop's sides are even, whatever the mode, and lose at most one pixel.
pub proof fn law_sides_are_even(side: u32)
    ensures
        ((side - side % 2) as u32) % 2 == 0,
        side - 1 <= ((side - side % 2) as u32) <= side,
{
}

/// A frame that says nothing of the mouse moves nothing, and one without a
/// shape replaces none.
pub proof fn law_silence_keeps_the_cursor(p: ReportedPointer)
    requires
        p.last_update == 0,
        p.shape_size == 0,
    ensures
        new_position(p) is None,
        new_shape(p) is None,
{
}

/// A shape of the types 1, 2 and 4 is taken as it was reported, as monochrome, as
/// colour and as masked colour; one of another type, one that could not be read
/// and one of no size is not taken.
pub proof fn law_which_shapes_are_taken(p: ReportedPointer)
    ensures
        ({
            let there = p.shape_size != 0 && p.shape is Some;
            let t = p.shape->0.shape_type;
            let taken = new_shape(p);
            &&& taken is Some <==> there && (t == 1 || t == 2 || t == 4)
            &&& taken is Some && t == 1 ==> taken->0.kind == CursorKind::Monochrome
            &&& taken is Some && t == 2 ==> taken->0.kind == CursorKind::Color
            &&& taken is Some && t == 4 ==> taken->0.kind == CursorKind::MaskedColor
            &&& taken is Some ==> taken->0.width == p.shape->0.width && taken->0.height
                == p.shape->0.height && taken->0.pitch == p.shape->0.pitch && taken->0.hotspot_x
                == p.shape->0.hotspot_x && taken->0.hotspot_y == p.shape->0.hotspot_y
                && taken->0.data == p.shape->0.data
        }),
{
}

/// The position that came with a frame counts exactly if the frame heard of the
/// mouse.
pub proof fn law_which_positions_are_taken(p: ReportedPointer)
    ensures
        p.last_update != 0 ==> new_position(p) == Some((p.x, p.y, p.visible)),
        p.last_update == 0 ==> new_position(p) is None,
{
}

} // verus!
