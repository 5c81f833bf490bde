//! The cursor.
use castr::capture::cursor::{CursorCache, CursorKind, CursorShape, blend};

/// A 4x4 BGRA canvas filled with one colour.
fn canvas(b: u8, g: u8, r: u8) -> Vec<u8> {
    let mut v = Vec::new();
    for _ in 0..16 {
        v.extend_from_slice(&[b, g, r, 255]);
    }
    v
}

fn px(buf: &[u8], x: u32, y: u32) -> (u8, u8, u8) {
    let i = (y * 16 + x * 4) as usize;
    (buf[i], buf[i + 1], buf[i + 2])
}

/// One opaque red pixel, 1x1, no hotspot.
fn one_red_pixel() -> CursorShape {
    CursorShape {
        kind: CursorKind::Color,
        width: 1,
        height: 1,
        pitch: 4,
        hotspot_x: 0,
        hotspot_y: 0,
        data: vec![0, 0, 255, 255],
    }
}

#[test]
fn a_colour_cursor_alpha_blends_over_the_desktop() {
    let mut dst = canvas(0, 0, 0);
    blend(&one_red_pixel(), 1, 2, &mut dst, 4, 4, 16);
    assert_eq!(px(&dst, 1, 2), (0, 0, 255), "opaque red lands");
    assert_eq!(px(&dst, 0, 0), (0, 0, 0), "nothing else is touched");
}

#[test]
fn a_half_transparent_pixel_mixes_with_what_is_under_it() {
    let mut dst = canvas(0, 0, 0);
    let shape = CursorShape {
        data: vec![0, 0, 255, 128],
        ..one_red_pixel()
    };
    blend(&shape, 0, 0, &mut dst, 4, 4, 16);
    let (b, g, r) = px(&dst, 0, 0);
    assert_eq!((b, g), (0, 0));
    assert!((127..=129).contains(&r), "about half red, got {r}");
}

#[test]
fn a_fully_transparent_pixel_changes_nothing() {
    let mut dst = canvas(10, 20, 30);
    let shape = CursorShape {
        data: vec![0, 0, 255, 0],
        ..one_red_pixel()
    };
    blend(&shape, 0, 0, &mut dst, 4, 4, 16);
    assert_eq!(px(&dst, 0, 0), (10, 20, 30));
}

/// An 8x1 monochrome cursor: the AND row then the XOR row, one byte each.
/// Bit 7 is the leftmost pixel.
fn mono(and_byte: u8, xor_byte: u8) -> CursorShape {
    CursorShape {
        kind: CursorKind::Monochrome,
        width: 8,
        height: 2,
        pitch: 1,
        hotspot_x: 0,
        hotspot_y: 0,
        data: vec![and_byte, xor_byte],
    }
}

#[test]
fn monochrome_covers_all_four_mask_combinations() {
    // Leftmost four pixels, in order: AND=0/XOR=0, AND=0/XOR=1,
    // AND=1/XOR=0, AND=1/XOR=1.
    // AND bits: 0,0,1,1 -> 0b0011_0000 = 0x30
    // XOR bits: 0,1,0,1 -> 0b0101_0000 = 0x50
    let mut dst = canvas(10, 20, 30);
    blend(&mono(0x30, 0x50), 0, 0, &mut dst, 4, 4, 16);
    assert_eq!(px(&dst, 0, 0), (0, 0, 0), "AND=0 XOR=0 is black");
    assert_eq!(px(&dst, 1, 0), (255, 255, 255), "AND=0 XOR=1 is white");
    assert_eq!(px(&dst, 2, 0), (10, 20, 30), "AND=1 XOR=0 is transparent");
    assert_eq!(
        px(&dst, 3, 0),
        (245, 235, 225),
        "AND=1 XOR=1 inverts what is under it"
    );
}

#[test]
fn a_monochrome_shape_draws_half_its_declared_height() {
    let s = mono(0, 0);
    assert_eq!(s.height, 2, "the buffer holds both masks");
    assert_eq!(s.drawn_height(), 1, "only one row is drawn");
}

#[test]
fn masked_colour_treats_alpha_as_a_switch_not_a_blend() {
    let mut dst = canvas(10, 20, 30);
    let shape = CursorShape {
        kind: CursorKind::MaskedColor,
        width: 2,
        height: 1,
        pitch: 8,
        hotspot_x: 0,
        hotspot_y: 0,
        // First pixel alpha 0x00: copy. Second alpha 0xFF: XOR.
        data: vec![1, 2, 3, 0x00, 0xff, 0xff, 0xff, 0xff],
    };
    blend(&shape, 0, 0, &mut dst, 4, 4, 16);
    assert_eq!(px(&dst, 0, 0), (1, 2, 3), "alpha 0 copies");
    assert_eq!(px(&dst, 1, 0), (245, 235, 225), "alpha 255 inverts");
}

#[test]
fn blend_ignores_the_hotspot_because_the_caller_applies_it() {
    // The caller subtracts the hotspot, so blend itself draws at the
    // coordinate it is given; this test pins that contract so the
    // subtraction cannot silently migrate into blend.
    let mut dst = canvas(0, 0, 0);
    let shape = CursorShape {
        hotspot_x: 3,
        hotspot_y: 3,
        ..one_red_pixel()
    };
    blend(&shape, 2, 2, &mut dst, 4, 4, 16);
    assert_eq!(px(&dst, 2, 2), (0, 0, 255), "drawn at the given point");
}

#[test]
fn a_cursor_overhanging_an_edge_is_clipped_not_skipped() {
    for (x, y, vx, vy) in [(-1i32, 0i32, 0u32, 0u32), (3, 0, 3, 0), (0, -1, 0, 0), (0, 3, 0, 3)] {
        let mut dst = canvas(0, 0, 0);
        let shape = CursorShape {
            width: 2,
            height: 2,
            pitch: 8,
            data: [0_u8, 0, 255, 255][..].repeat(4),
            ..one_red_pixel()
        };
        blend(&shape, x, y, &mut dst, 4, 4, 16);
        assert_eq!(
            px(&dst, vx, vy),
            (0, 0, 255),
            "the visible part still draws at ({x},{y})"
        );
    }
}

#[test]
fn a_cursor_entirely_off_screen_draws_nothing_and_does_not_panic() {
    let mut dst = canvas(7, 7, 7);
    blend(&one_red_pixel(), 99, 99, &mut dst, 4, 4, 16);
    blend(&one_red_pixel(), -99, -99, &mut dst, 4, 4, 16);
    assert_eq!(px(&dst, 0, 0), (7, 7, 7));
}

#[test]
fn a_truncated_shape_buffer_is_survived_rather_than_panicking() {
    // A driver that reports a size it does not deliver must not crash the
    // capture thread mid-cast.
    let mut dst = canvas(5, 5, 5);
    let shape = CursorShape {
        width: 4,
        height: 4,
        pitch: 16,
        data: vec![0, 0, 255, 255],
        ..one_red_pixel()
    };
    blend(&shape, 0, 0, &mut dst, 4, 4, 16);
    assert_eq!(px(&dst, 0, 0), (0, 0, 255), "what was delivered is drawn");
}

#[test]
fn the_cache_keeps_the_last_shape_when_none_is_offered() {
    // Windows sends a shape only when it changes, which is rarely. A cache
    // that forgets makes the cursor flicker out on almost every frame.
    let mut c = CursorCache::new();
    c.update(Some((0, 0, true)), Some(one_red_pixel()));
    c.update(Some((2, 2, true)), None);
    let mut dst = canvas(0, 0, 0);
    c.draw(&mut dst, 4, 4, 16);
    assert_eq!(px(&dst, 2, 2), (0, 0, 255), "moved, same shape");
}

#[test]
fn the_cache_draws_nothing_before_the_first_shape_arrives() {
    let mut c = CursorCache::new();
    c.update(Some((1, 1, true)), None);
    let mut dst = canvas(9, 9, 9);
    c.draw(&mut dst, 4, 4, 16);
    assert_eq!(px(&dst, 1, 1), (9, 9, 9));
}

#[test]
fn an_invisible_cursor_is_not_drawn() {
    // Full-screen games and video players hide the cursor; drawing it
    // anyway would be conspicuous.
    let mut c = CursorCache::new();
    c.update(Some((1, 1, true)), Some(one_red_pixel()));
    c.update(Some((1, 1, false)), None);
    let mut dst = canvas(9, 9, 9);
    c.draw(&mut dst, 4, 4, 16);
    assert_eq!(px(&dst, 1, 1), (9, 9, 9));
}

#[test]
fn a_frame_with_no_mouse_update_keeps_the_last_position() {
    // The duplication API fills in a pointer position only on a frame that
    // carries a mouse update. Treating the empty field on every other frame
    // as real would put the cursor at the origin and mark it hidden, so a
    // still cursor would vanish a frame after it stopped moving.
    let mut c = CursorCache::new();
    c.update(Some((2, 2, true)), Some(one_red_pixel()));
    c.update(None, None);
    let mut dst = canvas(0, 0, 0);
    c.draw(&mut dst, 4, 4, 16);
    assert_eq!(px(&dst, 2, 2), (0, 0, 255), "still there, still visible");
}

#[test]
fn a_shape_still_lands_on_a_frame_with_no_mouse_update() {
    // Shape and position arrive independently: a shape change with no
    // movement must not be dropped along with the absent position.
    let mut c = CursorCache::new();
    c.update(Some((2, 2, true)), None);
    c.update(None, Some(one_red_pixel()));
    let mut dst = canvas(0, 0, 0);
    c.draw(&mut dst, 4, 4, 16);
    assert_eq!(px(&dst, 2, 2), (0, 0, 255), "shape cached without a move");
}

#[test]
fn the_reported_position_is_the_bitmap_corner_not_the_hotspot() {
    // The duplication API has already applied the hotspot: it reports
    // where the bitmap goes. Applying it a second time here would drag
    // every cursor up and to the left by its own hotspot.
    let mut c = CursorCache::new();
    let shape = CursorShape {
        hotspot_x: 1,
        hotspot_y: 1,
        ..one_red_pixel()
    };
    c.update(Some((2, 2, true)), Some(shape));
    let mut dst = canvas(0, 0, 0);
    c.draw(&mut dst, 4, 4, 16);
    assert_eq!(px(&dst, 2, 2), (0, 0, 255), "drawn where it was reported");
}
