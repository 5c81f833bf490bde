//! Pixel formats.
use castr::media::convert::{bgra_to_i420, bgra_to_nv12, convert, nv12_to_i420};
use castr::media::codec::{PixelFormat, RawFrame};

fn solid_bgra(w: u32, h: u32, b: u8, g: u8, r: u8) -> Vec<u8> {
    let mut v = Vec::with_capacity((w * h * 4) as usize);
    for _ in 0..w * h {
        v.extend_from_slice(&[b, g, r, 255]);
    }
    v
}

#[test]
fn white_maps_to_limited_range_white() {
    let out = bgra_to_i420(&solid_bgra(4, 2, 255, 255, 255), 4, 2, 16);
    assert_eq!(out.len(), 4 * 2 + 2 * 2);
    assert!(
        out[..8].iter().all(|&y| (234..=236).contains(&y)),
        "Y={:?}",
        &out[..8]
    );
    assert!(out[8..].iter().all(|&c| (127..=129).contains(&c)));
}

#[test]
fn pure_red_has_high_v_low_u() {
    let out = bgra_to_i420(&solid_bgra(2, 2, 0, 0, 255), 2, 2, 8);
    let y = out[0];
    let u = out[4];
    let v = out[5];
    assert!((78..=84).contains(&y), "y={y}");
    assert!(u < 100, "u={u}");
    assert!(v > 220, "v={v}");
}

#[test]
fn stride_larger_than_width_is_respected() {
    let mut src = solid_bgra(2, 2, 255, 255, 255);
    src.splice(8..8, vec![0u8; 8]);
    src.extend_from_slice(&[0u8; 8]);
    let out = bgra_to_i420(&src, 2, 2, 16);
    assert!(out[..4].iter().all(|&y| y > 230));
}

#[test]
fn nv12_and_i420_agree() {
    let src = solid_bgra(4, 4, 30, 200, 90);
    let i420 = bgra_to_i420(&src, 4, 4, 16);
    let nv12 = bgra_to_nv12(&src, 4, 4, 16);
    assert_eq!(nv12.len(), i420.len());
    assert_eq!(&nv12[..16], &i420[..16]);
    assert_eq!(nv12_to_i420(&nv12, 4, 4), i420);
}

#[test]
fn convert_identity_and_bgra_to_targets() {
    let f = RawFrame {
        format: PixelFormat::Bgra,
        width: 2,
        height: 2,
        stride: 8,
        data: solid_bgra(2, 2, 1, 2, 3),
        timestamp_us: 9,
    };
    let same = convert(&f, PixelFormat::Bgra);
    assert_eq!(same.data, f.data);
    let i420 = convert(&f, PixelFormat::I420);
    assert_eq!(i420.format, PixelFormat::I420);
    assert_eq!(i420.stride, 2);
    assert_eq!(i420.timestamp_us, 9);
    assert_eq!(i420.data.len(), 6);
    let nv12 = convert(&f, PixelFormat::Nv12);
    assert_eq!(nv12.data.len(), 6);
}
