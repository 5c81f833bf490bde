//! The desktop, with the cursor on it.
use castr::capture::desktop::{
    acquire_failure, AcquireFailure, Desktop, ReportedPointer, ReportedShape, Texture, ACCESS_LOST,
    SHAPE_COLOR, WAIT_TIMEOUT,
};
use castr::capture::loopback::{append_packet, is_silent, loopback_format, BUFFER_SILENT};
use castr::media::codec::PixelFormat;

fn quiet() -> ReportedPointer {
    ReportedPointer {
        shape_size: 0,
        shape: None,
        last_update: 0,
        x: 0,
        y: 0,
        visible: false,
    }
}

/// An opaque white dot.
fn dot(shape_type: u32) -> ReportedShape {
    ReportedShape {
        shape_type,
        width: 1,
        height: 1,
        pitch: 4,
        hotspot_x: 0,
        hotspot_y: 0,
        data: vec![255; 4],
    }
}

fn black() -> Option<Texture> {
    Some(Texture {
        row_pitch: 16,
        data: vec![0; 64],
    })
}

#[test]
fn sides_are_made_even() {
    assert_eq!(Desktop::new(1367, 769).size(), (1366, 768));
    assert_eq!(Desktop::new(1920, 1080).size(), (1920, 1080));
    assert_eq!(Desktop::new(1367, 769).mapped_len(5504), 5504 * 768);
}

#[test]
fn a_still_cursor_stays_where_it_was() {
    let mut d = Desktop::new(4, 4);
    let f = d
        .on_frame(
            ReportedPointer {
                shape_size: 4,
                shape: Some(dot(SHAPE_COLOR)),
                last_update: 5,
                x: 2,
                y: 1,
                visible: true,
            },
            black(),
            77,
        )
        .unwrap();
    assert_eq!(f.format, PixelFormat::Bgra);
    assert_eq!((f.width, f.height, f.stride, f.timestamp_us), (4, 4, 16, 77));
    let at = 16 + 2 * 4;
    assert_eq!(&f.data[at..at + 3], &[255, 255, 255]);
    assert_eq!(f.data.iter().filter(|b| **b != 0).count(), f.data[at..at + 4].iter().filter(|b| **b != 0).count());
    // A frame that says nothing of the mouse does not park it at the origin.
    let g = d.on_frame(quiet(), black(), 78).unwrap();
    assert_eq!(g.data, f.data);
    // Nor does a frame without a texture lose what it reports.
    let mut hide = quiet();
    hide.last_update = 9;
    assert!(d.on_frame(hide, None, 79).is_none());
    assert_eq!(d.on_frame(quiet(), black(), 80).unwrap().data, vec![0; 64]);
}

#[test]
fn an_unknown_shape_is_not_guessed_at() {
    let mut d = Desktop::new(4, 4);
    let f = d.on_frame(
        ReportedPointer {
            shape_size: 4,
            shape: Some(dot(77)),
            last_update: 5,
            x: 2,
            y: 1,
            visible: true,
        },
        black(),
        0,
    );
    assert_eq!(f.unwrap().data, vec![0; 64]);
}

#[test]
fn a_failed_acquire_is_told_apart() {
    assert_eq!(acquire_failure(WAIT_TIMEOUT), AcquireFailure::NoFrame);
    assert_eq!(acquire_failure(ACCESS_LOST), AcquireFailure::AccessLost);
    assert_eq!(acquire_failure(0x8000_4005), AcquireFailure::Other);
}

#[test]
fn silence_is_written_out() {
    let mut out = vec![1i16];
    append_packet(&mut out, 2, 0, Some(vec![5, 6, 7, 8]));
    append_packet(&mut out, 1, BUFFER_SILENT, Some(vec![9, 9]));
    append_packet(&mut out, 1, 0, None);
    assert_eq!(out, vec![1, 5, 6, 7, 8, 0, 0, 0, 0]);
    assert!(is_silent(3) && !is_silent(1) && !is_silent(4));
    let f = loopback_format();
    assert_eq!(
        (f.channels, f.samples_per_sec, f.block_align, f.avg_bytes_per_sec),
        (2, 48_000, 4, 192_000)
    );
}
