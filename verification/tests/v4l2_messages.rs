//! The decoder's errors in words, and the kernel's numbers.
use castr::v4l2::annexb::AccessUnitError;
use castr::v4l2::decoder::{DecoderError, Step};
use castr::v4l2::ops::OpsError;
use castr::v4l2::queue::QueueError;
use castr::v4l2::sys::{
    fourcc, ioc, join_ts, split_ts, v4l2_timeval, IOC_READ, IOC_WRITE, VIDIOC_DQEVENT,
    VIDIOC_ENUM_FMT, VIDIOC_QBUF, VIDIOC_QUERYCAP, VIDIOC_STREAMON, VIDIOC_S_FMT,
    V4L2_PIX_FMT_H264, V4L2_PIX_FMT_NV12,
};

fn io() -> OpsError {
    OpsError {
        errno: Some(5),
        message: "Input/output error".to_string(),
    }
}

#[test]
fn every_error_has_its_words() {
    for (e, words) in [
        (
            DecoderError::Device {
                step: Step::QueryCap,
                cause: io(),
            },
            "QUERYCAP",
        ),
        (
            DecoderError::Queue {
                step: Step::QbufOutput,
                cause: QueueError::Device(io()),
            },
            "QBUF output",
        ),
        (
            DecoderError::NotM2m { caps: 0x0400_4000 },
            "device is not a multiplanar memory-to-memory codec (caps 0x4004000)",
        ),
        (DecoderError::NoH264, "device does not accept H.264"),
        (DecoderError::NoNv12, "device does not produce NV12"),
        (
            DecoderError::RefusedNv12 { pixelformat: 0xab },
            "driver refused NV12 (gave 0xab)",
        ),
        (
            DecoderError::FewOutputBuffers { granted: 1 },
            "driver granted only 1 output buffer(s), need at least 2",
        ),
        (
            DecoderError::SmallOutputBuffer { len: 10 },
            "driver granted an output buffer of 10 bytes, need at least 1048576",
        ),
        (
            DecoderError::AccessUnit(AccessUnitError::Empty),
            "empty access unit",
        ),
        (
            DecoderError::TooLarge { len: 2_000_000 },
            "access unit of 2000000 bytes exceeds the 1048576 byte decoder buffer",
        ),
        (DecoderError::Finished, "decoder reported end of stream"),
        (DecoderError::NoFreeBuffer, "no free output buffer"),
        (
            DecoderError::TooLargeForBuffer { len: 9, room: 8 },
            "access unit of 9 bytes exceeds the 8 byte output buffer actually allocated",
        ),
        (
            DecoderError::Geometry {
                width: 640,
                height: 360,
                left: 1,
                top: 2,
                stride: 640,
                coded_height: 368,
                len: 7,
            },
            "capture geometry out of bounds: visible 640x360 at (1,2) in 640x368 coded, mapping 7 bytes",
        ),
        (
            DecoderError::Stalled,
            "decoder stalled: no progress for 2000 ms",
        ),
        (
            DecoderError::NoPicture {
                unanswered: 61,
                idle_ms: 2_000,
            },
            "decoder stalled: 61 access units queued with no picture for 2000 ms",
        ),
        (
            DecoderError::PollError,
            "decoder failed: poll reported POLLERR on the device (the driver dropped the stream)",
        ),
        (DecoderError::CaptureMissing, "capture queue missing"),
    ] {
        assert_eq!(e.message(), words);
    }
}

#[test]
fn a_queue_says_what_it_refused() {
    assert_eq!(
        QueueError::AlreadyQueued(3).message(),
        "buffer 3 already queued"
    );
    assert_eq!(
        QueueError::UnknownBuffer(9).message(),
        "driver dequeued unknown buffer 9"
    );
    assert_eq!(QueueError::Device(io()).message(), "Input/output error");
    assert_eq!(QueueError::Device(io()).raw_os_error(), Some(5));
    assert_eq!(QueueError::OutOfRange.raw_os_error(), None);
}

#[test]
fn request_numbers_are_made_of_direction_number_and_size() {
    assert_eq!(ioc(IOC_READ, 0, 104), VIDIOC_QUERYCAP);
    assert_eq!(ioc(IOC_READ | IOC_WRITE, 2, 64), VIDIOC_ENUM_FMT);
    assert_eq!(ioc(IOC_READ | IOC_WRITE, 5, 208), VIDIOC_S_FMT);
    assert_eq!(ioc(IOC_READ | IOC_WRITE, 15, 88), VIDIOC_QBUF);
    assert_eq!(ioc(IOC_WRITE, 18, 4), VIDIOC_STREAMON);
    assert_eq!(ioc(IOC_READ, 89, 136), VIDIOC_DQEVENT);
    assert_eq!(fourcc(b'H', b'2', b'6', b'4'), V4L2_PIX_FMT_H264);
    assert_eq!(fourcc(b'N', b'V', b'1', b'2'), V4L2_PIX_FMT_NV12);
}

#[test]
fn a_timestamp_survives_the_trip() {
    for ts in [0, 1, 999_999, 1_000_000, 33_333_333_333] {
        assert_eq!(join_ts(split_ts(ts)), ts);
    }
    let tv = v4l2_timeval {
        tv_sec: -5,
        tv_usec: 7,
    };
    assert_eq!(join_ts(tv), 7);
}
