//! The numbers of the kernel's interface.
use castr::v4l2::sys::{V4L2_PIX_FMT_H264, V4L2_PIX_FMT_NV12, VIDIOC_DQBUF, VIDIOC_DQEVENT, VIDIOC_ENUM_FMT, VIDIOC_EXPBUF, VIDIOC_G_FMT, VIDIOC_G_SELECTION, VIDIOC_QBUF, VIDIOC_QUERYBUF, VIDIOC_QUERYCAP, VIDIOC_REQBUFS, VIDIOC_STREAMOFF, VIDIOC_STREAMON, VIDIOC_SUBSCRIBE_EVENT, VIDIOC_S_FMT};

#[test]
fn ioctl_numbers_match_the_kernel() {
    // Values printed by `v4l2-ctl` sources / kernel headers on 64-bit Linux.
    assert_eq!(VIDIOC_QUERYCAP, 0x8068_5600);
    assert_eq!(VIDIOC_ENUM_FMT, 0xC040_5602);
    assert_eq!(VIDIOC_G_FMT, 0xC0D0_5604);
    assert_eq!(VIDIOC_S_FMT, 0xC0D0_5605);
    assert_eq!(VIDIOC_REQBUFS, 0xC014_5608);
    assert_eq!(VIDIOC_QUERYBUF, 0xC058_5609);
    assert_eq!(VIDIOC_QBUF, 0xC058_560F);
    assert_eq!(VIDIOC_EXPBUF, 0xC040_5610);
    assert_eq!(VIDIOC_DQBUF, 0xC058_5611);
    assert_eq!(VIDIOC_STREAMON, 0x4004_5612);
    assert_eq!(VIDIOC_STREAMOFF, 0x4004_5613);
    assert_eq!(VIDIOC_DQEVENT, 0x8088_5659);
    assert_eq!(VIDIOC_SUBSCRIBE_EVENT, 0x4020_565A);
    assert_eq!(VIDIOC_G_SELECTION, 0xC040_565E);
}

#[test]
fn fourcc_matches_v4l2() {
    assert_eq!(V4L2_PIX_FMT_H264, 0x3436_3248);
    assert_eq!(V4L2_PIX_FMT_NV12, 0x3231_564E);
}
