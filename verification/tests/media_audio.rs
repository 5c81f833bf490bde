//! Audio frames.
use castr::media::audio::{FRAME_INTERLEAVED, FrameChunker, check_frame};

#[test]
fn encoder_rejects_wrong_length() {
    assert!(check_frame(&[0i16; 100]).is_err());
}

#[test]
fn chunker_yields_exact_frames() {
    let mut c = FrameChunker::new();
    c.push(&[1i16; 700]);
    assert!(c.next_frame().is_none());
    c.push(&[2i16; 700]);
    let f = c.next_frame().unwrap();
    assert_eq!(f.len(), FRAME_INTERLEAVED);
    assert_eq!(f[699], 1);
    assert_eq!(f[700], 2);
    assert!(c.next_frame().is_none());
    c.push(&[3i16; 520]);
    assert_eq!(c.next_frame().unwrap().len(), FRAME_INTERLEAVED);
}
