//! What was sent a moment ago.
use bytes::Bytes;
use castr::net::retransmit::RetransmitBuffer;
use castr::proto::Nack;

fn frags(n: usize) -> Vec<Bytes> {
    (0..n).map(|i| Bytes::from(vec![i as u8; 10])).collect()
}

#[test]
fn keyframe_fragments_are_resent_within_max_age() {
    let mut b = RetransmitBuffer::new(500_000);
    b.record(10, true, frags(4), 0);
    let out = b.lookup(
        &Nack {
            frame_number: 10,
            missing: vec![1, 3],
        },
        400_000,
    );
    assert_eq!(out.len(), 2);
    assert_eq!(out[0][0], 1);
    assert_eq!(out[1][0], 3);
}

#[test]
fn delta_fragments_are_resent_for_as_long_as_they_are_held() {
    // The receiver decides whether a repair is worth having: it is the
    // only side that knows its playout deadline. The sender's job is to
    // still have the fragment.
    let mut b = RetransmitBuffer::new(500_000);
    b.record(10, false, frags(4), 0);
    let nack = Nack {
        frame_number: 10,
        missing: vec![2],
    };
    let out = b.lookup(&nack, 100_000);
    assert_eq!(out.len(), 1, "a 100 ms old delta is still resent");
}

#[test]
fn fragments_are_dropped_once_they_age_out() {
    let mut b = RetransmitBuffer::new(500_000);
    b.record(10, false, frags(4), 0);
    let nack = Nack {
        frame_number: 10,
        missing: vec![2],
    };
    assert!(b.lookup(&nack, 600_000).is_empty(), "past the retention window");
}

#[test]
fn expired_frames_are_pruned() {
    let mut b = RetransmitBuffer::new(500_000);
    b.record(1, true, frags(1), 0);
    b.record(2, true, frags(1), 100_000);
    assert!(b
        .lookup(
            &Nack {
                frame_number: 1,
                missing: vec![0]
            },
            500_001,
        )
        .is_empty());
    assert_eq!(b.len(), 1);
}

#[test]
fn unknown_frame_or_index_yields_nothing() {
    let mut b = RetransmitBuffer::new(500_000);
    b.record(1, true, frags(2), 0);
    assert!(b
        .lookup(
            &Nack {
                frame_number: 9,
                missing: vec![0]
            },
            0,
        )
        .is_empty());
    assert!(b
        .lookup(
            &Nack {
                frame_number: 1,
                missing: vec![5]
            },
            0,
        )
        .is_empty());
}
