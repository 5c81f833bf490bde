//! Access units.
use castr::v4l2::annexb::{check_access_unit, has_sps, is_idr, nal_types, starts_with_start_code};

const SPS: [u8; 5] = [0, 0, 0, 1, 0x67];
const PPS: [u8; 5] = [0, 0, 0, 1, 0x68];
const IDR: [u8; 5] = [0, 0, 0, 1, 0x65];
const P: [u8; 4] = [0, 0, 1, 0x41];

fn cat(parts: &[&[u8]]) -> Vec<u8> {
    parts.concat()
}

#[test]
fn detects_three_and_four_byte_start_codes() {
    assert!(starts_with_start_code(&SPS));
    assert!(starts_with_start_code(&P));
    assert!(!starts_with_start_code(&[0, 0, 0, 0, 1]));
    assert!(!starts_with_start_code(&[]));
    assert!(!starts_with_start_code(&[0x65, 1, 2]));
}

#[test]
fn lists_nal_types_in_order() {
    let au = cat(&[&SPS, &[1, 2, 3], &PPS, &IDR, &[0, 0, 3, 1]]);
    assert_eq!(nal_types(&au), vec![7, 8, 5]);
}

#[test]
fn keyframe_and_parameter_set_detection() {
    let key = cat(&[&SPS, &PPS, &IDR]);
    assert!(has_sps(&key));
    assert!(is_idr(&key));
    assert!(!has_sps(&P));
    assert!(!is_idr(&P));
}

#[test]
fn check_rejects_non_annex_b_and_empty_input() {
    assert!(check_access_unit(&[]).is_err());
    assert!(check_access_unit(&[0x00, 0x00, 0x02, 0x09]).is_err());
    assert!(check_access_unit(&P).is_ok());
}
