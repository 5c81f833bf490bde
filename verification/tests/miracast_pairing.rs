//! PINs on the screen.
use castr::miracast::pairing::{PIN_DIGITS, Pairing, Show, is_valid, pin_from};

#[test]
fn a_pin_is_eight_digits_with_a_valid_checksum() {
    for entropy in [0, 1, 12345, 9_999_999, u32::MAX, 7_654_321] {
        let pin = pin_from(entropy);
        assert_eq!(pin.len(), PIN_DIGITS, "{pin}");
        assert!(pin.bytes().all(|b| b.is_ascii_digit()), "{pin}");
        assert!(is_valid(&pin), "{pin}");
    }
}

#[test]
fn the_checksum_matches_the_standards_worked_example() {
    // 12345670 and 87654325 are the two PINs the specification and
    // wpa_supplicant both publish as examples.
    assert_eq!(pin_from(1234567), "12345670");
    assert_eq!(pin_from(8765432), "87654325");
    assert!(is_valid("12345670"));
    assert!(is_valid("87654325"));
    assert!(!is_valid("12345671"), "a wrong checksum must be rejected");
}

#[test]
fn a_pin_that_is_not_eight_digits_is_not_valid() {
    assert!(!is_valid(""));
    assert!(!is_valid("1234567"));
    assert!(!is_valid("123456700"));
    assert!(!is_valid("1234567a"));
}

#[test]
fn a_pin_exists_as_soon_as_the_group_is_up() {
    // The whole point: something readable is on the screen before any
    // source asks for it.
    let mut p = Pairing::new();
    assert_eq!(p.group_up(1234567), Show::Pin("12345670".into()));
    assert_eq!(p.current(), Some("12345670"));
}

#[test]
fn provisioning_keeps_the_pin_the_viewer_is_reading() {
    let mut p = Pairing::new();
    p.group_up(1234567);
    // A different entropy value, to catch a mint that ignores the state.
    assert_eq!(p.provisioning(7_654_321), Show::Nothing);
    assert_eq!(p.current(), Some("12345670"));
}

#[test]
fn a_group_coming_back_up_does_not_change_the_digits() {
    let mut p = Pairing::new();
    p.group_up(1234567);
    assert_eq!(p.group_up(7_654_321), Show::Nothing);
    assert_eq!(p.current(), Some("12345670"));
}

#[test]
fn a_failure_mints_fresh_digits() {
    let mut p = Pairing::new();
    p.group_up(1234567);
    let after = p.failed(7_654_321);
    assert_eq!(after, Show::Pin(pin_from(7_654_321)));
    assert_ne!(p.current(), Some("12345670"));
}

#[test]
fn joining_takes_the_pin_off_the_screen_once() {
    let mut p = Pairing::new();
    p.group_up(1234567);
    assert_eq!(p.joined(), Show::Clear);
    assert_eq!(p.current(), None);
    assert_eq!(p.joined(), Show::Nothing, "nothing left to clear");
}

#[test]
fn provisioning_with_no_pin_at_all_still_offers_one() {
    // Not expected - the group is always up first - but a source that can
    // never succeed is worse than a PIN that appears late.
    let mut p = Pairing::new();
    assert_eq!(p.provisioning(1234567), Show::Pin("12345670".into()));
}
