//! The sink as a whole.
use castr::miracast::sink::{PeerStore, channel_to_freq, generate_pin, pin_checksum, session_id};

#[test]
fn a_pin_is_eight_digits_and_carries_a_valid_checksum() {
    for _ in 0..50 {
        let pin = generate_pin(&rand::random::<[u8; 4]>());
        assert_eq!(pin.len(), 8, "{pin}");
        assert!(pin.chars().all(|c| c.is_ascii_digit()), "{pin}");
        let value: u32 = pin[..7].parse().unwrap();
        let check: u32 = pin[7..].parse().unwrap();
        assert_eq!(check, pin_checksum(value), "{pin}");
    }
}

#[test]
fn the_checksum_matches_the_values_the_specification_publishes() {
    // 12345670 and 87654325 are the two PINs the specification and
    // wpa_supplicant use as examples; both must validate.
    assert_eq!(pin_checksum(1234567), 0);
    assert_eq!(pin_checksum(8765432), 5);
}

#[test]
fn channels_map_to_the_frequencies_the_supplicant_expects() {
    assert_eq!(channel_to_freq(1), 2412);
    assert_eq!(channel_to_freq(6), 2437);
    assert_eq!(channel_to_freq(11), 2462);
}

#[test]
fn peers_survive_a_reload_and_are_matched_case_insensitively() {
    let mut s = PeerStore::load("");
    assert!(!s.contains("AA:BB:CC:DD:EE:FF"));
    let file = s.remember("AA:BB:CC:DD:EE:FF").expect("a peer that is new is written down");
    let s2 = PeerStore::load(&file);
    assert!(s2.contains("aa:bb:cc:dd:ee:ff"));
}

#[test]
fn a_session_identifier_is_eight_hex_digits() {
    let id = session_id(&rand::random::<[u8; 4]>());
    assert_eq!(id.len(), 8);
    assert!(id.chars().all(|c| c.is_ascii_hexdigit()));
}
