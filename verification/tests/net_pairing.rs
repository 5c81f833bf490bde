//! Pairing with a PIN.
use castr::net::identity::Identity;
use castr::net::pairing::{
    check_proof, generate_pin, make_proof, pin_of, ExchangeError, PairStep, ReceiverPairing,
    SenderPairing, PAIRING_FAILED, PINS, ROLE_RECEIVER, ROLE_SENDER,
};
use castr::proto::ControlMessage;

/// Runs both sides against each other: how each of them ended. A side that is
/// left without an answer has lost its peer.
fn pair(
    recv_fp: [u8; 32],
    send_fp: [u8; 32],
    recv_sees: [u8; 32],
    send_sees: [u8; 32],
    recv_pin: &str,
    send_pin: &str,
) -> (Option<Result<(), String>>, Option<Result<(), String>>) {
    let (mut s, first) = SenderPairing::start(send_fp, send_sees, send_pin);
    let mut r = ReceiverPairing::new(recv_fp, recv_sees, recv_pin);
    let (mut r_end, mut s_end) = (None, None);
    let mut to_receiver = Some(first);
    while let Some(m) = to_receiver.take() {
        let shown = format!("{m:?}");
        let PairStep { send, end } = r.on_message(m, &shown);
        r_end = end;
        let Some(m) = send else { break };
        if s_end.is_some() {
            break;
        }
        let shown = format!("{m:?}");
        let PairStep { send, end } = s.on_message(m, &shown);
        s_end = end;
        if r_end.is_some() {
            break;
        }
        to_receiver = send;
    }
    (r_end, s_end)
}

#[test]
fn pairing_succeeds_with_matching_pin() {
    let recv_id = Identity::generate().unwrap();
    let send_id = Identity::generate().unwrap();
    let pin = generate_pin();
    assert_eq!(pin.len(), 6);
    let (a, b) = pair(
        recv_id.fingerprint,
        send_id.fingerprint,
        send_id.fingerprint,
        recv_id.fingerprint,
        &pin,
        &pin,
    );
    a.unwrap().unwrap();
    b.unwrap().unwrap();
}

#[test]
fn pairing_fails_with_wrong_pin() {
    let recv_id = Identity::generate().unwrap();
    let send_id = Identity::generate().unwrap();
    let (a, b) = pair(
        recv_id.fingerprint,
        send_id.fingerprint,
        send_id.fingerprint,
        recv_id.fingerprint,
        "111111",
        "222222",
    );
    assert!(a.as_ref().unwrap().is_err());
    assert!(b.as_ref().unwrap().is_err());
    assert_eq!(a.unwrap().unwrap_err(), "pairing failed: wrong PIN");
    assert_eq!(b.unwrap().unwrap_err(), "receiver rejected proof: wrong PIN");
}

#[test]
fn a_certificate_that_was_swapped_on_the_way_is_noticed() {
    // Somebody in the middle shows each side a certificate of its own.
    let (a, b) = pair([1; 32], [2; 32], [66; 32], [66; 32], "123456", "123456");
    assert_eq!(a.unwrap().unwrap_err(), "pairing failed: wrong PIN");
    assert!(b.unwrap().is_err());
    // The same, towards the sender alone.
    let (_, b) = pair([1; 32], [2; 32], [2; 32], [66; 32], "123456", "123456");
    assert_eq!(b.unwrap().unwrap_err(), "pairing failed: receiver proof mismatch");
}

#[test]
fn a_pin_has_six_digits() {
    assert_eq!(pin_of(0), "000000");
    assert_eq!(pin_of(42), "000042");
    assert_eq!(pin_of(PINS - 1), "999999");
    for _ in 0..50 {
        let pin = generate_pin();
        assert_eq!(pin.len(), 6);
        assert!(pin.bytes().all(|b| b.is_ascii_digit()));
    }
    let pins: Vec<String> = (0..20).map(|_| generate_pin()).collect();
    assert!(pins.iter().any(|p| *p != pins[0]));
}

#[test]
fn a_proof_is_bound_to_key_role_and_certificate() {
    let p = make_proof(b"key", ROLE_SENDER, &[5; 32]);
    assert_eq!(
        hex::encode(p),
        "dae37b9ada578dec2ce4a3a3e268b94a1f4eb3f8f9eb5b578c5690ad0e701e48"
    );
    assert!(check_proof(b"key", ROLE_SENDER, &[5; 32], &p));
    assert!(!check_proof(b"kez", ROLE_SENDER, &[5; 32], &p));
    assert!(!check_proof(b"key", ROLE_RECEIVER, &[5; 32], &p));
    assert!(!check_proof(b"key", ROLE_SENDER, &[6; 32], &p));
    let mut q = p;
    q[31] ^= 1;
    assert!(!check_proof(b"key", ROLE_SENDER, &[5; 32], &q));
}

#[test]
fn a_stray_message_is_refused() {
    let mut r = ReceiverPairing::new([1; 32], [2; 32], "123456");
    let step = r.on_message(ControlMessage::PairOk, "PairOk");
    assert!(matches!(
        step.send,
        Some(ControlMessage::Error { code: PAIRING_FAILED, ref message }) if message == "unexpected PairOk"
    ));
    assert_eq!(step.end, Some(Err("pairing failed: unexpected PairOk".to_string())));
    let (mut s, _) = SenderPairing::start([1; 32], [2; 32], "123456");
    let step = s.on_message(
        ControlMessage::Error {
            code: 9,
            message: "busy".to_string(),
        },
        "Error",
    );
    assert!(step.send.is_none());
    assert_eq!(
        step.end,
        Some(Err("receiver refused pairing: busy".to_string()))
    );
}

#[test]
fn a_part_that_is_no_part_ends_the_pairing() {
    // Neither empty, nor too short, nor of the wrong side.
    for (part, name) in [
        (vec![], "WrongLength"),
        (vec![0x41; 12], "WrongLength"),
        (vec![0x42; 33], "BadSide"),
    ] {
        let mut r = ReceiverPairing::new([1; 32], [2; 32], "123456");
        let step = r.on_message(ControlMessage::PairInit(part), "PairInit");
        assert_eq!(step.end, Some(Err(format!("spake2: {name}"))));
    }
    assert_eq!(ExchangeError::CorruptMessage.name(), "CorruptMessage");
}
