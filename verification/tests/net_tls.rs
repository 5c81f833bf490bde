//! Whom a connection is made with.
use castr::net::identity::fingerprint_of;
use castr::net::tls::{accept_any, check_with, same_fingerprint, trust_fingerprints, Untrusted};

#[test]
fn an_unpaired_peer_is_refused() {
    let rule = trust_fingerprints(vec![fingerprint_of(b"one"), fingerprint_of(b"two")]);
    assert_eq!(rule.check(b"one"), Ok(()));
    assert_eq!(rule.check(b"two"), Ok(()));
    assert_eq!(rule.check(b"three"), Err(Untrusted));
    assert!(!rule.trusted(&[0; 32]));
    assert!(trust_fingerprints(vec![]).check(b"one").is_err());
}

#[test]
fn while_pairing_anyone_is_let_in() {
    assert_eq!(accept_any().check(b"whoever"), Ok(()));
    assert!(accept_any().trusted(&[9; 32]));
}

#[test]
fn fingerprints_are_compared_whole() {
    let mut b = [7u8; 32];
    assert!(same_fingerprint(&[7; 32], &b));
    b[31] = 8;
    assert!(!same_fingerprint(&[7; 32], &b));
    b[31] = 7;
    b[0] = 8;
    assert!(!same_fingerprint(&[7; 32], &b));
}

#[test]
fn the_refusal_in_words() {
    assert_eq!(Untrusted.message(), "peer certificate is not paired");
}

#[test]
fn a_rule_of_ones_own_is_asked_about_the_fingerprint() {
    let want = fingerprint_of(b"one");
    assert_eq!(check_with(|fp: &[u8; 32]| *fp == want, b"one"), Ok(()));
    assert_eq!(
        check_with(|fp: &[u8; 32]| *fp == want, b"two"),
        Err(Untrusted)
    );
}
