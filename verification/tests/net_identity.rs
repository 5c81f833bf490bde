//! Who we are, and whom we know.
use castr::net::identity::{
    fingerprint_of, parse_fingerprint, Identity, IdentityError, KeyedPeer, PairedPeer, PairedStore,
};

/// What a file would hold of a store.
fn saved(s: &PairedStore) -> Vec<KeyedPeer> {
    s.peers()
        .iter()
        .map(|p| KeyedPeer {
            key: p.key.clone(),
            peer: p.peer.clone(),
        })
        .collect()
}

#[test]
fn generate_yields_cert_key_and_stable_fingerprint() {
    let id = Identity::generate().unwrap();
    assert!(!id.cert_der.is_empty() && !id.key_der.is_empty());
    assert_eq!(id.fingerprint, fingerprint_of(&id.cert_der));
    assert_eq!(id.fingerprint_hex().len(), 64);
    assert_eq!(
        parse_fingerprint(&id.fingerprint_hex()),
        Some(id.fingerprint)
    );
    assert_eq!(parse_fingerprint("zz"), None);
}

#[test]
fn two_identities_differ() {
    let a = Identity::generate().unwrap();
    let b = Identity::generate().unwrap();
    assert_ne!(a.fingerprint, b.fingerprint);
    assert_ne!(a.key_der, b.key_der);
}

/// A store's peers as a TOML text.
fn to_toml(s: &PairedStore) -> String {
    let mut peers = toml::Table::new();
    for p in s.peers() {
        let mut t = toml::Table::new();
        t.insert("name".into(), toml::Value::String(p.peer.name.clone()));
        t.insert(
            "paired_at_unix".into(),
            toml::Value::Integer(p.peer.paired_at_unix as i64),
        );
        peers.insert(p.key.clone(), toml::Value::Table(t));
    }
    let mut file = toml::Table::new();
    file.insert("peers".into(), toml::Value::Table(peers));
    file.to_string()
}

/// A store with the peers of a TOML text.
fn from_toml(text: &str) -> PairedStore {
    let file: toml::Table = text.parse().unwrap();
    let mut peers = Vec::new();
    for (key, v) in file["peers"].as_table().unwrap() {
        peers.push(KeyedPeer {
            key: key.clone(),
            peer: PairedPeer {
                name: v["name"].as_str().unwrap().to_string(),
                paired_at_unix: v["paired_at_unix"].as_integer().unwrap() as u64,
            },
        });
    }
    PairedStore::load(peers)
}

#[test]
fn paired_store_round_trips_through_toml() {
    let mut s = PairedStore::load(Vec::new());
    assert!(s.list().is_empty());
    let fp = [0xABu8; 32];
    assert!(!s.is_paired(&fp));
    s.add(fp, "living room".into(), 1_700_000_000);
    let s2 = from_toml(&to_toml(&s));
    assert!(s2.is_paired(&fp));
    assert_eq!(s2.find_by_name("living room"), Some(fp));
    assert_eq!(s2.list()[0].1.name, "living room");
    let mut s3 = s2;
    assert!(s3.remove(&fp));
    assert!(!s3.remove(&fp));
}

#[test]
fn a_fingerprint_is_the_digest_of_the_certificate() {
    // The digest of "abc", as FIPS 180-2 gives it.
    let want = "ba7816bf8f01cfea414140de5dae2223b00361a396177a9cb410ff61f20015ad";
    let id = Identity::from_parts(b"abc".to_vec(), b"key".to_vec());
    assert_eq!(id.fingerprint_hex(), want);
    assert_eq!(parse_fingerprint(want), Some(id.fingerprint));
    assert_eq!(id.key_der, b"key".to_vec());
}

#[test]
fn only_sixty_four_digits_are_a_fingerprint() {
    let text = "0123456789abcdefABCDEF".repeat(3);
    assert_eq!(parse_fingerprint(&text[..62]), None);
    assert_eq!(parse_fingerprint(&text[..63]), None);
    assert!(parse_fingerprint(&text[..64]).is_some());
    assert_eq!(parse_fingerprint(&text), None);
    assert_eq!(parse_fingerprint(&"zz".repeat(32)), None);
    assert_eq!(parse_fingerprint(""), None);
    assert_eq!(parse_fingerprint(&"fF".repeat(32)), Some([255; 32]));
}

#[test]
fn adding_again_renames_and_does_not_double() {
    let mut s = PairedStore::load(Vec::new());
    s.add([9; 32], "old".to_string(), 1);
    s.add([3; 32], "other".to_string(), 2);
    s.add([9; 32], "new".to_string(), 3);
    assert_eq!(
        s.list(),
        vec![
            (
                [3; 32],
                PairedPeer {
                    name: "other".to_string(),
                    paired_at_unix: 2
                }
            ),
            (
                [9; 32],
                PairedPeer {
                    name: "new".to_string(),
                    paired_at_unix: 3
                }
            ),
        ]
    );
    assert_eq!(s.find_by_name("old"), None);
    // Removing one leaves the other.
    assert!(s.remove(&[9; 32]));
    assert!(s.is_paired(&[3; 32]));
}

#[test]
fn a_key_that_is_no_fingerprint_is_kept_and_not_listed() {
    let s = PairedStore::load(vec![KeyedPeer {
        key: "not hex".to_string(),
        peer: PairedPeer {
            name: "stray".to_string(),
            paired_at_unix: 0,
        },
    }]);
    assert!(s.list().is_empty());
    assert_eq!(s.find_by_name("stray"), None);
    assert_eq!(saved(&s).len(), 1);
    assert_eq!(saved(&s)[0].key, "not hex");
}

#[test]
fn a_failed_generation_says_so() {
    assert_eq!(IdentityError::Generate.message(), "rcgen");
}
