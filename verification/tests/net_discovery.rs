//! Finding receivers, and being found.
use castr::miracast::dhcp::Ipv4Addr;
use castr::net::discovery::{
    beacon, host_name, is_probe, probe, properties, receiver_of, Beacon, Found, ReceiverInfo,
    Service, PROBE_MAGIC, PROBE_PORT, SERVICE_TYPE,
};
use castr::proto::PROTOCOL_VERSION;

fn service(fp: Option<String>, name: Option<&str>, ver: Option<&str>) -> Service {
    Service {
        fp,
        name: name.map(String::from),
        ver: ver.map(String::from),
        ips: vec![Ipv4Addr::new(10, 0, 0, 7), Ipv4Addr::new(10, 0, 0, 8)],
        port: 4433,
    }
}

#[test]
fn our_probe_is_answered() {
    assert!(is_probe(&probe()));
    assert_eq!(probe(), b"CASTR?\x01".to_vec());
    assert_eq!(&PROBE_MAGIC, b"CASTR?");
    assert_eq!(PROBE_PORT, 7331);
    // Whatever the version, but one byte of it.
    assert!(is_probe(b"CASTR?\xff"));
    assert!(!is_probe(b"CASTR?"));
    assert!(!is_probe(b"CASTR?12"));
    assert!(!is_probe(b"CASTX?1"));
    assert!(!is_probe(b""));
}

#[test]
fn an_advertiser_is_found_as_it_advertises() {
    let fp = [0x5a; 32];
    let props = properties("Living Room", &fp);
    let get = |k: &str| {
        props
            .iter()
            .find(|(key, _)| key == k)
            .map(|(_, v)| v.clone())
    };
    let info = receiver_of(Service {
        fp: get("fp"),
        name: get("name"),
        ver: get("ver"),
        ips: vec![Ipv4Addr::new(192, 168, 1, 2)],
        port: 5555,
    })
    .unwrap();
    assert_eq!(
        info,
        ReceiverInfo {
            name: "Living Room".to_string(),
            fingerprint: fp,
            ip: Ipv4Addr::new(192, 168, 1, 2),
            port: 5555,
            version: PROTOCOL_VERSION,
        }
    );
    assert_eq!(host_name(&fp), "castr-5a5a5a5a5a5a.local.");
    assert_eq!(SERVICE_TYPE, "_castr._udp.local.");
}

#[test]
fn a_service_without_an_identity_or_an_address_is_passed_over() {
    assert_eq!(receiver_of(service(None, Some("x"), Some("1"))), None);
    assert_eq!(
        receiver_of(service(Some("12".to_string()), Some("x"), Some("1"))),
        None
    );
    let mut s = service(Some("ab".repeat(32)), Some("x"), Some("1"));
    s.ips.clear();
    assert_eq!(receiver_of(s), None);
    // What it does not say is empty, or zero.
    let info = receiver_of(service(Some("ab".repeat(32)), None, Some("soon"))).unwrap();
    assert_eq!((info.name.as_str(), info.version), ("", 0));
    assert_eq!(info.ip, Ipv4Addr::new(10, 0, 0, 7));
}

#[test]
fn receivers_are_listed_once_and_by_name() {
    let mut probed = Found::new();
    let from = Ipv4Addr::new(127, 0, 0, 1);
    probed.on_beacon(beacon("Study", [1; 32], 10), from);
    probed.on_beacon(beacon("Attic", [2; 32], 20), from);
    probed.on_beacon(
        Beacon {
            name: "Study again".to_string(),
            fp: [1; 32],
            port: 30,
            version: 9,
        },
        from,
    );
    let mut advertised = Found::new();
    advertised.on_service(service(Some("02".repeat(32)), Some("Attic too"), Some("1")));
    advertised.on_service(service(Some("03".repeat(32)), Some("Kitchen"), Some("1")));
    advertised.on_service(service(None, Some("Nobody"), Some("1")));
    let names: Vec<(String, u16)> = probed
        .merged(advertised)
        .into_iter()
        .map(|i| (i.name, i.port))
        .collect();
    assert_eq!(
        names,
        vec![
            ("Attic".to_string(), 20),
            ("Kitchen".to_string(), 4433),
            ("Study".to_string(), 10),
        ]
    );
}

#[test]
fn nothing_advertised_is_nothing_found() {
    assert!(Found::new().merged(Found::new()).is_empty());
}
