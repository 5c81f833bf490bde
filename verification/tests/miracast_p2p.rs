//! The supplicant's control interface.
use castr::miracast::p2p::{Command, Event, parse_event};

#[test]
fn the_command_strings_match_the_control_interface() {
    assert_eq!(Command::wifi_display_enable(), "SET wifi_display 1");
    assert_eq!(
        Command::subelement(0, "00060011 1c44 000a"),
        "WFD_SUBELEM_SET 0 00060011 1c44 000a"
    );
    assert_eq!(
        Command::group_add_persistent(2437),
        "P2P_GROUP_ADD persistent freq=2437"
    );
    assert_eq!(Command::wps_pin("12345670"), "WPS_PIN any 12345670");
    assert_eq!(
        Command::group_remove("p2p-wlan0-0"),
        "P2P_GROUP_REMOVE p2p-wlan0-0"
    );
}

#[test]
fn a_group_started_event_yields_the_interface_and_role() {
    let e = parse_event(
        "<3>P2P-GROUP-STARTED p2p-wlan0-0 GO ssid=\"DIRECT-xy\" freq=2437 passphrase=\"secret\" go_dev_addr=02:11:22:33:44:55",
    )
    .expect("event");
    assert_eq!(
        e,
        Event::GroupStarted {
            interface: "p2p-wlan0-0".into(),
            go: true,
            freq_mhz: 2437
        }
    );
}

#[test]
fn a_client_joining_yields_its_address() {
    let e = parse_event("<3>AP-STA-CONNECTED 02:aa:bb:cc:dd:ee p2p_dev_addr=02:11:22:33:44:55")
        .expect("event");
    assert_eq!(
        e,
        Event::ClientConnected {
            mac: "02:aa:bb:cc:dd:ee".into()
        }
    );
}

#[test]
fn a_client_leaving_is_recognised() {
    let e = parse_event("<3>AP-STA-DISCONNECTED 02:aa:bb:cc:dd:ee").expect("event");
    assert_eq!(
        e,
        Event::ClientDisconnected {
            mac: "02:aa:bb:cc:dd:ee".into()
        }
    );
}

#[test]
fn a_provision_discovery_request_asks_us_for_a_pin() {
    let e = parse_event(
        "<3>P2P-PROV-DISC-PBC-REQ 02:11:22:33:44:55 p2p_dev_addr=02:11:22:33:44:55 name='PC'",
    )
    .expect("event");
    assert_eq!(
        e,
        Event::ProvisionRequest {
            peer: "02:11:22:33:44:55".into()
        }
    );
}

#[test]
fn group_removal_and_wps_success_are_recognised() {
    assert_eq!(
        parse_event("<3>P2P-GROUP-REMOVED p2p-wlan0-0 GO reason=REQUESTED"),
        Some(Event::GroupRemoved {
            interface: "p2p-wlan0-0".into()
        })
    );
    assert_eq!(parse_event("<3>WPS-SUCCESS"), Some(Event::WpsSuccess));
    assert_eq!(
        parse_event("<3>WPS-FAIL msg=8 config_error=0"),
        Some(Event::WpsFail)
    );
}

#[test]
fn an_unknown_event_is_none_not_a_panic() {
    assert!(parse_event("<3>CTRL-EVENT-SCAN-STARTED ").is_none());
    assert!(parse_event("").is_none());
    assert!(parse_event("<3>").is_none());
}

#[test]
fn a_priority_prefix_is_optional() {
    assert!(parse_event("AP-STA-DISCONNECTED 02:aa:bb:cc:dd:ee").is_some());
}
