use localsend_controller::devices::{
    choose_target, device_online, device_snapshot, known_addresses, list_devices, KnownChannel,
    KnownDevice,
};
use localsend_controller::model::{
    device_type_name, expected_fingerprint, protocol_name, DeviceType, HttpChannel, ProtocolType,
};

const NOW: i128 = 1_700_000_000_000_000_000;

fn channel(host: &str) -> HttpChannel {
    HttpChannel {
        host: host.to_string(),
        port: 53317,
        protocol: ProtocolType::Https,
    }
}

fn device(fingerprint: &str, alias: &str, seen: Option<i128>) -> KnownDevice {
    KnownDevice {
        fingerprint: fingerprint.to_string(),
        alias: alias.to_string(),
        device_type: Some(DeviceType::Desktop),
        device_model: Some("Model".to_string()),
        channels: vec![KnownChannel {
            http: Some(channel("10.0.0.1")),
            available: true,
        }],
        best: Some(channel("10.0.0.1")),
        last_seen: seen,
    }
}

#[test]
fn devices_are_online_for_ninety_seconds() {
    let second = 1_000_000_000;
    assert!(device_online(&device("A", "a", Some(NOW)), NOW));
    assert!(device_online(&device("A", "a", Some(NOW - 90 * second)), NOW));
    assert!(!device_online(
        &device("A", "a", Some(NOW - 90 * second - 1)),
        NOW
    ));
    assert!(device_online(&device("A", "a", Some(NOW + second)), NOW));
    assert!(!device_online(&device("A", "a", None), NOW));
    assert!(!device_online(&device("A", "a", Some(i128::MIN)), i128::MAX));
    let mut closed = device("A", "a", Some(NOW));
    closed.channels[0].available = false;
    assert!(!device_online(&closed, NOW));
    closed.channels.push(KnownChannel {
        http: None,
        available: true,
    });
    assert!(device_online(&closed, NOW));
}

#[test]
fn devices_are_shown() {
    let shown = device_snapshot(&device("A", "Desk", Some(NOW)), NOW);
    assert_eq!(shown.fingerprint, "A");
    assert_eq!(shown.alias, "Desk");
    assert_eq!(shown.device_type.as_deref(), Some("desktop"));
    assert_eq!(shown.model.as_deref(), Some("Model"));
    let address = shown.address.unwrap();
    assert_eq!(
        (address.host.as_str(), address.port, address.protocol.as_str()),
        ("10.0.0.1", 53317, "https")
    );
    assert!(shown.online);
    assert_eq!(shown.last_seen_at.as_deref(), Some("2023-11-14T22:13:20Z"));

    let mut silent = device("A", "Desk", None);
    silent.best = None;
    silent.device_type = None;
    let shown = device_snapshot(&silent, NOW);
    assert!(shown.address.is_none());
    assert!(shown.device_type.is_none());
    assert!(shown.last_seen_at.is_none());
    assert!(!shown.online);
}

#[test]
fn devices_are_listed_online_first_and_by_alias() {
    let devices = vec![
        device("3", "beta", Some(NOW)),
        device("1", "Alpha", None),
        device("2", "alpha", Some(NOW)),
        device("4", "ALPHA", Some(NOW)),
        device("5", "ÄRGER", Some(NOW)),
        device("6", "ärger", Some(NOW)),
    ];
    let listed = list_devices(&devices, NOW);
    let order: Vec<&str> = listed
        .iter()
        .map(|device| device.fingerprint.as_str())
        .collect();
    assert_eq!(order, ["2", "4", "3", "5", "6", "1"]);
}

#[test]
fn at_most_128_devices_are_listed() {
    let mut devices = Vec::new();
    for i in 0..130 {
        devices.push(device(&format!("{i:03}"), "same", Some(NOW)));
    }
    let listed = list_devices(&devices, NOW);
    assert_eq!(listed.len(), 128);
    assert_eq!(listed[127].fingerprint, "127");
}

#[test]
fn a_transfer_goes_to_a_device_that_is_there() {
    let mut offline = device("CCC", "c", None);
    offline.channels[0].available = false;
    let mut unreachable = device("DDD", "d", Some(NOW));
    unreachable.best = None;
    let devices = vec![
        device("AbC", "first", Some(NOW)),
        device("abc", "second", Some(NOW)),
        offline,
        unreachable,
    ];
    let (peer, http) = choose_target(&devices, "ABC", NOW).unwrap();
    assert_eq!(peer.alias, "first");
    assert_eq!(peer.fingerprint, "AbC");
    assert_eq!(peer.address.host, "10.0.0.1");
    assert_eq!(http.host, "10.0.0.1");
    let code = |fingerprint: &str| {
        let error = choose_target(&devices, fingerprint, NOW).unwrap_err();
        (error.code, error.message)
    };
    assert_eq!(code("").0, "invalid_fingerprint");
    assert_eq!(
        code("zzz"),
        (
            "device_not_found".to_string(),
            "Device is not in discovery state".to_string()
        )
    );
    assert_eq!(
        code("ccc"),
        (
            "device_offline".to_string(),
            "Device has not been confirmed recently; refresh discovery first".to_string()
        )
    );
    assert_eq!(
        code("ddd"),
        (
            "device_unreachable".to_string(),
            "Device has no HTTP address".to_string()
        )
    );
}

#[test]
fn known_addresses_are_named_once() {
    let mut first = device("A", "a", None);
    first.channels.push(KnownChannel {
        http: None,
        available: true,
    });
    first.channels.push(KnownChannel {
        http: Some(channel("10.0.0.2")),
        available: false,
    });
    let devices = vec![first, device("B", "b", None)];
    let addresses = known_addresses(&devices);
    let mut hosts: Vec<&str> = addresses.iter().map(|http| http.host.as_str()).collect();
    hosts.sort();
    assert_eq!(hosts, ["10.0.0.1", "10.0.0.2"]);
}

#[test]
fn names_of_the_protocol() {
    for (kind, name) in [
        (DeviceType::Mobile, "mobile"),
        (DeviceType::Desktop, "desktop"),
        (DeviceType::Web, "web"),
        (DeviceType::Headless, "headless"),
        (DeviceType::Server, "server"),
    ] {
        assert_eq!(device_type_name(&kind), name);
    }
    assert_eq!(protocol_name(ProtocolType::Http), "http");
    assert_eq!(protocol_name(ProtocolType::Https), "https");
    assert_eq!(
        expected_fingerprint(ProtocolType::Https, "F"),
        Some("F".to_string())
    );
    assert_eq!(expected_fingerprint(ProtocolType::Http, "F"), None);
}
