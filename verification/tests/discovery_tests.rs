use rshome::device_link::{
    backoff_delay_secs, command_capabilities_for_domain, fullname_to_device_id, opt_str,
    trim_hostname, ImportedCommandCapabilities,
};
use rshome::link_manager::{build_discovered, DiscoveredDevice, ServiceRecord};

fn record(name: &str, port: u16) -> ServiceRecord {
    ServiceRecord {
        fullname: format!("{name}._esphomelib._tcp.local."),
        hostname: format!("{name}.local."),
        address: Some("127.0.0.1".to_string()),
        port,
        version: Some("2025.1.0".to_string()),
        friendly_name: None,
        mac: None,
    }
}

fn new_for_test(name: &str, port: u16) -> DiscoveredDevice {
    build_discovered(&record(name, port), 0).expect("record has an address")
}

#[test]
fn service_fullname_preserved_in_helper() {
    let d = new_for_test("living-room", 6053);
    assert_eq!(d.service_fullname, "living-room._esphomelib._tcp.local.");
}

#[test]
fn fresh_record_is_not_stale() {
    let d = new_for_test("kitchen-sensor", 6053);
    assert!(!d.is_stale);
}

#[test]
fn discovered_record_fields() {
    let d = build_discovered(&record("porch", 6053), 1_700_000).unwrap();
    assert_eq!(d.device_id.0, "esphome-host:porch");
    assert_eq!(d.hostname, "porch");
    assert_eq!(d.name, "porch");
    assert_eq!(d.ip, "127.0.0.1");
    assert_eq!(d.port, 6053);
    assert_eq!(d.version, "2025.1.0");
    assert_eq!(d.friendly_name, None);
    assert_eq!(d.first_seen_at, 1_700_000);
    assert_eq!(d.last_seen_at, 1_700_000);
}

#[test]
fn discovered_record_prefers_mac_and_defaults_version() {
    let mut r = record("garage", 6053);
    r.mac = Some("AA:BB:CC:00:11:22".to_string());
    r.version = None;
    r.friendly_name = Some("Garage Door".to_string());
    let d = build_discovered(&r, 5).unwrap();
    assert_eq!(d.device_id.0, "esphome:aabbcc001122");
    assert_eq!(d.version, "unknown");
    assert_eq!(d.friendly_name.as_deref(), Some("Garage Door"));
}

#[test]
fn discovered_record_without_address_is_none() {
    let mut r = record("attic", 6053);
    r.address = None;
    assert!(build_discovered(&r, 5).is_none());
}

#[test]
fn removed_service_maps_to_host_id() {
    assert_eq!(fullname_to_device_id("my-device._esphomelib._tcp.local.").0, "esphome-host:my-device");
    assert_eq!(fullname_to_device_id("plain").0, "esphome-host:plain");
    assert_eq!(trim_hostname("node.local.local.."), "node");
}

#[test]
fn backoff_delay_sequence() {
    let delays: Vec<u64> = (0u32..8).map(backoff_delay_secs).collect();
    assert_eq!(delays, vec![1, 2, 4, 8, 16, 30, 30, 30]);
}

#[test]
fn opt_str_empty_is_none() {
    assert_eq!(opt_str(String::new()), None);
}

#[test]
fn opt_str_non_empty_is_some() {
    assert_eq!(opt_str("hi".into()), Some("hi".into()));
}

#[test]
fn command_capabilities_sensor_is_read_only() {
    assert_eq!(command_capabilities_for_domain("sensor"), ImportedCommandCapabilities::ReadOnly);
    assert_eq!(
        command_capabilities_for_domain("binary_sensor"),
        ImportedCommandCapabilities::ReadOnly
    );
    assert_eq!(
        command_capabilities_for_domain("text_sensor"),
        ImportedCommandCapabilities::ReadOnly
    );
}

#[test]
fn command_capabilities_switch_is_controllable() {
    assert_eq!(
        command_capabilities_for_domain("switch"),
        ImportedCommandCapabilities::Controllable
    );
    assert_eq!(
        command_capabilities_for_domain("light"),
        ImportedCommandCapabilities::Controllable
    );
    assert_eq!(
        command_capabilities_for_domain("climate"),
        ImportedCommandCapabilities::Controllable
    );
}
