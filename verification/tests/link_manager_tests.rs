use rshome::device_link::{DeviceId, DeviceSecurityConfig};
use rshome::link_manager::{
    ConnectedDevice, DeviceLinkLimits, DiscoveredDevice, LinkRegistry, ResourceUsage, SessionStatus,
    MAX_DISCOVERED,
};

fn make_device(name: &str, port: u16, seen: u64) -> DiscoveredDevice {
    DiscoveredDevice {
        device_id: DeviceId(format!("esphome-host:{name}")),
        service_fullname: format!("{name}._esphomelib._tcp.local."),
        hostname: name.to_string(),
        ip: "127.0.0.1".to_string(),
        port,
        name: name.to_string(),
        version: "2025.1.0".to_string(),
        friendly_name: None,
        first_seen_at: 0,
        last_seen_at: seen,
        is_stale: false,
    }
}

fn make_connected(canonical: &str, discovered: DiscoveredDevice) -> ConnectedDevice {
    ConnectedDevice {
        device_id: DeviceId(canonical.to_string()),
        discovered,
        name: "dev".into(),
        friendly_name: None,
        mac_address: None,
        model: None,
        sw_version: None,
        status: SessionStatus::Active,
        entity_count: 2,
        auth_mode: Some("cleartext".into()),
        last_error: None,
    }
}

#[test]
fn list_discovered_initially_empty() {
    let reg = LinkRegistry::new(DeviceLinkLimits::default());
    assert!(reg.list_discovered().is_empty());
    assert!(reg.list_connected().is_empty());
}

#[test]
fn device_discovered_appears_in_list_and_spawns_session() {
    let mut reg = LinkRegistry::new(DeviceLinkLimits::default());
    let spawn = reg.device_discovered(make_device("kitchen", 6053, 1000), 1000);
    assert!(spawn);
    let list = reg.list_discovered();
    assert_eq!(list.len(), 1);
    assert_eq!(list[0].device_id.0, "esphome-host:kitchen");
    assert_eq!(reg.sessions, vec!["esphome-host:kitchen".to_string()]);
}

#[test]
fn device_rediscovered_updates_last_seen() {
    let mut reg = LinkRegistry::new(DeviceLinkLimits::default());
    reg.device_discovered(make_device("kitchen", 6053, 1000), 1000);
    reg.discovered[0].is_stale = true;
    let spawn = reg.device_discovered(make_device("kitchen", 6053, 5000), 5000);
    assert!(!spawn);
    assert_eq!(reg.discovered.len(), 1);
    assert_eq!(reg.discovered[0].last_seen_at, 5000);
    assert!(!reg.discovered[0].is_stale);
    assert_eq!(reg.discovered[0].first_seen_at, 0);
}

#[test]
fn max_devices_zero_prevents_session_spawn() {
    let limits = DeviceLinkLimits { max_devices: 0, max_entities: 10, max_connections_per_device: 1 };
    let mut reg = LinkRegistry::new(limits);
    let spawn = reg.device_discovered(make_device("kitchen", 6053, 0), 0);
    assert!(!spawn);
    assert_eq!(reg.discovered.len(), 1);
    assert!(reg.sessions.is_empty());
}

#[test]
fn sessions_stay_within_session_cap() {
    let limits = DeviceLinkLimits { max_devices: 2, max_entities: 10, max_connections_per_device: 1 };
    let mut reg = LinkRegistry::new(limits);
    let spawned: Vec<bool> = ["a", "b", "c"]
        .iter()
        .map(|n| reg.device_discovered(make_device(n, 6053, 0), 0))
        .collect();
    assert_eq!(spawned, vec![true, true, false]);
    let usage = reg.resource_usage();
    assert_eq!(
        usage,
        ResourceUsage { discovered_count: 3, discovered_cap: 256, active_sessions: 2, session_cap: 2 }
    );
}

#[test]
fn discovery_cap_ignores_new_records() {
    let mut reg = LinkRegistry::new(DeviceLinkLimits::default());
    for i in 0..MAX_DISCOVERED {
        reg.device_discovered(make_device(&format!("d{i}"), 6053, 0), 0);
    }
    let spawn = reg.device_discovered(make_device("extra", 6053, 0), 0);
    assert!(!spawn);
    assert_eq!(reg.discovered.len(), MAX_DISCOVERED);
    let usage = reg.resource_usage();
    assert_eq!(
        usage,
        ResourceUsage { discovered_count: 256, discovered_cap: 256, active_sessions: 100, session_cap: 100 }
    );
}

#[test]
fn get_status_unknown_device_returns_none() {
    let reg = LinkRegistry::new(DeviceLinkLimits::default());
    assert!(reg.get_status("esphome-host:nope").is_none());
}

#[test]
fn get_status_known_device_not_yet_connected() {
    let mut reg = LinkRegistry::new(DeviceLinkLimits::default());
    reg.device_discovered(make_device("kitchen", 6053, 0), 0);
    let st = reg.get_status("esphome-host:kitchen").unwrap();
    assert_eq!(st.status, SessionStatus::Discovered);
    assert_eq!(st.port, 6053);
    assert_eq!(st.entity_count, 0);
}

#[test]
fn session_identity_and_status_update() {
    let mut reg = LinkRegistry::new(DeviceLinkLimits::default());
    reg.device_discovered(make_device("kitchen", 6053, 0), 0);
    let stop = reg.identity_resolved(
        "esphome-host:kitchen",
        "esphome:aabbcc",
        "kitchen".into(),
        Some("Kitchen".into()),
        Some("AA:BB:CC".into()),
        None,
        None,
    );
    assert!(!stop);
    let st = reg.get_status("esphome:aabbcc").unwrap();
    assert_eq!(st.status, SessionStatus::Handshaking);
    assert_eq!(st.auth_mode.as_deref(), Some("cleartext"));
    reg.status_changed("esphome-host:kitchen", SessionStatus::Active, 5);
    let st = reg.get_status("esphome-host:kitchen").unwrap();
    assert_eq!(st.status, SessionStatus::Active);
    assert_eq!(st.entity_count, 5);
    assert_eq!(reg.dispatch_target("esphome:aabbcc").as_deref(), Some("esphome-host:kitchen"));
}

#[test]
fn duplicate_mac_collapses_canonical_entry() {
    let mut reg = LinkRegistry::new(DeviceLinkLimits::default());
    reg.device_discovered(make_device("a", 6053, 0), 0);
    reg.device_discovered(make_device("b", 6053, 0), 0);
    assert!(!reg.identity_resolved("esphome-host:a", "esphome:mac", "a".into(), None, None, None, None));
    let stop = reg.identity_resolved("esphome-host:b", "esphome:mac", "b".into(), None, None, None, None);
    assert!(stop);
    assert_eq!(reg.list_connected().len(), 1);
}

#[test]
fn noise_config_sets_auth_mode() {
    let mut reg = LinkRegistry::new(DeviceLinkLimits::default());
    reg.set_security_config("esphome-host:a", DeviceSecurityConfig { noise_psk: Some("x".into()) });
    reg.device_discovered(make_device("a", 6053, 0), 0);
    reg.identity_resolved("esphome-host:a", "esphome:m", "a".into(), None, None, None, None);
    assert_eq!(reg.canonical[0].auth_mode.as_deref(), Some("noise"));
    assert!(reg.security_config_for("esphome-host:a").uses_noise());
    assert!(!reg.security_config_for("esphome-host:zz").uses_noise());
}

#[test]
fn device_removed_keeps_active_session_alive() {
    let mut reg = LinkRegistry::new(DeviceLinkLimits::default());
    reg.device_discovered(make_device("a", 6053, 0), 0);
    reg.identity_resolved("esphome-host:a", "esphome:m", "a".into(), None, None, None, None);
    reg.status_changed("esphome-host:a", SessionStatus::Active, 1);
    let stop = reg.device_removed("esphome-host:a");
    assert!(!stop);
    assert!(reg.discovered[0].is_stale);
    assert_eq!(reg.sessions.len(), 1);
}

#[test]
fn device_removed_non_active_session_cleaned_up() {
    let mut reg = LinkRegistry::new(DeviceLinkLimits::default());
    reg.device_discovered(make_device("a", 6053, 0), 0);
    reg.identity_resolved("esphome-host:a", "esphome:m", "a".into(), None, None, None, None);
    let stop = reg.device_removed("esphome-host:a");
    assert!(stop);
    assert!(reg.discovered.is_empty());
    assert!(reg.canonical.is_empty());
    assert!(reg.sessions.is_empty());
    assert!(reg.dispatch_target("esphome:m").is_none());
}

#[test]
fn stale_after_check_staleness() {
    let mut reg = LinkRegistry::new(DeviceLinkLimits::default());
    reg.device_discovered(make_device("a", 6053, 0), 0);
    let stopped = reg.check_staleness(100_000);
    assert!(stopped.is_empty());
    assert!(reg.discovered[0].is_stale);
    let stopped = reg.check_staleness(700_000);
    assert_eq!(stopped, vec!["esphome-host:a".to_string()]);
    assert!(reg.discovered.is_empty());
    assert!(reg.sessions.is_empty());
}

#[test]
fn stale_mark_without_eviction_when_recent() {
    let mut reg = LinkRegistry::new(DeviceLinkLimits::default());
    reg.device_discovered(make_device("a", 6053, 50_000), 50_000);
    let stopped = reg.check_staleness(60_000);
    assert!(stopped.is_empty());
    assert!(!reg.discovered[0].is_stale);
}

#[test]
fn seeded_restored_device_appears_in_connected_and_status() {
    let mut reg = LinkRegistry::new(DeviceLinkLimits::default());
    reg.seed_restored(make_connected("esphome:r1", make_device("r", 6053, 0)));
    let list = reg.list_connected();
    assert_eq!(list.len(), 1);
    assert!(reg.get_status("esphome:r1").is_some());
    assert!(reg.get_status("esphome-host:r").is_some());
}

#[test]
fn stop_all_returns_sessions() {
    let mut reg = LinkRegistry::new(DeviceLinkLimits::default());
    reg.device_discovered(make_device("a", 6053, 0), 0);
    reg.device_discovered(make_device("b", 6053, 0), 0);
    let stopped = reg.stop_all();
    assert_eq!(stopped.len(), 2);
    assert!(reg.sessions.is_empty());
    assert_eq!(reg.discovered.len(), 2);
}
