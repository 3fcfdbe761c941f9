use rshome::device_link::DeviceId;
use rshome::link_manager::SessionStatus;
use rshome::session_fsm::{
    entity_object_id, handshake_step, import_decision, reconnect_status, DeviceInfo, HandshakeAction,
    HandshakeFrame, HandshakeNext, HandshakePhase, ImportDecision, ListedEntity, MAX_ENTITIES_PER_DEVICE,
};

fn provisional() -> DeviceId {
    DeviceId("esphome-host:kitchen".to_string())
}

fn info(mac: &str, uses_password: bool) -> DeviceInfo {
    DeviceInfo {
        name: "kitchen".to_string(),
        friendly_name: String::new(),
        mac_address: mac.to_string(),
        model: "esp32dev".to_string(),
        esphome_version: "2025.1.0".to_string(),
        uses_password,
    }
}

fn entity(key: u32, object_id: &str) -> ListedEntity {
    ListedEntity {
        key,
        object_id: object_id.to_string(),
        unique_id: None,
        name: object_id.to_string(),
        domain: "sensor".to_string(),
    }
}

#[test]
fn hello_response_requests_device_info() {
    let (next, actions) = handshake_step(HandshakePhase::AwaitHello, HandshakeFrame::HelloResponse, &provisional());
    assert!(matches!(next, HandshakeNext::Handshake(HandshakePhase::AwaitDeviceInfo)));
    assert_eq!(actions.len(), 1);
    assert!(matches!(actions[0], HandshakeAction::SendDeviceInfoRequest));
}

#[test]
fn device_info_resolves_mac_identity_and_lists_entities() {
    let (next, actions) = handshake_step(
        HandshakePhase::AwaitDeviceInfo,
        HandshakeFrame::DeviceInfo(info("AA:BB:CC:DD:EE:FF", false)),
        &provisional(),
    );
    assert!(matches!(next, HandshakeNext::Handshake(HandshakePhase::CollectingEntities(ref v)) if v.is_empty()));
    assert_eq!(actions.len(), 2);
    match &actions[0] {
        HandshakeAction::ReportIdentity(id) => {
            assert_eq!(id.canonical_id.0, "esphome:aabbccddeeff");
            assert_eq!(id.name, "kitchen");
            assert_eq!(id.friendly_name, None);
            assert_eq!(id.mac_address.as_deref(), Some("AA:BB:CC:DD:EE:FF"));
            assert_eq!(id.model.as_deref(), Some("esp32dev"));
            assert_eq!(id.sw_version.as_deref(), Some("2025.1.0"));
        }
        other => panic!("unexpected action {other:?}"),
    }
    assert!(matches!(actions[1], HandshakeAction::SendListEntitiesRequest));
}

#[test]
fn device_info_without_mac_keeps_provisional_id() {
    let (_, actions) =
        handshake_step(HandshakePhase::AwaitDeviceInfo, HandshakeFrame::DeviceInfo(info("", false)), &provisional());
    match &actions[0] {
        HandshakeAction::ReportIdentity(id) => {
            assert_eq!(id.canonical_id.0, "esphome-host:kitchen");
            assert_eq!(id.mac_address, None);
        }
        other => panic!("unexpected action {other:?}"),
    }
}

#[test]
fn password_device_is_stopped() {
    let (next, actions) = handshake_step(
        HandshakePhase::AwaitDeviceInfo,
        HandshakeFrame::DeviceInfo(info("AA:BB:CC:DD:EE:FF", true)),
        &provisional(),
    );
    assert!(matches!(next, HandshakeNext::Reconnecting));
    assert_eq!(actions.len(), 3);
    assert!(matches!(actions[1], HandshakeAction::ReportUnsupportedAuth));
    assert!(matches!(actions[2], HandshakeAction::StopSession));
}

#[test]
fn undecodable_device_info_reconnects() {
    let (next, actions) = handshake_step(HandshakePhase::AwaitDeviceInfo, HandshakeFrame::BadDeviceInfo, &provisional());
    assert!(matches!(next, HandshakeNext::Reconnecting));
    assert_eq!(actions.len(), 1);
    assert!(matches!(actions[0], HandshakeAction::ScheduleReconnect));
}

#[test]
fn entities_collected_until_done() {
    let phase = HandshakePhase::CollectingEntities(vec![entity(1, "temp")]);
    let (next, actions) = handshake_step(phase, HandshakeFrame::Listed(Some(entity(2, "hum"))), &provisional());
    assert!(actions.is_empty());
    let phase = match next {
        HandshakeNext::Handshake(p) => p,
        other => panic!("unexpected {other:?}"),
    };
    let (next, actions) = handshake_step(phase, HandshakeFrame::Listed(None), &provisional());
    assert!(actions.is_empty());
    let phase = match next {
        HandshakeNext::Handshake(p) => p,
        other => panic!("unexpected {other:?}"),
    };
    let (next, actions) = handshake_step(phase, HandshakeFrame::ListEntitiesDone, &provisional());
    assert!(matches!(next, HandshakeNext::Active));
    assert_eq!(actions.len(), 3);
    match &actions[0] {
        HandshakeAction::FinalizeEntities(es) => {
            let keys: Vec<u32> = es.iter().map(|e| e.key).collect();
            assert_eq!(keys, vec![1, 2]);
        }
        other => panic!("unexpected action {other:?}"),
    }
    assert!(matches!(actions[1], HandshakeAction::SubscribeStates));
    assert!(matches!(actions[2], HandshakeAction::MarkActive));
}

#[test]
fn unexpected_frames_leave_phase() {
    let (next, actions) = handshake_step(HandshakePhase::AwaitHello, HandshakeFrame::ListEntitiesDone, &provisional());
    assert!(matches!(next, HandshakeNext::Handshake(HandshakePhase::AwaitHello)));
    assert!(actions.is_empty());
    let (next, _) = handshake_step(HandshakePhase::AwaitDeviceInfo, HandshakeFrame::HelloResponse, &provisional());
    assert!(matches!(next, HandshakeNext::Handshake(HandshakePhase::AwaitDeviceInfo)));
}

#[test]
fn import_limits() {
    assert_eq!(import_decision(10, 100, 0, 10), ImportDecision::Import);
    assert_eq!(import_decision(MAX_ENTITIES_PER_DEVICE + 1, 10_000, 0, 1), ImportDecision::OverDeviceCap);
    assert_eq!(import_decision(11, 10, 0, 1), ImportDecision::OverDeviceCap);
    assert_eq!(import_decision(5, 100, 98, 3), ImportDecision::OverEntityLimit);
    assert_eq!(import_decision(5, 100, 95, 5), ImportDecision::Import);
    assert_eq!(import_decision(5, usize::MAX, usize::MAX, 5), ImportDecision::Import);
}

#[test]
fn object_id_and_reconnect_status() {
    assert_eq!(entity_object_id("kitchen", "temp"), "kitchen__temp");
    assert_eq!(reconnect_status(2), SessionStatus::Backoff { attempt: 2, delay_secs: 4 });
    assert_eq!(reconnect_status(9), SessionStatus::Backoff { attempt: 9, delay_secs: 30 });
}
