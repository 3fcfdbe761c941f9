use rshome::codegen::{
    detect_variant_flag_conflicts, entity_kind_name, fnv1a_32, generate_ha_adapter_source, hex8,
    motor_control_backend, HaEntityExportDefinition, HaEntityKind, MotorBackend,
};
use rshome::device_link::climate_int_to_mode;
use rshome::supervisor::{check_restart_limit, SupervisorStrategy};

fn flags(v: &[&str]) -> Vec<String> {
    v.iter().map(|s| s.to_string()).collect()
}

#[test]
fn fnv1a_known_values() {
    assert_eq!(fnv1a_32(""), 0x811c_9dc5);
    assert_eq!(fnv1a_32("a"), 0xe40c_292c);
    assert_eq!(fnv1a_32("foobar"), 0xbf9c_f968);
}

#[test]
fn hex8_pads_and_uppercases() {
    assert_eq!(hex8(0), "00000000");
    assert_eq!(hex8(0xabc), "00000ABC");
    assert_eq!(hex8(0xdead_beef), "DEADBEEF");
}

#[test]
fn ha_adapter_source_lists_entities() {
    let entities = vec![
        HaEntityExportDefinition { kind: HaEntityKind::Sensor, object_id: "temp".into() },
        HaEntityExportDefinition { kind: HaEntityKind::Other, object_id: "x".into() },
    ];
    let src = generate_ha_adapter_source(&entities, "dev1");
    assert!(src.starts_with("#include \"ha_export_adapter.h\"\n#include \"esp_log.h\"\n\n"));
    assert!(src.contains("Registering 2 entities for dev1"));
    assert!(src.contains(&format!("    /* sensor:temp key=0x{:08X} */\n", fnv1a_32("temp"))));
    assert!(src.contains("/* unknown:x key=0x"));
    assert!(src.ends_with("}\n"));
    assert_eq!(entity_kind_name(HaEntityKind::TextSensor), "text_sensor");
}

#[test]
fn motor_backend_precedence() {
    assert_eq!(motor_control_backend(&flags(&["USE_DSHOT", "USE_BDSHOT"])), MotorBackend::Bdshot);
    assert_eq!(motor_control_backend(&flags(&["USE_DSHOT"])), MotorBackend::Dshot);
    assert_eq!(motor_control_backend(&flags(&[])), MotorBackend::Pwm);
}

#[test]
fn variant_flag_conflicts_detected() {
    let conflicts = detect_variant_flag_conflicts(&flags(&["USE_DSHOT", "USE_BDSHOT"]));
    assert!(!conflicts.is_empty());
    assert!(detect_variant_flag_conflicts(&flags(&["USE_WIFI"])).is_empty());
}

#[test]
fn climate_modes() {
    assert_eq!(climate_int_to_mode(1), "heat_cool");
    assert_eq!(climate_int_to_mode(3), "heat");
    assert_eq!(climate_int_to_mode(6), "auto");
    assert_eq!(climate_int_to_mode(0), "off");
    assert_eq!(climate_int_to_mode(42), "off");
}

#[test]
fn supervisor_default_strategy() {
    assert_eq!(
        SupervisorStrategy::default(),
        SupervisorStrategy::OneForOne { max_restarts: 3, within_secs: 60 }
    );
}

#[test]
fn restart_limit_window() {
    let mut times = Vec::new();
    assert!(check_restart_limit(&mut times, 0, 2, 60));
    assert!(check_restart_limit(&mut times, 1_000, 2, 60));
    assert!(!check_restart_limit(&mut times, 2_000, 2, 60));
    assert_eq!(times, vec![0, 1_000]);
    assert!(check_restart_limit(&mut times, 60_500, 2, 60));
    assert_eq!(times, vec![1_000, 60_500]);
}
