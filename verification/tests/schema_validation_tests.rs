use rshome::json::{Json, JsonNumber};
use rshome::raw::{ComponentConfig, EsphomeBlock, RawConfig, StringMap};
use rshome::stages::s7_schema_validation::stage_7_validate_schemas;

fn obj(pairs: Vec<(&str, Json)>) -> Json {
    let mut j = Json::empty_object();
    for (k, v) in pairs {
        j = j.with_member(k, v);
    }
    j
}

fn num(n: u64) -> Json {
    Json::Number(JsonNumber::PosInt(n))
}

fn st(x: &str) -> Json {
    Json::Str(x.to_string())
}

fn base_config() -> RawConfig {
    RawConfig {
        esphome: EsphomeBlock {
            name: "test".into(),
            platform: "esp32".into(),
            board: "esp32dev".into(),
            friendly_name: None,
            framework: None,
            includes: vec![],
            libraries: vec![],
            project: None,
            area: None,
            min_version: None,
            profile: None,
            solution: None,
            solution_variant: None,
        },
        packages: vec![],
        substitutions: StringMap::new(),
        components: vec![],
    }
}

fn push(config: &mut RawConfig, typ: &str, platform: Option<&str>, val: Json) {
    config.components.push(ComponentConfig {
        component_type: typ.into(),
        platform: platform.map(str::to_owned),
        config: val,
    });
}

#[test]
fn dht_missing_pin_produces_error() {
    let mut config = base_config();
    push(&mut config, "sensor", Some("dht"), obj(vec![("name", st("temp")), ("model", st("DHT22"))]));
    let errors = stage_7_validate_schemas(&config);
    assert!(errors.iter().any(|e| e.message.contains("pin") && e.is_fatal()));
}

#[test]
fn dht_valid_config_no_errors() {
    let mut config = base_config();
    push(
        &mut config,
        "sensor",
        Some("dht"),
        obj(vec![("name", st("temp")), ("pin", num(4)), ("model", st("DHT22"))]),
    );
    let errors = stage_7_validate_schemas(&config);
    assert!(errors.is_empty(), "errors: {:?}", errors);
}

#[test]
fn invalid_enum_value_produces_error() {
    let mut config = base_config();
    push(&mut config, "logger", None, obj(vec![("level", st("ULTRA_VERBOSE"))]));
    let errors = stage_7_validate_schemas(&config);
    assert!(errors.iter().any(|e| e.message.contains("ULTRA_VERBOSE")));
}

#[test]
fn valid_enum_value_passes() {
    let mut config = base_config();
    push(&mut config, "logger", None, obj(vec![("level", st("DEBUG"))]));
    let errors = stage_7_validate_schemas(&config);
    assert!(errors.is_empty(), "errors: {:?}", errors);
}

#[test]
fn pin_out_of_range_produces_error() {
    let mut config = base_config();
    push(&mut config, "sensor", Some("dht"), obj(vec![("name", st("temp")), ("pin", num(99))]));
    let errors = stage_7_validate_schemas(&config);
    assert!(errors.iter().any(|e| e.message.contains("outside valid range")));
}

#[test]
fn wrong_type_produces_error() {
    let mut config = base_config();
    push(
        &mut config,
        "sensor",
        Some("dht"),
        obj(vec![("name", st("temp")), ("pin", st("not_a_number"))]),
    );
    let errors = stage_7_validate_schemas(&config);
    assert!(errors.iter().any(|e| e.message.contains("expected Integer")));
}

#[test]
fn entity_common_name_required_for_sensor() {
    let mut config = base_config();
    push(&mut config, "sensor", None, Json::empty_object());
    let errors = stage_7_validate_schemas(&config);
    assert!(errors.iter().any(|e| e.message.contains("name") && e.is_fatal()));
}

#[test]
fn wifi_valid_minimal_config() {
    let mut config = base_config();
    push(&mut config, "wifi", None, obj(vec![("provisioning_mode", st("nvs"))]));
    let errors = stage_7_validate_schemas(&config);
    assert!(errors.is_empty(), "errors: {:?}", errors);
}

#[test]
fn wifi_rejects_legacy_static_mode() {
    let mut config = base_config();
    push(&mut config, "wifi", None, obj(vec![("provisioning_mode", st("hardcoded"))]));
    let errors = stage_7_validate_schemas(&config);
    assert!(errors.iter().any(|error| error.message.contains("hardcoded")));
}

#[test]
fn wifi_rejects_legacy_ble_mode() {
    let mut config = base_config();
    push(&mut config, "wifi", None, obj(vec![("provisioning_mode", st("ble_prov"))]));
    let errors = stage_7_validate_schemas(&config);
    assert!(errors.iter().any(|error| error.message.contains("ble_prov")));
}

#[test]
fn wifi_rejects_legacy_smartconfig_mode() {
    let mut config = base_config();
    push(&mut config, "wifi", None, obj(vec![("provisioning_mode", st("smartconfig"))]));
    let errors = stage_7_validate_schemas(&config);
    assert!(errors.iter().any(|error| error.message.contains("smartconfig")));
}

#[test]
fn wifi_invalid_provisioning_mode() {
    let mut config = base_config();
    push(&mut config, "wifi", None, obj(vec![("provisioning_mode", st("zigbee"))]));
    let errors = stage_7_validate_schemas(&config);
    assert!(errors.iter().any(|e| e.message.contains("zigbee")));
}

#[test]
fn api_port_out_of_range() {
    let mut config = base_config();
    push(&mut config, "api", None, obj(vec![("port", num(99999))]));
    let errors = stage_7_validate_schemas(&config);
    assert!(errors.iter().any(|e| e.message.contains("outside valid range")));
}

#[test]
fn i2c_boolean_scan_field() {
    let mut config = base_config();
    push(
        &mut config,
        "i2c",
        None,
        obj(vec![("sda", num(21)), ("scl", num(22)), ("scan", Json::Bool(true))]),
    );
    let errors = stage_7_validate_schemas(&config);
    assert!(errors.is_empty(), "errors: {:?}", errors);
}

#[test]
fn unknown_component_type_skipped_no_error() {
    let mut config = base_config();
    push(&mut config, "custom_component", None, obj(vec![("anything", st("goes"))]));
    let errors = stage_7_validate_schemas(&config);
    assert!(errors.is_empty());
}
