use rshome::export::{import_esphome_yaml, ImportError};
use rshome::json::Json;

#[test]
fn import_basic_esphome_yaml() {
    let yaml = r#"
esphome:
  name: my_sensor
  friendly_name: My Sensor

esp32:
  board: esp32dev

wifi:
  ssid: "MyNet"
  password: "pass"

logger:
  level: DEBUG
"#;
    let raw = import_esphome_yaml(yaml).expect("import should succeed");
    assert_eq!(raw.esphome.name, "my_sensor");
    assert_eq!(raw.esphome.friendly_name.as_deref(), Some("My Sensor"));
    assert_eq!(raw.esphome.platform, "esp32");
    assert_eq!(raw.esphome.board, "esp32dev");
}

#[test]
fn import_substitutions() {
    let yaml = r#"
esphome:
  name: my_device

esp32:
  board: esp32dev

substitutions:
  device_name: "sensor_01"
  location: "living_room"
"#;
    let raw = import_esphome_yaml(yaml).expect("import should succeed");
    assert_eq!(raw.substitutions.get("device_name").map(|s| s.as_str()), Some("sensor_01"));
    assert_eq!(raw.substitutions.get("location").map(|s| s.as_str()), Some("living_room"));
}

#[test]
fn import_missing_name_returns_error() {
    let yaml = "esp32:\n  board: esp32dev\n";
    let result = import_esphome_yaml(yaml);
    assert!(result.is_err());
    assert!(matches!(result.err().unwrap(), ImportError::MissingField(_)));
}

#[test]
fn import_dash_platform_items_become_components() {
    let yaml = "esphome:\n  name: dev\n\nsensor:\n  - platform: dht\n    pin: 4\n  - platform: adc\n    pin: 34\n";
    let raw = import_esphome_yaml(yaml).expect("import should succeed");
    assert_eq!(raw.components.len(), 2);
    assert_eq!(raw.components[0].component_type, "sensor");
    assert_eq!(raw.components[0].platform.as_deref(), Some("dht"));
    assert_eq!(raw.components[0].config.get("pin").and_then(|v| v.as_str()), Some("4"));
    assert_eq!(raw.components[1].component_type, "sensor");
    assert_eq!(raw.components[1].platform.as_deref(), Some("adc"));
    assert_eq!(raw.components[1].config.get("pin").and_then(|v| v.as_str()), Some("34"));
}

#[test]
fn import_single_dash_platform_item() {
    let yaml = "esphome:\n  name: n\n\nsensor:\n  - platform: dht\n    pin: 4\n";
    let raw = import_esphome_yaml(yaml).expect("import should succeed");
    assert_eq!(raw.components.len(), 1);
    assert_eq!(raw.components[0].component_type, "sensor");
    assert_eq!(raw.components[0].platform.as_deref(), Some("dht"));
}

#[test]
fn import_keeps_every_simple_section() {
    let yaml = "esphome:\n  name: n\n\nwifi:\n  ssid: MyNet\n\nlogger:\n  level: DEBUG\n";
    let raw = import_esphome_yaml(yaml).expect("import should succeed");
    assert_eq!(raw.components.len(), 2);
    assert_eq!(raw.components[0].component_type, "wifi");
    assert_eq!(raw.components[0].platform, None);
    assert_eq!(raw.components[0].config.get("ssid").and_then(|v| v.as_str()), Some("MyNet"));
    assert_eq!(raw.components[1].component_type, "logger");
    assert_eq!(raw.components[1].config.get("level").and_then(|v| v.as_str()), Some("DEBUG"));
}

#[test]
fn import_platform_key_lines_set_platform() {
    let yaml = "esphome:\n  name: dev\nsensor:\n  platform: dht\n  pin: 4\n  platform: adc\n  pin: 34\n";
    let raw = import_esphome_yaml(yaml).expect("import should succeed");
    assert_eq!(raw.components.len(), 2);
    assert_eq!(raw.components[0].platform.as_deref(), Some("dht"));
    assert_eq!(raw.components[0].config.get("pin").and_then(|v| v.as_str()), Some("4"));
    assert_eq!(raw.components[1].platform.as_deref(), Some("adc"));
    assert_eq!(raw.components[1].config.get("pin").and_then(|v| v.as_str()), Some("34"));
}

#[test]
fn import_trailing_simple_section_becomes_component() {
    let yaml = "esphome:\n  name: dev\nlogger:\n  level: DEBUG\n";
    let raw = import_esphome_yaml(yaml).expect("import should succeed");
    assert_eq!(raw.components.len(), 1);
    assert_eq!(raw.components[0].component_type, "logger");
    assert_eq!(raw.components[0].config.get("level").and_then(|v| v.as_str()), Some("DEBUG"));
}

#[test]
fn import_chip_section_sets_platform_and_crlf_lines() {
    let yaml = "esphome:\r\n  name: \"quoted\"\r\nesp32s3:\r\n  board: devkit\r\n";
    let raw = import_esphome_yaml(yaml).expect("import should succeed");
    assert_eq!(raw.esphome.name, "quoted");
    assert_eq!(raw.esphome.platform, "esp32s3");
    assert_eq!(raw.esphome.board, "devkit");
    assert!(raw.components.is_empty());
}

#[test]
fn import_error_messages() {
    assert_eq!(
        ImportError::MissingField("esphome.name".into()).message(),
        "missing required field: esphome.name"
    );
    assert_eq!(ImportError::YamlParse("x".into()).message(), "YAML parse error: x");
    assert_eq!(ImportError::Unsupported("y".into()).message(), "unsupported construct: y");
}

#[test]
fn import_config_keys_sorted() {
    let yaml = "esphome:\n  name: dev\nwifi:\n  ssid: a\n  password: b\n";
    let raw = import_esphome_yaml(yaml).expect("import should succeed");
    match &raw.components[0].config {
        Json::Object(m) => {
            assert_eq!(m[0].0, "password");
            assert_eq!(m[1].0, "ssid");
        }
        _ => panic!("object expected"),
    }
}
