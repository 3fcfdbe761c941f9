use rshome::codegen::resolve_device_type_yaml;
use rshome::device_link::{device_id_from_hostname, device_id_from_mac, device_slug};
use rshome::stages::s4_external_components::DependencySource;
use rshome::stages::s6_load_components::edit_distance;
use rshome::stages::s8_id_resolution::slugify;
use rshome::validated::FrameworkType;

#[test]
fn resolve_device_type_passes_builtins_through() {
    assert_eq!(resolve_device_type_yaml("gpio_ctrl"), "gpio_ctrl");
    assert_eq!(resolve_device_type_yaml("button"), "button");
    assert_eq!(resolve_device_type_yaml("custom"), "custom");
    assert_eq!(resolve_device_type_yaml("i2c_sensor"), "i2c_sensor");
    assert_eq!(resolve_device_type_yaml("ds18b20"), "ds18b20");
}

#[test]
fn resolve_device_type_coerces_unknown_to_custom() {
    assert_eq!(resolve_device_type_yaml("motor_driver"), "custom");
    assert_eq!(resolve_device_type_yaml("imu_sensor"), "custom");
    assert_eq!(resolve_device_type_yaml("failsafe_ctrl"), "custom");
    assert_eq!(resolve_device_type_yaml("servo_control"), "custom");
    assert_eq!(resolve_device_type_yaml("crsf_link"), "custom");
}

#[test]
fn espressif_registry_always_trusted() {
    let source = DependencySource::from_url("components.espressif.com/led_strip");
    assert!(source.is_trusted_by_default());
}

#[test]
fn local_path_always_trusted() {
    let source = DependencySource::from_url("./my_component");
    assert!(source.is_trusted_by_default());
    let source2 = DependencySource::from_url("/absolute/path");
    assert!(source2.is_trusted_by_default());
}

#[test]
fn gitee_url_rejected_without_allow() {
    let source = DependencySource::from_url("https://gitee.com/user/repo");
    assert!(!source.is_trusted_by_default());
    assert_eq!(source.label(), "gitee");
}

#[test]
fn gitlab_url_rejected_without_allow() {
    let source = DependencySource::from_url("https://gitlab.com/user/repo");
    assert!(!source.is_trusted_by_default());
    assert_eq!(source.label(), "gitlab");
}

#[test]
fn edit_distance_exact_match() {
    assert_eq!(edit_distance("wifi", "wifi"), 0);
}

#[test]
fn edit_distance_one_substitution() {
    assert_eq!(edit_distance("wifii", "wifi"), 1);
}

#[test]
fn edit_distance_kitten_sitting() {
    assert_eq!(edit_distance("kitten", "sitting"), 3);
    assert_eq!(edit_distance("", "abc"), 3);
    assert_eq!(edit_distance("abc", ""), 3);
}

#[test]
fn slugify_spaces_to_underscores() {
    assert_eq!(slugify("Living Room Temp"), "living_room_temp");
}

#[test]
fn slugify_special_chars_to_underscores() {
    assert_eq!(slugify("temp-sensor/1"), "temp_sensor_1");
}

#[test]
fn slugify_trims_edge_underscores() {
    assert_eq!(slugify("  Kitchen!  "), "kitchen");
}

#[test]
fn framework_type_default_is_esp_idf() {
    assert_eq!(FrameworkType::default(), FrameworkType::EspIdf);
}

#[test]
fn device_slug_lowercases_and_replaces_spaces() {
    assert_eq!(device_slug("My Device"), "my_device");
}

#[test]
fn device_slug_replaces_hyphens_and_numbers() {
    assert_eq!(device_slug("ESP32-Sensor-01"), "esp32_sensor_01");
}

#[test]
fn device_slug_collapses_consecutive_separators() {
    assert_eq!(device_slug("my  device"), "my_device");
}

#[test]
fn mac_with_colons_gives_esphome_id() {
    let id = device_id_from_mac("AA:BB:CC:DD:EE:FF");
    assert_eq!(id.0, "esphome:aabbccddeeff");
}

#[test]
fn mac_with_dashes_gives_esphome_id() {
    let id = device_id_from_mac("AA-BB-CC-DD-EE-FF");
    assert_eq!(id.0, "esphome:aabbccddeeff");
}

#[test]
fn mac_already_clean_gives_esphome_id() {
    let id = device_id_from_mac("aabbccddeeff");
    assert_eq!(id.0, "esphome:aabbccddeeff");
}

#[test]
fn hostname_with_local_suffix_stripped() {
    let id = device_id_from_hostname("my-device.local.");
    assert_eq!(id.0, "esphome-host:my-device");
}

#[test]
fn hostname_bare_no_suffix() {
    let id = device_id_from_hostname("sensor-node");
    assert_eq!(id.0, "esphome-host:sensor-node");
}
