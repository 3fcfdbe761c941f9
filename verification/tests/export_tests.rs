use rshome::export::{export_yaml, validated_to_raw, yaml_scalar};
use rshome::json::{Json, JsonNumber};
use rshome::validated::{
    ChipTarget, DependencyGraph, FrameworkType, ValidatedComponent, ValidatedConfig,
    ValidatedEsphomeBlock,
};

fn make_validated_config() -> ValidatedConfig {
    let wifi = Json::empty_object()
        .with_member("ssid", Json::Str("MyNet".to_string()))
        .with_member("password", Json::Str("secret".to_string()));
    ValidatedConfig {
        esphome: ValidatedEsphomeBlock {
            name: "test_device".to_string(),
            chip_target: ChipTarget::Esp32,
            board: "esp32dev".to_string(),
            friendly_name: None,
            framework_type: FrameworkType::EspIdf,
            project: None,
            solution_id: None,
            solution_variant_id: None,
        },
        components: vec![
            ValidatedComponent {
                component_id: "wifi".to_string(),
                platform_type: None,
                index: 0,
                entity_id: None,
                config: wifi,
                auto_loaded: false,
            },
            ValidatedComponent {
                component_id: "network".to_string(),
                platform_type: None,
                index: 0,
                entity_id: None,
                config: Json::empty_object(),
                auto_loaded: true,
            },
        ],
        active_flags: vec!["USE_WIFI".to_string()],
        pin_allocations: vec![],
        dependency_graph: DependencyGraph::new(),
    }
}

#[test]
fn export_yaml_contains_device_name() {
    let config = make_validated_config();
    let yaml = export_yaml(&validated_to_raw(&config));
    assert!(yaml.contains("test_device"));
    assert!(yaml.contains("esphome:"));
}

#[test]
fn export_yaml_is_deterministic_and_skips_auto_loaded() {
    let config = make_validated_config();
    let a = export_yaml(&validated_to_raw(&config));
    let b = export_yaml(&validated_to_raw(&config));
    assert_eq!(a, b);
    assert!(a.contains("wifi:"));
    assert!(!a.contains("network:"));
    assert!(a.contains("esp32:"));
}

#[test]
fn validated_to_raw_keeps_identity_and_user_components() {
    let config = make_validated_config();
    let raw = validated_to_raw(&config);
    assert_eq!(raw.esphome.name, "test_device");
    assert_eq!(raw.esphome.board, "esp32dev");
    assert_eq!(raw.esphome.platform, "esp32");
    assert_eq!(raw.components.len(), 1);
    assert_eq!(raw.components[0].component_type, "wifi");
}

#[test]
fn yaml_scalar_string_with_colon_quoted() {
    let v = Json::Str("key:value".to_owned());
    let s = yaml_scalar(&v);
    assert!(s.starts_with('"') && s.ends_with('"'));
}

#[test]
fn yaml_scalar_plain_string() {
    let v = Json::Str("hello".to_owned());
    assert_eq!(yaml_scalar(&v), "hello");
}

#[test]
fn yaml_scalar_bool() {
    assert_eq!(yaml_scalar(&Json::Bool(true)), "true");
}

#[test]
fn yaml_scalar_null() {
    assert_eq!(yaml_scalar(&Json::Null), "~");
}

#[test]
fn yaml_scalar_lists_and_empty_strings() {
    let v = Json::Array(vec![Json::Number(JsonNumber::PosInt(1)), Json::Str(String::new())]);
    assert_eq!(yaml_scalar(&v), "[1, \"\"]");
    assert_eq!(yaml_scalar(&Json::empty_object()), "{...}");
}
