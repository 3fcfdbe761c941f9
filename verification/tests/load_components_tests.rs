use rshome::catalog::{CatalogEntry, ComponentCatalog};
use rshome::json::Json;
use rshome::raw::{ComponentConfig, EsphomeBlock, RawConfig, StringMap};
use rshome::stages::s6_load_components::{
    closest_match, component_effective_id, stage_6_check_resolved, stage_6_load_components,
};

fn entry(id: &str, children: &[&str], auto: &[&str], deps: &[&str], conflicts: &[&str]) -> CatalogEntry {
    CatalogEntry {
        id: id.into(),
        child_components: children.iter().map(|s| s.to_string()).collect(),
        auto_load: auto.iter().map(|s| s.to_string()).collect(),
        dependencies: deps.iter().map(|s| s.to_string()).collect(),
        conflicts_with: conflicts.iter().map(|s| s.to_string()).collect(),
        exclusive_group: None,
        secret_fields: vec![],
    }
}

fn make_catalog() -> ComponentCatalog {
    ComponentCatalog {
        entries: vec![
            entry("wifi", &[], &[], &[], &[]),
            entry("sensor", &["dht", "adc"], &[], &[], &[]),
            entry("dht", &[], &["sensor"], &[], &[]),
            entry("api", &[], &[], &["wifi"], &[]),
            entry("mqtt", &[], &[], &[], &["api"]),
        ],
    }
}

fn base_config() -> RawConfig {
    RawConfig {
        esphome: EsphomeBlock {
            name: "test".into(),
            platform: "esp32".into(),
            board: "esp32dev".into(),
            friendly_name: None,
            framework: None,
            includes: vec![],
            libraries: vec![],
            project: None,
            area: None,
            min_version: None,
            profile: None,
            solution: None,
            solution_variant: None,
        },
        packages: vec![],
        substitutions: StringMap::new(),
        components: vec![],
    }
}

fn push_comp(config: &mut RawConfig, typ: &str, platform: Option<&str>) {
    config.components.push(ComponentConfig {
        component_type: typ.into(),
        platform: platform.map(str::to_owned),
        config: Json::empty_object(),
    });
}

fn names(v: &[&str]) -> Vec<String> {
    v.iter().map(|s| s.to_string()).collect()
}

#[test]
fn known_component_resolves_ok() {
    let mut config = base_config();
    push_comp(&mut config, "wifi", None);
    let (resolved, errors) = stage_6_load_components(&config, &make_catalog());
    assert!(errors.is_empty());
    assert!(resolved.contains(&"wifi".to_string()));
}

#[test]
fn unknown_component_produces_error() {
    let mut config = base_config();
    push_comp(&mut config, "nonexistent_comp", None);
    let (_, errors) = stage_6_load_components(&config, &make_catalog());
    assert!(!errors.is_empty());
    assert!(errors[0].is_fatal());
    assert!(errors[0].message.contains("nonexistent_comp"));
}

#[test]
fn missing_dependency_produces_error() {
    let mut config = base_config();
    push_comp(&mut config, "api", None);
    let (direct, errors) = stage_6_load_components(&config, &make_catalog());
    assert!(errors.is_empty());
    let errors = stage_6_check_resolved(&direct, &make_catalog());
    assert!(errors.iter().any(|e| e.message.contains("wifi")));
}

#[test]
fn conflict_detected() {
    let mut config = base_config();
    push_comp(&mut config, "wifi", None);
    push_comp(&mut config, "api", None);
    push_comp(&mut config, "mqtt", None);
    let (direct, _) = stage_6_load_components(&config, &make_catalog());
    let errors = stage_6_check_resolved(&direct, &make_catalog());
    assert!(errors.iter().any(|e| e.message.contains("conflicts")));
}

#[test]
fn empty_config_resolves_empty() {
    let config = base_config();
    let (resolved, errors) = stage_6_load_components(&config, &make_catalog());
    assert!(errors.is_empty());
    assert!(resolved.is_empty());
}

#[test]
fn api_with_wifi_satisfies_dependency() {
    let mut config = base_config();
    push_comp(&mut config, "wifi", None);
    push_comp(&mut config, "api", None);
    let (direct, errors) = stage_6_load_components(&config, &make_catalog());
    assert!(errors.is_empty(), "unexpected errors: {:?}", errors);
    let errors = stage_6_check_resolved(&direct, &make_catalog());
    assert!(errors.is_empty(), "unexpected errors: {:?}", errors);
}

#[test]
fn platform_component_uses_platform_id() {
    let mut config = base_config();
    push_comp(&mut config, "sensor", Some("dht"));
    let (direct, errors) = stage_6_load_components(&config, &make_catalog());
    assert!(errors.is_empty(), "errors: {:?}", errors);
    assert_eq!(direct, names(&["dht"]));
    assert_eq!(component_effective_id(&config.components[0]), "dht");
}

#[test]
fn resolved_auto_load_set_checked_without_errors() {
    let errors = stage_6_check_resolved(&names(&["dht", "sensor"]), &make_catalog());
    assert!(errors.is_empty(), "errors: {:?}", errors);
}

#[test]
fn closest_match_suggests_near_names() {
    assert_eq!(closest_match("wifii", &make_catalog()).as_deref(), Some("wifi"));
    assert_eq!(closest_match("zzzzzzzzzzzz", &make_catalog()), None);
}
