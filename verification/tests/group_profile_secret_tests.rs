use rshome::catalog::{CatalogEntry, ComponentCatalog};
use rshome::error::ValidationStage;
use rshome::json::Json;
use rshome::raw::{ComponentConfig, EsphomeBlock, RawConfig, StringMap};
use rshome::stages::s11_exclusive_groups::stage_11_check_exclusive_groups;
use rshome::stages::s12_profile_validation::stage_12_validate_profile;
use rshome::stages::s13_secret_fields::stage_13_check_secret_fields;

fn obj(pairs: Vec<(&str, Json)>) -> Json {
    let mut j = Json::empty_object();
    for (k, v) in pairs {
        j = j.with_member(k, v);
    }
    j
}

fn entry(id: &str) -> CatalogEntry {
    CatalogEntry {
        id: id.into(),
        child_components: vec![],
        auto_load: vec![],
        dependencies: vec![],
        conflicts_with: vec![],
        exclusive_group: None,
        secret_fields: vec![],
    }
}

fn make_config(profile: Option<&str>, components: Vec<ComponentConfig>) -> RawConfig {
    RawConfig {
        esphome: EsphomeBlock {
            name: "test".into(),
            platform: "esp32".into(),
            board: "esp32dev".into(),
            friendly_name: None,
            framework: None,
            includes: vec![],
            libraries: vec![],
            project: None,
            area: None,
            min_version: None,
            profile: profile.map(String::from),
            solution: None,
            solution_variant: None,
        },
        packages: vec![],
        substitutions: StringMap::new(),
        components,
    }
}

#[test]
fn exclusive_group_is_checked_for_public_extensions() {
    let mut a = entry("radio_2g4");
    a.exclusive_group = Some("radio_band".into());
    let mut b = entry("radio_5g");
    b.exclusive_group = Some("radio_band".into());
    let catalog = ComponentCatalog { entries: vec![a, b] };
    let expanded = vec!["radio_2g4".to_string(), "radio_5g".to_string()];
    let errors = stage_11_check_exclusive_groups(&expanded, &catalog);
    assert_eq!(errors.len(), 1);
    assert_eq!(errors[0].stage, ValidationStage::ExclusiveGroup);
    assert!(errors[0].message.contains("radio_band"));
}

#[test]
fn single_member_of_group_passes() {
    let mut a = entry("radio_2g4");
    a.exclusive_group = Some("radio_band".into());
    let catalog = ComponentCatalog { entries: vec![a, entry("wifi")] };
    let expanded = vec!["radio_2g4".to_string(), "wifi".to_string()];
    assert!(stage_11_check_exclusive_groups(&expanded, &catalog).is_empty());
}

#[test]
fn no_profile_is_noop() {
    let config = make_config(None, vec![]);
    let errors = stage_12_validate_profile(&config, None, &vec![]);
    assert!(errors.is_empty());
}

#[test]
fn unknown_profile_rejected() {
    let config = make_config(Some("nonexistent"), vec![]);
    let errors = stage_12_validate_profile(&config, None, &vec![]);
    assert!(!errors.is_empty());
    assert!(errors[0].message.contains("nonexistent"));
}

#[test]
fn error_stage_is_profile_validation() {
    let config = make_config(Some("nonexistent"), vec![]);
    let errors = stage_12_validate_profile(&config, None, &vec![]);
    assert_eq!(errors[0].stage, ValidationStage::ProfileValidation);
}

#[test]
fn registered_secret_field_rejects_plaintext() {
    let mut e = entry("cloud_connector");
    e.secret_fields = vec!["access_token".into()];
    let catalog = ComponentCatalog { entries: vec![e] };
    let config = make_config(
        None,
        vec![ComponentConfig {
            component_type: "cloud_connector".into(),
            platform: None,
            config: obj(vec![("access_token", Json::Str("plaintext".into()))]),
        }],
    );
    let errors = stage_13_check_secret_fields(&config, &catalog);
    assert_eq!(errors[0].stage, ValidationStage::SecretFields);
    assert!(errors[0].message.contains("access_token"));
}

#[test]
fn secret_reference_accepted() {
    let mut e = entry("cloud_connector");
    e.secret_fields = vec!["access_token".into()];
    let catalog = ComponentCatalog { entries: vec![e] };
    let config = make_config(
        None,
        vec![ComponentConfig {
            component_type: "cloud_connector".into(),
            platform: None,
            config: obj(vec![("access_token", Json::Str("!secret token".into()))]),
        }],
    );
    assert!(stage_13_check_secret_fields(&config, &catalog).is_empty());
}
