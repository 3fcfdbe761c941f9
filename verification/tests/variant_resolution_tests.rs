use rshome::error::ValidationStage;
use rshome::json::Json;
use rshome::raw::{ComponentConfig, EsphomeBlock, RawConfig, StringMap};
use rshome::stages::s3_5_variant_resolution::{
    stage_3_5_resolve_variant, SolutionVariant, VariantResolution,
};

fn obj(pairs: Vec<(&str, Json)>) -> Json {
    let mut j = Json::empty_object();
    for (k, v) in pairs {
        j = j.with_member(k, v);
    }
    j
}

fn variants(ids: &[&str]) -> Vec<SolutionVariant> {
    ids.iter()
        .map(|vid| SolutionVariant {
            id: (*vid).into(),
            active_flag_add: vec![format!("USE_{}", vid.to_uppercase())],
            active_flag_remove: vec![format!("USE_NOT_{}", vid.to_uppercase())],
            add_components: vec![],
            remove_components: vec![],
        })
        .collect()
}

fn component_variant(id: &str, add: Vec<String>, remove: Vec<String>) -> Vec<SolutionVariant> {
    vec![SolutionVariant {
        id: id.into(),
        active_flag_add: vec![],
        active_flag_remove: vec![],
        add_components: add,
        remove_components: remove,
    }]
}

fn raw_config_with(solution: Option<&str>, variant: Option<&str>) -> RawConfig {
    RawConfig {
        esphome: EsphomeBlock {
            name: "test".into(),
            platform: "esp32_s3".into(),
            board: "esp32-s3-devkitc-1".into(),
            friendly_name: None,
            framework: None,
            includes: vec![],
            libraries: vec![],
            project: None,
            area: None,
            min_version: None,
            profile: None,
            solution: solution.map(String::from),
            solution_variant: variant.map(String::from),
        },
        packages: vec![],
        substitutions: StringMap::new(),
        components: vec![],
    }
}

#[test]
fn no_solution_is_noop() {
    let mut config = raw_config_with(None, Some("dshot"));
    let (resolution, errors) = stage_3_5_resolve_variant(&mut config, None);
    assert!(errors.is_empty());
    assert_eq!(resolution, VariantResolution::default());
}

#[test]
fn missing_required_variant_id_errors() {
    let vs = variants(&["pwm", "dshot"]);
    let mut config = raw_config_with(Some("multi_var_sol"), None);
    let (resolution, errors) = stage_3_5_resolve_variant(&mut config, Some(&vs));
    assert_eq!(errors.len(), 1);
    let err = &errors[0];
    assert_eq!(err.stage, ValidationStage::VariantResolution);
    assert!(err.is_fatal());
    assert!(err.message.contains("multi_var_sol"));
    let suggestion = err.suggestion.as_deref().unwrap_or_default();
    assert!(suggestion.contains("pwm"), "suggestion lists pwm: {suggestion}");
    assert!(suggestion.contains("dshot"), "suggestion lists dshot: {suggestion}");
    assert_eq!(resolution.solution_id.as_deref(), Some("multi_var_sol"));
    assert!(resolution.variant_id.is_none());
}

#[test]
fn unknown_variant_id_errors() {
    let vs = variants(&["pwm", "dshot"]);
    let mut config = raw_config_with(Some("multi_var_sol"), Some("bdshot"));
    let (resolution, errors) = stage_3_5_resolve_variant(&mut config, Some(&vs));
    assert_eq!(errors.len(), 1);
    let err = &errors[0];
    assert_eq!(err.stage, ValidationStage::VariantResolution);
    assert!(err.is_fatal());
    assert!(err.message.contains("bdshot"));
    let suggestion = err.suggestion.as_deref().unwrap_or_default();
    assert!(suggestion.contains("pwm") && suggestion.contains("dshot"));
    assert!(resolution.variant_id.is_none());
}

#[test]
fn variant_on_no_variants_warns_not_fatal() {
    let vs = variants(&[]);
    let mut config = raw_config_with(Some("single_path_sol"), Some("extra"));
    let (resolution, errors) = stage_3_5_resolve_variant(&mut config, Some(&vs));
    assert_eq!(errors.len(), 1);
    assert_eq!(errors[0].stage, ValidationStage::VariantResolution);
    assert!(!errors[0].is_fatal(), "should be a warning, not a fatal: {:?}", errors[0]);
    assert!(errors[0].message.contains("extra"));
    assert_eq!(resolution.solution_id.as_deref(), Some("single_path_sol"));
    assert!(resolution.variant_id.is_none());
}

#[test]
fn happy_path_captures_active_flag_deltas() {
    let vs = variants(&["pwm", "dshot"]);
    let mut config = raw_config_with(Some("multi_var_sol"), Some("dshot"));
    let (resolution, errors) = stage_3_5_resolve_variant(&mut config, Some(&vs));
    assert!(errors.is_empty(), "expected no errors, got {errors:?}");
    assert_eq!(resolution.solution_id.as_deref(), Some("multi_var_sol"));
    assert_eq!(resolution.variant_id.as_deref(), Some("dshot"));
    assert_eq!(resolution.active_flag_add, vec!["USE_DSHOT".to_string()]);
    assert_eq!(resolution.active_flag_remove, vec!["USE_NOT_DSHOT".to_string()]);
}

#[test]
fn unknown_solution_is_silent_passthrough() {
    let mut config = raw_config_with(Some("nope_not_here"), Some("unused"));
    let (resolution, errors) = stage_3_5_resolve_variant(&mut config, None);
    assert!(errors.is_empty(), "stage 3.5 should not double-report unknown solution ids: {errors:?}");
    assert_eq!(resolution.solution_id.as_deref(), Some("nope_not_here"));
    assert!(resolution.variant_id.is_none());
}

#[test]
fn add_components_is_appended_to_raw_config() {
    let vs = component_variant("v1", vec!["wifi".into()], vec![]);
    let mut config = raw_config_with(Some("overlay_sol"), Some("v1"));
    assert!(config.components.is_empty(), "fixture starts empty");
    let (_resolution, errors) = stage_3_5_resolve_variant(&mut config, Some(&vs));
    assert!(errors.is_empty(), "expected no errors, got {errors:?}");
    assert_eq!(config.components.len(), 1);
    assert_eq!(config.components[0].component_type, "wifi");
}

#[test]
fn add_components_skips_when_user_already_configured_the_type() {
    let vs = component_variant("v1", vec!["wifi".into()], vec![]);
    let mut config = raw_config_with(Some("overlay_sol"), Some("v1"));
    config.components.push(ComponentConfig {
        component_type: "wifi".into(),
        platform: None,
        config: obj(vec![("ssid", Json::Str("user_pick".into()))]),
    });
    let (_resolution, errors) = stage_3_5_resolve_variant(&mut config, Some(&vs));
    assert!(errors.is_empty());
    assert_eq!(config.components.len(), 1, "no dup appended");
    assert_eq!(
        config.components[0].config.get("ssid").and_then(|v| v.as_str()),
        Some("user_pick"),
        "user-supplied config preserved",
    );
}

#[test]
fn remove_components_drops_matching_entry() {
    let vs = component_variant("v1", vec![], vec!["wifi".into()]);
    let mut config = raw_config_with(Some("overlay_sol"), Some("v1"));
    config.components.push(ComponentConfig {
        component_type: "wifi".into(),
        platform: None,
        config: Json::empty_object(),
    });
    config.components.push(ComponentConfig {
        component_type: "ota".into(),
        platform: None,
        config: Json::empty_object(),
    });
    let (_resolution, errors) = stage_3_5_resolve_variant(&mut config, Some(&vs));
    assert!(errors.is_empty());
    assert_eq!(config.components.len(), 1);
    assert_eq!(config.components[0].component_type, "ota");
}
