use rshome::catalog::{CatalogEntry, ComponentCatalog};
use rshome::error::{ValidationError, ValidationStage};
use rshome::json::Json;
use rshome::pipeline::{ValidationPipeline, ValidationResult};
use rshome::pipeline_run::{fallback_graph, FinalInputs};
use rshome::raw::{ComponentConfig, EsphomeBlock, PackageStore, RawConfig, StringMap};
use rshome::stages::s3_5_variant_resolution::SolutionVariant;
use rshome::stages::s9_final_validation::SolutionBundle;
use rshome::validated::ChipTarget;

fn strs(v: &[&str]) -> Vec<String> {
    v.iter().map(|s| s.to_string()).collect()
}

fn make_catalog() -> ComponentCatalog {
    let mut entries = Vec::new();
    for id in ["wifi", "api", "ota", "logger", "sensor", "dht", "i2c", "uart"] {
        entries.push(CatalogEntry {
            id: id.to_string(),
            child_components: if id == "sensor" { strs(&["dht"]) } else { vec![] },
            auto_load: if id == "dht" { strs(&["sensor"]) } else { vec![] },
            dependencies: if id == "api" { strs(&["wifi"]) } else { vec![] },
            conflicts_with: vec![],
            exclusive_group: None,
            secret_fields: vec![],
        });
    }
    ComponentCatalog { entries }
}

/// The registry's AUTO_LOAD expansion, as the tests model it: the ids in
/// order, then each id's AUTO_LOAD entries that are not yet listed.
fn expand(catalog: &ComponentCatalog, ids: &[String]) -> Vec<String> {
    let mut out: Vec<String> = Vec::new();
    let mut queue: Vec<String> = ids.to_vec();
    while !queue.is_empty() {
        let id = queue.remove(0);
        if out.contains(&id) {
            continue;
        }
        if let Some(e) = catalog.entries.iter().find(|e| e.id == id) {
            queue.extend(e.auto_load.iter().cloned());
        }
        out.push(id);
    }
    out
}

fn effective_ids(config: &RawConfig) -> Vec<String> {
    config
        .components
        .iter()
        .map(|c| match &c.platform {
            Some(p) if !p.is_empty() => p.clone(),
            _ => c.component_type.clone(),
        })
        .collect()
}

fn minimal_config(platform: &str) -> RawConfig {
    RawConfig {
        esphome: EsphomeBlock {
            name: "testdev".into(),
            platform: platform.into(),
            board: "esp32dev".into(),
            friendly_name: None,
            framework: None,
            includes: vec![],
            libraries: vec![],
            project: None,
            area: None,
            min_version: None,
            profile: None,
            solution: None,
            solution_variant: None,
        },
        packages: vec![],
        substitutions: StringMap { entries: vec![] },
        components: vec![],
    }
}

fn dht_config() -> Json {
    Json::empty_object()
        .with_member("pin", Json::Number(rshome::json::JsonNumber::PosInt(4)))
        .with_member("name", Json::Str("Temp".into()))
}

fn component(t: &str) -> ComponentConfig {
    ComponentConfig { component_type: t.into(), platform: None, config: Json::empty_object() }
}

/// One full run: the three steps with the registry lookups in between.
fn validate(
    pipeline: &ValidationPipeline,
    config: RawConfig,
    variants: Option<Vec<SolutionVariant>>,
    solution: Option<SolutionBundle>,
) -> ValidationResult {
    let front = match pipeline.validate_front(config, &PackageStore::new(), variants.as_ref()) {
        Ok(f) => f,
        Err(e) => return ValidationResult::Invalid(e),
    };
    let resolved = expand(&pipeline.catalog, &front.direct);
    let checked = match pipeline.validate_resolved(front, resolved) {
        Ok(c) => c,
        Err(e) => return ValidationResult::Invalid(e),
    };
    let expanded = expand(&pipeline.catalog, &effective_ids(&checked.config));
    let inputs = FinalInputs {
        solution,
        climate_errors: vec![],
        sigrok: None,
        pin_errors: vec![],
        pin_allocations: vec![],
        expanded,
        profile: None,
        id_flag_present: vec![true; checked.resolved.len()],
        candidate_flag_present: vec![false; 25],
        dag: None,
    };
    pipeline.validate_final(checked, inputs)
}

fn composite_variants() -> Vec<SolutionVariant> {
    ["profile_a", "profile_b"]
        .iter()
        .map(|id| SolutionVariant {
            id: id.to_string(),
            active_flag_add: vec![],
            active_flag_remove: vec![],
            add_components: vec![],
            remove_components: vec![],
        })
        .collect()
}

fn composite_bundle() -> SolutionBundle {
    SolutionBundle { required: strs(&["uart"]), optional: vec![], watchdog_ms: None, steps: vec![] }
}

fn has_fatal_stage(errs: &[ValidationError], stage: ValidationStage) -> bool {
    errs.iter().any(|e| e.stage == stage && e.is_fatal())
}

#[test]
fn empty_valid_config_passes() {
    let pipeline = ValidationPipeline::new(make_catalog());
    let result = validate(&pipeline, minimal_config("esp32"), None, None);
    assert!(result.is_valid());
}

#[test]
fn unknown_platform_produces_invalid() {
    let pipeline = ValidationPipeline::new(make_catalog());
    let result = validate(&pipeline, minimal_config("rp2040"), None, None);
    assert!(!result.is_valid());
}

#[test]
fn valid_wifi_component_passes() {
    let pipeline = ValidationPipeline::new(make_catalog());
    let mut config = minimal_config("esp32");
    config.components.push(ComponentConfig {
        component_type: "wifi".into(),
        platform: None,
        config: Json::empty_object().with_member("provisioning_mode", Json::Str("nvs".into())),
    });
    let result = validate(&pipeline, config, None, None);
    assert!(result.is_valid(), "result should be valid");
}

#[test]
fn api_without_wifi_fails() {
    let pipeline = ValidationPipeline::new(make_catalog());
    let mut config = minimal_config("esp32");
    config.components.push(component("api"));
    let result = validate(&pipeline, config, None, None);
    assert!(!result.is_valid());
}

#[test]
fn variant_resolution_propagates_variant_id_to_validated_config() {
    let pipeline = ValidationPipeline::new(make_catalog());
    let mut config = minimal_config("esp32s3");
    config.esphome.solution = Some("composite_device_firmware".into());
    config.esphome.solution_variant = Some("profile_a".into());
    config.components.push(component("uart"));
    let result = validate(&pipeline, config, Some(composite_variants()), Some(composite_bundle()));
    let validated = match result {
        ValidationResult::Valid(v, _) => *v,
        ValidationResult::Invalid(errs) => panic!("must validate; got errors: {errs:?}"),
    };
    assert_eq!(validated.esphome.solution_id.as_deref(), Some("composite_device_firmware"));
    assert_eq!(validated.esphome.solution_variant_id.as_deref(), Some("profile_a"));
}

#[test]
fn variant_resolution_unknown_variant_is_fatal() {
    let pipeline = ValidationPipeline::new(make_catalog());
    let mut config = minimal_config("esp32s3");
    config.esphome.solution = Some("composite_device_firmware".into());
    config.esphome.solution_variant = Some("profile_z_not_real".into());
    let result = validate(&pipeline, config, Some(composite_variants()), Some(composite_bundle()));
    assert!(!result.is_valid(), "unknown variant should fail");
    let errs = result.errors();
    assert!(has_fatal_stage(&errs, ValidationStage::VariantResolution), "got {errs:?}");
}

#[test]
fn variant_resolution_missing_variant_is_fatal() {
    let pipeline = ValidationPipeline::new(make_catalog());
    let mut config = minimal_config("esp32s3");
    config.esphome.solution = Some("composite_device_firmware".into());
    config.esphome.solution_variant = None;
    let result = validate(&pipeline, config, Some(composite_variants()), Some(composite_bundle()));
    assert!(!result.is_valid(), "missing variant must be fatal");
    let errs = result.errors();
    assert!(has_fatal_stage(&errs, ValidationStage::VariantResolution));
}

#[test]
fn validated_config_contains_chip_target() {
    let pipeline = ValidationPipeline::new(make_catalog());
    let validated = validate(&pipeline, minimal_config("esp32s3"), None, None).ok().expect("should be valid");
    assert_eq!(validated.esphome.chip_target, ChipTarget::Esp32S3);
}

#[test]
fn validated_config_has_dependency_graph() {
    let pipeline = ValidationPipeline::new(make_catalog());
    let mut config = minimal_config("esp32");
    config.components.push(component("wifi"));
    let validated = validate(&pipeline, config, None, None).ok().expect("valid");
    let _ = &validated.dependency_graph;
}

#[test]
fn run_stops_at_first_fatal_stage() {
    let pipeline = ValidationPipeline::new(make_catalog());
    let mut config = minimal_config("esp32");
    config.components.push(component("not_a_component"));
    let errs = match pipeline.validate_front(config, &PackageStore::new(), None) {
        Ok(_) => panic!("unknown component must stop the run"),
        Err(e) => e,
    };
    assert!(has_fatal_stage(&errs, ValidationStage::ComponentLoading));
    assert!(errs.iter().all(|e| e.stage != ValidationStage::SchemaValidation));
}

#[test]
fn front_run_reports_direct_ids_once() {
    let pipeline = ValidationPipeline::new(make_catalog());
    let mut config = minimal_config("esp32");
    config.components.push(component("wifi"));
    config.components.push(ComponentConfig {
        component_type: "sensor".into(),
        platform: Some("dht".into()),
        config: dht_config(),
    });
    config.components.push(component("wifi"));
    let front = pipeline.validate_front(config, &PackageStore::new(), None).ok().expect("front passes");
    assert_eq!(front.direct, strs(&["wifi", "dht"]));
    assert_eq!(front.preload.chip_target, ChipTarget::Esp32);
}

#[test]
fn auto_loaded_components_and_flags_in_validated_config() {
    let pipeline = ValidationPipeline::new(make_catalog());
    let mut config = minimal_config("esp32");
    config.components.push(component("wifi"));
    config.components.push(ComponentConfig {
        component_type: "sensor".into(),
        platform: Some("dht".into()),
        config: dht_config(),
    });
    let v = validate(&pipeline, config, None, None).ok().expect("valid");
    let ids: Vec<&str> = v.components.iter().map(|c| c.component_id.as_str()).collect();
    assert_eq!(ids, vec!["wifi", "dht", "sensor"]);
    assert!(v.components[2].auto_loaded);
    assert_eq!(v.active_flags, strs(&["USE_DHT", "USE_SENSOR", "USE_WIFI"]));
}

#[test]
fn fallback_graph_uses_dependencies_then_auto_load() {
    let catalog = make_catalog();
    let g = fallback_graph(&strs(&["api", "dht", "wifi", "sensor"]), &catalog);
    let deps = |k: &str| {
        g.edges.iter().find(|(id, _)| id == k).map(|(_, d)| d.clone()).unwrap_or_default()
    };
    assert_eq!(deps("api"), strs(&["wifi"]));
    assert_eq!(deps("dht"), strs(&["sensor"]));
    assert!(deps("wifi").is_empty());
    let pos = |k: &str| g.order.iter().position(|x| x == k).unwrap();
    assert!(pos("wifi") < pos("api"));
    assert!(pos("sensor") < pos("dht"));
}

#[test]
fn valid_result_keeps_run_warnings() {
    let pipeline = ValidationPipeline::new(make_catalog());
    let mut config = minimal_config("esp32");
    config.components.push(ComponentConfig {
        component_type: "wifi".into(),
        platform: None,
        config: Json::empty_object().with_member("ssid", Json::Str("${undefined_net}".into())),
    });
    let result = validate(&pipeline, config, None, None);
    assert!(result.is_valid(), "an undefined variable only warns");
    let all = result.all_errors();
    assert!(!all.is_empty());
    assert!(all.iter().any(|e| e.stage == ValidationStage::Substitutions && !e.is_fatal()));
}
