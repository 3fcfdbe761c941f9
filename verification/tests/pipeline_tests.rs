use rshome::catalog::ComponentCatalog;
use rshome::error::{ValidationError, ValidationStage};
use rshome::json::{Json, JsonNumber};
use rshome::pipeline::{
    absorb_stage, assemble_active_flags, build_validated_components, entity_flag_candidates,
    flag_name, PartialConfig, ValidationPipeline, ValidationResult,
};
use rshome::raw::{ComponentConfig, EsphomeBlock, RawConfig, StringMap};

fn obj(pairs: Vec<(&str, Json)>) -> Json {
    let mut j = Json::empty_object();
    for (k, v) in pairs {
        j = j.with_member(k, v);
    }
    j
}

fn block(name: &str, platform: &str, board: &str) -> EsphomeBlock {
    EsphomeBlock {
        name: name.into(),
        platform: platform.into(),
        board: board.into(),
        friendly_name: None,
        framework: None,
        includes: vec![],
        libraries: vec![],
        project: None,
        area: None,
        min_version: None,
        profile: None,
        solution: None,
        solution_variant: None,
    }
}

fn names(v: &[&str]) -> Vec<String> {
    v.iter().map(|s| s.to_string()).collect()
}

#[test]
fn partial_validation_bad_platform_returns_error() {
    let pipeline = ValidationPipeline::new(ComponentCatalog { entries: vec![] });
    let partial = PartialConfig {
        esphome: Some(block("test", "esp8266", "nodemcu")),
        components: vec![],
        substitutions: StringMap::new(),
    };
    let errors = pipeline.validate_partial(partial);
    assert!(errors.iter().any(|e| e.path == "esphome.platform"));
}

#[test]
fn partial_validation_good_config_no_errors() {
    let pipeline = ValidationPipeline::new(ComponentCatalog { entries: vec![] });
    let partial = PartialConfig {
        esphome: Some(block("dev", "esp32", "esp32dev")),
        components: vec![],
        substitutions: StringMap::new(),
    };
    let errors = pipeline.validate_partial(partial);
    assert!(errors.iter().all(|e| !e.is_fatal()), "fatal errors: {:?}", errors);
}

#[test]
fn partial_validation_without_block_uses_placeholder() {
    let pipeline = ValidationPipeline::new(ComponentCatalog { entries: vec![] });
    let partial = PartialConfig {
        esphome: None,
        components: vec![ComponentConfig {
            component_type: "logger".into(),
            platform: None,
            config: obj(vec![("level", Json::Str("LOUD".into()))]),
        }],
        substitutions: StringMap::new(),
    };
    let errors = pipeline.validate_partial(partial);
    assert_eq!(errors.len(), 1);
    assert!(errors[0].message.contains("LOUD"));
}

#[test]
fn absorb_stage_reports_fatal() {
    let mut all = vec![ValidationError::warning(ValidationStage::Preload, "a", "w")];
    let fatal = absorb_stage(&mut all, vec![ValidationError::info(ValidationStage::Preload, "b", "i")]);
    assert!(!fatal);
    let fatal = absorb_stage(&mut all, vec![ValidationError::error(ValidationStage::Preload, "c", "e")]);
    assert!(fatal);
    assert_eq!(all.len(), 3);
    assert_eq!(all[2].path, "c");
}

#[test]
fn flag_name_uppercases() {
    assert_eq!(flag_name("dht"), "USE_DHT");
    assert_eq!(flag_name("binary_sensor"), "USE_BINARY_SENSOR");
}

#[test]
fn active_flags_sorted_deduped_and_removals_win() {
    let resolved = names(&["wifi", "dht", "api", "sensor"]);
    let id_present = vec![true, true, false, true];
    let cands = entity_flag_candidates();
    let cand_present: Vec<bool> = cands.iter().map(|c| c == "USE_SENSOR" || c == "USE_WIFI").collect();
    let add = names(&["USE_EXTRA", "USE_WIFI"]);
    let remove = names(&["USE_DHT"]);
    let flags = assemble_active_flags(&resolved, &id_present, &cand_present, &add, &remove);
    assert_eq!(flags, names(&["USE_EXTRA", "USE_SENSOR", "USE_WIFI"]));
}

#[test]
fn validated_components_explicit_then_auto() {
    let mut config = RawConfig {
        esphome: block("dev", "esp32", "esp32dev"),
        packages: vec![],
        substitutions: StringMap::new(),
        components: vec![],
    };
    config.components.push(ComponentConfig {
        component_type: "sensor".into(),
        platform: Some("dht".into()),
        config: obj(vec![("id", Json::Str("t1".into())), ("pin", Json::Number(JsonNumber::PosInt(4)))]),
    });
    config.components.push(ComponentConfig {
        component_type: "wifi".into(),
        platform: None,
        config: Json::empty_object(),
    });
    config.components.push(ComponentConfig {
        component_type: "sensor".into(),
        platform: Some("adc".into()),
        config: Json::empty_object(),
    });
    let resolved = names(&["dht", "wifi", "adc", "sensor"]);
    let out = build_validated_components(&config, &resolved);
    assert_eq!(out.len(), 4);
    assert_eq!(out[0].component_id, "dht");
    assert_eq!(out[0].platform_type.as_deref(), Some("sensor"));
    assert_eq!(out[0].index, 0);
    assert_eq!(out[0].entity_id.as_deref(), Some("t1"));
    assert_eq!(out[1].component_id, "wifi");
    assert_eq!(out[1].platform_type, None);
    assert_eq!(out[2].index, 1);
    assert!(!out[2].auto_loaded);
    assert_eq!(out[3].component_id, "sensor");
    assert!(out[3].auto_loaded);
    assert_eq!(out[3].config, Json::empty_object());
}

#[test]
fn validation_result_accessors() {
    let r = ValidationResult::Invalid(vec![ValidationError::error(ValidationStage::Preload, "x", "e")]);
    assert!(!r.is_valid());
    assert_eq!(r.all_errors().len(), 1);
    assert_eq!(r.errors().len(), 1);
    let r = ValidationResult::Invalid(vec![]);
    assert!(r.ok().is_none());
}
