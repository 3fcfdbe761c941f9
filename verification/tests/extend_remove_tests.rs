use rshome::error::Severity;
use rshome::json::{Json, JsonNumber};
use rshome::raw::{ComponentConfig, EsphomeBlock, RawConfig, StringMap};
use rshome::stages::s3_extend_remove::{deep_merge, stage_3_process_extend_remove};

fn obj(pairs: Vec<(&str, Json)>) -> Json {
    let mut j = Json::empty_object();
    for (k, v) in pairs {
        j = j.with_member(k, v);
    }
    j
}

fn num(n: u64) -> Json {
    Json::Number(JsonNumber::PosInt(n))
}

fn st(x: &str) -> Json {
    Json::Str(x.to_string())
}

fn field<'a>(j: &'a Json, k: &str) -> &'a Json {
    j.get(k).expect("field present")
}

fn base_config() -> RawConfig {
    RawConfig {
        esphome: EsphomeBlock {
            name: "test".into(),
            platform: "esp32".into(),
            board: "esp32dev".into(),
            friendly_name: None,
            framework: None,
            includes: vec![],
            libraries: vec![],
            project: None,
            area: None,
            min_version: None,
            profile: None,
            solution: None,
            solution_variant: None,
        },
        packages: vec![],
        substitutions: StringMap::new(),
        components: vec![],
    }
}

fn comp(typ: &str, val: Json) -> ComponentConfig {
    ComponentConfig {
        component_type: typ.into(),
        platform: None,
        config: val,
    }
}

#[test]
fn no_directives_noop() {
    let mut config = base_config();
    config.components.push(comp("wifi", obj(vec![("ssid", st("Net"))])));
    let errors = stage_3_process_extend_remove(&mut config);
    assert!(errors.is_empty());
    assert_eq!(config.components.len(), 1);
}

#[test]
fn extend_merges_new_keys() {
    let mut config = base_config();
    config.components.push(comp("wifi", obj(vec![("ssid", st("Net"))])));
    config.components.push(comp("!extend wifi", obj(vec![("password", st("secret"))])));
    let errors = stage_3_process_extend_remove(&mut config);
    assert!(errors.is_empty());
    assert_eq!(config.components.len(), 1);
    assert_eq!(*field(&config.components[0].config, "ssid"), st("Net"));
    assert_eq!(*field(&config.components[0].config, "password"), st("secret"));
}

#[test]
fn extend_overrides_existing_key() {
    let mut config = base_config();
    config.components.push(comp("wifi", obj(vec![("ssid", st("OldNet"))])));
    config.components.push(comp("!extend wifi", obj(vec![("ssid", st("NewNet"))])));
    let errors = stage_3_process_extend_remove(&mut config);
    assert!(errors.is_empty());
    assert_eq!(*field(&config.components[0].config, "ssid"), st("NewNet"));
}

#[test]
fn extend_missing_target_produces_error() {
    let mut config = base_config();
    config.components.push(comp("!extend nonexistent", obj(vec![("x", num(1))])));
    let errors = stage_3_process_extend_remove(&mut config);
    assert_eq!(errors.len(), 1);
    assert!(errors[0].is_fatal());
    assert!(errors[0].message.contains("nonexistent"));
}

#[test]
fn remove_deletes_target_component() {
    let mut config = base_config();
    config.components.push(comp("logger", Json::empty_object()));
    config.components.push(comp("wifi", obj(vec![("ssid", st("Net"))])));
    config.components.push(comp("!remove logger", Json::empty_object()));
    let errors = stage_3_process_extend_remove(&mut config);
    assert!(errors.is_empty());
    assert_eq!(config.components.len(), 1);
    assert_eq!(config.components[0].component_type, "wifi");
}

#[test]
fn remove_missing_target_produces_warning() {
    let mut config = base_config();
    config.components.push(comp("!remove nonexistent", Json::empty_object()));
    let errors = stage_3_process_extend_remove(&mut config);
    assert_eq!(errors.len(), 1);
    assert_eq!(errors[0].severity, Severity::Warning);
    assert!(errors[0].message.contains("nonexistent"));
}

#[test]
fn directives_not_present_in_final_component_list() {
    let mut config = base_config();
    config.components.push(comp("wifi", obj(vec![("ssid", st("Net"))])));
    config.components.push(comp("!extend wifi", obj(vec![("password", st("pw"))])));
    stage_3_process_extend_remove(&mut config);
    assert!(config.components.iter().all(|c| !c.component_type.starts_with('!')));
}

#[test]
fn deep_merge_nested_objects() {
    let mut config = base_config();
    config.components.push(comp(
        "logger",
        obj(vec![("level", st("INFO")), ("logs", obj(vec![("sensor", st("DEBUG"))]))]),
    ));
    config.components.push(comp(
        "!extend logger",
        obj(vec![("logs", obj(vec![("switch", st("WARN"))]))]),
    ));
    let errors = stage_3_process_extend_remove(&mut config);
    assert!(errors.is_empty());
    let c = &config.components[0].config;
    assert_eq!(*field(c, "level"), st("INFO"));
    assert_eq!(*field(field(c, "logs"), "sensor"), st("DEBUG"));
    assert_eq!(*field(field(c, "logs"), "switch"), st("WARN"));
}

#[test]
fn deep_merge_replaces_non_objects() {
    let base = obj(vec![("a", num(1)), ("b", Json::Array(vec![num(1)]))]);
    let overlay = obj(vec![("b", st("x")), ("c", Json::Null)]);
    let merged = deep_merge(&base, &overlay);
    assert_eq!(merged, obj(vec![("a", num(1)), ("b", st("x")), ("c", Json::Null)]));
}

#[test]
fn extend_then_remove_consumes_all_directives() {
    let mut config = base_config();
    config.components.push(comp("logger", Json::empty_object()));
    config.components.push(comp("!remove logger", Json::empty_object()));
    config.components.push(comp("!extend logger", obj(vec![("x", num(1))])));
    let errors = stage_3_process_extend_remove(&mut config);
    assert!(config.components.iter().all(|c| !c.component_type.starts_with('!')));
    assert_eq!(errors.len(), 1);
    assert!(errors[0].is_fatal());
}
