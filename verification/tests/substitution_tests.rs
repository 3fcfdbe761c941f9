use rshome::error::Severity;
use rshome::json::{Json, JsonNumber};
use rshome::raw::{ComponentConfig, EsphomeBlock, RawConfig, StringMap};
use rshome::stages::s2_substitutions::{resolve_string, stage_2_apply_substitutions};

fn obj(pairs: Vec<(&str, Json)>) -> Json {
    let mut j = Json::empty_object();
    for (k, v) in pairs {
        j = j.with_member(k, v);
    }
    j
}

fn num(n: u64) -> Json {
    Json::Number(JsonNumber::PosInt(n))
}

fn st(x: &str) -> Json {
    Json::Str(x.to_string())
}

fn field<'a>(j: &'a Json, k: &str) -> &'a Json {
    j.get(k).expect("field present")
}

fn item(j: &Json, i: usize) -> &Json {
    match j {
        Json::Array(v) => &v[i],
        _ => panic!("not an array"),
    }
}

fn base_config() -> RawConfig {
    RawConfig {
        esphome: EsphomeBlock {
            name: "test".into(),
            platform: "esp32".into(),
            board: "esp32dev".into(),
            friendly_name: None,
            framework: None,
            includes: vec![],
            libraries: vec![],
            project: None,
            area: None,
            min_version: None,
            profile: None,
            solution: None,
            solution_variant: None,
        },
        packages: vec![],
        substitutions: StringMap::new(),
        components: vec![],
    }
}

fn push_comp(config: &mut RawConfig, typ: &str, val: Json) {
    config.components.push(ComponentConfig {
        component_type: typ.into(),
        platform: None,
        config: val,
    });
}

#[test]
fn no_substitutions_noop() {
    let mut config = base_config();
    push_comp(&mut config, "sensor", obj(vec![("pin", num(4)), ("name", st("temp"))]));
    let errors = stage_2_apply_substitutions(&mut config);
    assert!(errors.is_empty());
    assert_eq!(*field(&config.components[0].config, "pin"), num(4));
    assert_eq!(*field(&config.components[0].config, "name"), st("temp"));
}

#[test]
fn simple_string_substitution() {
    let mut config = base_config();
    config.substitutions.insert("sensor_name", "Temperature");
    push_comp(&mut config, "sensor", obj(vec![("name", st("${sensor_name}"))]));
    let errors = stage_2_apply_substitutions(&mut config);
    assert!(errors.is_empty());
    assert_eq!(*field(&config.components[0].config, "name"), st("Temperature"));
}

#[test]
fn default_used_when_variable_missing() {
    let mut config = base_config();
    push_comp(&mut config, "sensor", obj(vec![("name", st("${missing:=fallback}"))]));
    let errors = stage_2_apply_substitutions(&mut config);
    assert!(errors.is_empty());
    assert_eq!(*field(&config.components[0].config, "name"), st("fallback"));
}

#[test]
fn explicit_value_takes_precedence_over_default() {
    let mut config = base_config();
    config.substitutions.insert("my_var", "actual");
    push_comp(&mut config, "sensor", obj(vec![("name", st("${my_var:=fallback}"))]));
    let errors = stage_2_apply_substitutions(&mut config);
    assert!(errors.is_empty());
    assert_eq!(*field(&config.components[0].config, "name"), st("actual"));
}

#[test]
fn undefined_var_without_default_produces_warning() {
    let mut config = base_config();
    push_comp(&mut config, "sensor", obj(vec![("name", st("${undef}"))]));
    let errors = stage_2_apply_substitutions(&mut config);
    assert_eq!(errors.len(), 1);
    assert_eq!(errors[0].severity, Severity::Warning);
    assert!(errors[0].message.contains("undef"));
    assert_eq!(*field(&config.components[0].config, "name"), st("${undef}"));
}

#[test]
fn substitution_in_nested_object() {
    let mut config = base_config();
    config.substitutions.insert("sda_pin", "21");
    push_comp(&mut config, "i2c", obj(vec![("sda", st("${sda_pin}")), ("scl", st("22"))]));
    let errors = stage_2_apply_substitutions(&mut config);
    assert!(errors.is_empty());
    assert_eq!(*field(&config.components[0].config, "sda"), st("21"));
    assert_eq!(*field(&config.components[0].config, "scl"), st("22"));
}

#[test]
fn substitution_in_array_elements() {
    let mut config = base_config();
    config.substitutions.insert("room", "kitchen");
    push_comp(
        &mut config,
        "logger",
        obj(vec![("tags", Json::Array(vec![st("${room}"), st("fixed")]))]),
    );
    let errors = stage_2_apply_substitutions(&mut config);
    assert!(errors.is_empty());
    let tags = field(&config.components[0].config, "tags");
    assert_eq!(*item(tags, 0), st("kitchen"));
    assert_eq!(*item(tags, 1), st("fixed"));
}

#[test]
fn platform_field_substitution() {
    let mut config = base_config();
    config.substitutions.insert("plat", "dht");
    config.components.push(ComponentConfig {
        component_type: "sensor".into(),
        platform: Some("${plat}".into()),
        config: Json::empty_object(),
    });
    let errors = stage_2_apply_substitutions(&mut config);
    assert!(errors.is_empty());
    assert_eq!(config.components[0].platform.as_deref(), Some("dht"));
}

#[test]
fn multiple_placeholders_in_one_string() {
    let mut config = base_config();
    config.substitutions.insert("device", "mydev");
    config.substitutions.insert("suffix", "_sensor");
    push_comp(&mut config, "sensor", obj(vec![("name", st("${device}${suffix}"))]));
    let errors = stage_2_apply_substitutions(&mut config);
    assert!(errors.is_empty());
    assert_eq!(*field(&config.components[0].config, "name"), st("mydev_sensor"));
}

#[test]
fn resolve_string_keeps_text_around_placeholders() {
    let mut subs = StringMap::new();
    subs.insert("a", "1");
    let mut errors = Vec::new();
    let out = resolve_string("x${a}y${b:=2}z", &subs, &mut errors, "p");
    assert_eq!(out, "x1y2z");
    assert!(errors.is_empty());
}
