use rshome::json::Json;
use rshome::raw::{ComponentConfig, EsphomeBlock, RawConfig, StringMap};
use rshome::stages::s8_id_resolution::{make_unique, stage_8_resolve_ids, IdEntry};

fn obj(pairs: Vec<(&str, Json)>) -> Json {
    let mut j = Json::empty_object();
    for (k, v) in pairs {
        j = j.with_member(k, v);
    }
    j
}

fn st(x: &str) -> Json {
    Json::Str(x.to_string())
}

fn base_config() -> RawConfig {
    RawConfig {
        esphome: EsphomeBlock {
            name: "test".into(),
            platform: "esp32".into(),
            board: "esp32dev".into(),
            friendly_name: None,
            framework: None,
            includes: vec![],
            libraries: vec![],
            project: None,
            area: None,
            min_version: None,
            profile: None,
            solution: None,
            solution_variant: None,
        },
        packages: vec![],
        substitutions: StringMap::new(),
        components: vec![],
    }
}

fn push(config: &mut RawConfig, typ: &str, val: Json) {
    config.components.push(ComponentConfig {
        component_type: typ.into(),
        platform: None,
        config: val,
    });
}

fn has_id(table: &[IdEntry], id: &str) -> bool {
    table.iter().any(|e| e.id == id)
}

#[test]
fn explicit_ids_collected() {
    let mut config = base_config();
    push(&mut config, "sensor", obj(vec![("id", st("my_sensor")), ("name", st("temp"))]));
    let (table, errors) = stage_8_resolve_ids(&mut config);
    assert!(errors.is_empty());
    assert!(has_id(&table, "my_sensor"));
}

#[test]
fn duplicate_id_produces_error() {
    let mut config = base_config();
    push(&mut config, "sensor", obj(vec![("id", st("dup")), ("name", st("A"))]));
    push(&mut config, "sensor", obj(vec![("id", st("dup")), ("name", st("B"))]));
    let (_, errors) = stage_8_resolve_ids(&mut config);
    assert!(errors.iter().any(|e| e.message.contains("duplicate ID") && e.is_fatal()));
}

#[test]
fn id_auto_generated_from_name() {
    let mut config = base_config();
    push(&mut config, "sensor", obj(vec![("name", st("Temperature Sensor"))]));
    let (table, errors) = stage_8_resolve_ids(&mut config);
    assert!(errors.is_empty());
    assert!(table.iter().any(|e| e.id.contains("temperature")));
}

#[test]
fn auto_generated_id_injected_into_config() {
    let mut config = base_config();
    push(&mut config, "sensor", obj(vec![("name", st("Humidity"))]));
    stage_8_resolve_ids(&mut config);
    assert!(config.components[0].config.get("id").is_some());
}

#[test]
fn unique_suffix_appended_for_name_collision() {
    let mut config = base_config();
    push(&mut config, "sensor", obj(vec![("name", st("temp"))]));
    push(&mut config, "sensor", obj(vec![("name", st("temp"))]));
    let (table, _) = stage_8_resolve_ids(&mut config);
    assert!(has_id(&table, "temp"));
    assert!(has_id(&table, "temp_2"));
}

#[test]
fn cross_reference_to_known_id_passes() {
    let mut config = base_config();
    push(&mut config, "sensor", obj(vec![("id", st("my_sensor")), ("name", st("temp"))]));
    push(&mut config, "template", obj(vec![("sensor_id", st("my_sensor")), ("name", st("derived"))]));
    let (_, errors) = stage_8_resolve_ids(&mut config);
    assert!(errors.is_empty(), "errors: {:?}", errors);
}

#[test]
fn cross_reference_to_unknown_id_produces_error() {
    let mut config = base_config();
    push(
        &mut config,
        "template",
        obj(vec![("sensor_id", st("nonexistent_sensor")), ("name", st("derived"))]),
    );
    let (_, errors) = stage_8_resolve_ids(&mut config);
    assert!(errors.iter().any(|e| e.message.contains("nonexistent_sensor")));
}

#[test]
fn make_unique_picks_first_free_suffix() {
    let table = vec![
        IdEntry { id: "temp".into(), component_index: 0, component_type: "sensor".into() },
        IdEntry { id: "temp_2".into(), component_index: 1, component_type: "sensor".into() },
    ];
    assert_eq!(make_unique("temp", &table), "temp_3");
    assert_eq!(make_unique("hum", &table), "hum");
}

#[test]
fn id_table_has_no_duplicates() {
    let mut config = base_config();
    for _ in 0..4 {
        push(&mut config, "sensor", obj(vec![("name", st("temp"))]));
    }
    let (table, _) = stage_8_resolve_ids(&mut config);
    for (i, a) in table.iter().enumerate() {
        for b in table.iter().skip(i + 1) {
            assert_ne!(a.id, b.id);
        }
    }
}
