use rshome::error::Severity;
use rshome::json::{Json, JsonNumber};
use rshome::raw::{ComponentConfig, EsphomeBlock, RawConfig, StringMap};
use rshome::stages::s10_pin_conflicts::{
    collect_pin_usages, extract_pins, pin_conflict_error, pin_error_diagnostic, PinConflict,
    PinError, PinMode, PullMode,
};
use rshome::validated::ChipTarget;

fn obj(pairs: Vec<(&str, Json)>) -> Json {
    let mut j = Json::empty_object();
    for (k, v) in pairs {
        j = j.with_member(k, v);
    }
    j
}

fn num(n: u64) -> Json {
    Json::Number(JsonNumber::PosInt(n))
}

fn base_config() -> RawConfig {
    RawConfig {
        esphome: EsphomeBlock {
            name: "test".into(),
            platform: "esp32".into(),
            board: "esp32dev".into(),
            friendly_name: None,
            framework: None,
            includes: vec![],
            libraries: vec![],
            project: None,
            area: None,
            min_version: None,
            profile: None,
            solution: None,
            solution_variant: None,
        },
        packages: vec![],
        substitutions: StringMap::new(),
        components: vec![],
    }
}

fn push(config: &mut RawConfig, typ: &str, platform: Option<&str>, val: Json) {
    config.components.push(ComponentConfig {
        component_type: typ.into(),
        platform: platform.map(String::from),
        config: val,
    });
}

#[test]
fn no_pins_no_usages() {
    let config = base_config();
    assert!(collect_pin_usages(&config).is_empty());
}

#[test]
fn i2c_pins_extracted_in_field_order() {
    let pins = extract_pins(&obj(vec![("sda", num(21)), ("scl", num(22))]), "i2c", "i2c[0]");
    assert_eq!(pins.len(), 2);
    assert_eq!(pins[0].gpio_num, 21);
    assert_eq!(pins[0].mode, PinMode::I2cSda);
    assert_eq!(pins[0].path, "i2c[0].sda");
    assert_eq!(pins[1].gpio_num, 22);
    assert_eq!(pins[1].mode, PinMode::I2cScl);
}

#[test]
fn pin_as_object_with_number_key() {
    let pin = obj(vec![
        ("number", num(4)),
        ("mode", Json::Str("INPUT_PULLUP".into())),
        ("inverted", Json::Bool(true)),
    ]);
    let pins = extract_pins(&obj(vec![("pin", pin)]), "dht", "sensor[0]");
    assert_eq!(pins.len(), 1);
    assert_eq!(pins[0].gpio_num, 4);
    assert_eq!(pins[0].pull_mode, Some(PullMode::Up));
    assert!(pins[0].inverted);
    assert_eq!(pins[0].mode, PinMode::InputOutput);
}

#[test]
fn out_of_range_numbers_ignored() {
    let pins = extract_pins(&obj(vec![("pin", num(300))]), "x", "x[0]");
    assert!(pins.is_empty());
    let pins = extract_pins(&Json::Str("not an object".into()), "x", "x[0]");
    assert!(pins.is_empty());
}

#[test]
fn usages_use_platform_id_and_type_index() {
    let mut config = base_config();
    push(&mut config, "sensor", Some("dht"), obj(vec![("pin", num(4))]));
    push(&mut config, "switch", None, obj(vec![("pin", num(5))]));
    push(&mut config, "sensor", Some("adc"), obj(vec![("pin", num(34))]));
    let usages = collect_pin_usages(&config);
    assert_eq!(usages.len(), 3);
    assert_eq!(usages[0].component_id, "dht");
    assert_eq!(usages[0].path, "sensor[0].pin");
    assert_eq!(usages[1].component_id, "switch");
    assert_eq!(usages[1].path, "switch[0].pin");
    assert_eq!(usages[2].path, "sensor[1].pin");
}

#[test]
fn same_gpio_conflict_message() {
    let c = PinConflict {
        gpio_num: 4,
        existing_owner: "dht".into(),
        existing_mode: PinMode::InputOutput,
        new_owner: "switch".into(),
        new_mode: PinMode::InputOutput,
    };
    let e = pin_conflict_error("switch[0].pin", &c);
    assert!(e.is_fatal());
    assert!(e.message.contains("GPIO 4"));
    assert_eq!(e.path, "switch[0].pin");
}

#[test]
fn strapping_pin_diagnostic_is_warning() {
    let e = pin_error_diagnostic(
        &PinError::StrappingPinWarning { gpio_num: 2, component: "dht".into() },
        ChipTarget::Esp32,
    );
    assert_eq!(e.severity, Severity::Warning);
    assert!(e.message.contains("strapping pin"));
    assert_eq!(e.path, "gpio_2");
}

#[test]
fn flash_and_range_diagnostics_are_errors() {
    let e = pin_error_diagnostic(
        &PinError::FlashReservedPin { gpio_num: 6, component: "dht".into() },
        ChipTarget::Esp32,
    );
    assert!(e.is_fatal());
    assert!(e.message.contains("reserved for flash"));
    let e = pin_error_diagnostic(&PinError::GpioOutOfRange { gpio_num: 50, max_gpio: 30 }, ChipTarget::Esp32C6);
    assert!(e.is_fatal());
    assert!(e.message.contains("does not exist"));
    assert!(e.message.contains("Esp32C6"));
}

#[test]
fn extract_pins_reads_input_field() {
    let pins = extract_pins(&obj(vec![("input", num(4))]), "c", "b");
    assert_eq!(pins.len(), 1);
    assert_eq!(pins[0].gpio_num, 4);
    assert_eq!(pins[0].component_id, "c");
    assert_eq!(pins[0].path, "b.input");
}
