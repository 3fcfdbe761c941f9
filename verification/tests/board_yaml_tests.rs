use rshome::board_yaml::{
    assembly_fits_exec, depth_at_most, json_compact, render_yaml_value, yaml_scalar, BoardDevice, BoardPeripheral, BoardYamlGenerator,
    HardwareAssembly,
};
use rshome::json::{FloatNumber, Json, JsonNumber};

fn obj(pairs: Vec<(&str, Json)>) -> Json {
    let mut j = Json::empty_object();
    for (k, v) in pairs {
        j = j.with_member(k, v);
    }
    j
}

fn num(n: u64) -> Json {
    Json::Number(JsonNumber::PosInt(n))
}

fn st(x: &str) -> Json {
    Json::Str(x.to_string())
}

fn entries(pairs: Vec<(&str, Json)>) -> Vec<(String, Json)> {
    pairs.into_iter().map(|(k, v)| (k.to_string(), v)).collect()
}

fn names(v: &[&str]) -> Vec<String> {
    v.iter().map(|s| s.to_string()).collect()
}

fn gpio_relay_assembly() -> HardwareAssembly {
    HardwareAssembly {
        id: "esp32s3_gpio_relay_assembly".to_string(),
        label: "ESP32-S3 GPIO Relay Assembly".to_string(),
        idf_target: "esp32s3".to_string(),
        description: "Single-channel GPIO output driving a relay module.".to_string(),
        peripherals: vec![BoardPeripheral {
            name: "gpio_relay_output".to_string(),
            periph_type: "gpio".to_string(),
            role: "io".to_string(),
            config: entries(vec![
                ("pin", num(6)),
                ("mode", st("GPIO_MODE_OUTPUT")),
                ("default_level", num(0)),
            ]),
        }],
        devices: vec![BoardDevice {
            name: "gpio_ctrl_0".to_string(),
            device_type: "gpio_ctrl".to_string(),
            peripherals: names(&["gpio_relay_output"]),
            config: entries(vec![("enabled", Json::Bool(true)), ("active_level", num(1))]),
            dependencies: vec![],
        }],
    }
}

fn i2c_sensor_assembly() -> HardwareAssembly {
    HardwareAssembly {
        id: "esp32s3_i2c_sensor_assembly".to_string(),
        label: "ESP32-S3 I2C Sensor Assembly".to_string(),
        idf_target: "esp32s3".to_string(),
        description: "BME280 environmental sensor on the I2C bus.".to_string(),
        peripherals: vec![BoardPeripheral {
            name: "i2c_master_0".to_string(),
            periph_type: "i2c".to_string(),
            role: "master".to_string(),
            config: entries(vec![("sda", num(8)), ("scl", num(9)), ("freq_hz", num(400000))]),
        }],
        devices: vec![BoardDevice {
            name: "bme280_0".to_string(),
            device_type: "i2c_sensor".to_string(),
            peripherals: names(&["i2c_master_0"]),
            config: entries(vec![("address", st("0x76")), ("sensor_type", st("bme280"))]),
            dependencies: vec![],
        }],
    }
}

#[test]
fn board_info_gpio_relay() {
    let assembly = gpio_relay_assembly();
    let gen = BoardYamlGenerator::new(&assembly);
    let yaml = gen.generate_board_info();
    assert!(yaml.contains("board_name: \"ESP32-S3 GPIO Relay Assembly\""));
    assert!(yaml.contains("chip: esp32s3"));
    assert!(yaml.contains("version: \"1.0\""));
    assert!(yaml.contains("description: \"Single-channel GPIO output"));
}

#[test]
fn board_info_i2c_sensor() {
    let assembly = i2c_sensor_assembly();
    let gen = BoardYamlGenerator::new(&assembly);
    let yaml = gen.generate_board_info();
    assert!(yaml.contains("chip: esp32s3"));
    assert!(yaml.contains("board_name: \"ESP32-S3 I2C Sensor Assembly\""));
}

#[test]
fn peripherals_gpio_relay() {
    let assembly = gpio_relay_assembly();
    let gen = BoardYamlGenerator::new(&assembly);
    let yaml = gen.generate_peripherals();
    assert!(yaml.contains("peripherals:"));
    assert!(yaml.contains("  - name: gpio_relay_output"));
    assert!(yaml.contains("    type: gpio"));
    assert!(yaml.contains("    role: io"));
    assert!(yaml.contains("      pin: 6"));
    assert!(yaml.contains("      mode: GPIO_MODE_OUTPUT"));
    assert!(yaml.contains("      default_level: 0"));
}

#[test]
fn peripherals_i2c_sensor() {
    let assembly = i2c_sensor_assembly();
    let gen = BoardYamlGenerator::new(&assembly);
    let yaml = gen.generate_peripherals();
    assert!(yaml.contains("  - name: i2c_master_0"));
    assert!(yaml.contains("    type: i2c"));
    assert!(yaml.contains("    role: master"));
    assert!(yaml.contains("      sda: 8"));
    assert!(yaml.contains("      scl: 9"));
    assert!(yaml.contains("      freq_hz: 400000"));
}

#[test]
fn devices_gpio_relay() {
    let assembly = gpio_relay_assembly();
    let gen = BoardYamlGenerator::new(&assembly);
    let yaml = gen.generate_devices();
    assert!(yaml.contains("devices:"));
    assert!(yaml.contains("  - name: gpio_ctrl_0"));
    assert!(yaml.contains("    type: gpio_ctrl"));
    assert!(yaml.contains("      - gpio_relay_output"));
    assert!(yaml.contains("      enabled: true"));
    assert!(yaml.contains("      active_level: 1"));
}

#[test]
fn devices_i2c_sensor() {
    let assembly = i2c_sensor_assembly();
    let gen = BoardYamlGenerator::new(&assembly);
    let yaml = gen.generate_devices();
    assert!(yaml.contains("  - name: bme280_0"));
    assert!(yaml.contains("    type: i2c_sensor"));
    assert!(yaml.contains("      - i2c_master_0"));
    assert!(yaml.contains("      address: 0x76"));
    assert!(yaml.contains("      sensor_type: bme280"));
}

#[test]
fn board_files_exact_text() {
    let assembly = gpio_relay_assembly();
    let gen = BoardYamlGenerator::new(&assembly);
    assert_eq!(
        gen.generate_board_info(),
        "# Auto-generated by rshome-codegen. Do not edit.\n\
         board_name: \"ESP32-S3 GPIO Relay Assembly\"\n\
         chip: esp32s3\n\
         version: \"1.0\"\n\
         description: \"Single-channel GPIO output driving a relay module.\""
    );
    assert_eq!(
        gen.generate_peripherals(),
        "# Auto-generated by rshome-codegen. Do not edit.\nperipherals:\
         \n  - name: gpio_relay_output\n    type: gpio\n    role: io\n    config:\
         \n      pin: 6\n      mode: GPIO_MODE_OUTPUT\n      default_level: 0"
    );
    assert_eq!(
        gen.generate_devices(),
        "# Auto-generated by rshome-codegen. Do not edit.\ndevices:\
         \n  - name: gpio_ctrl_0\n    type: gpio_ctrl\n    peripherals:\n      - gpio_relay_output\
         \n    config:\n      enabled: true\n      active_level: 1\n    dependencies:\n      []"
    );
}

#[test]
fn devices_unknown_type_dependencies_and_nested_config() {
    let assembly = HardwareAssembly {
        id: "a".to_string(),
        label: "A".to_string(),
        idf_target: "esp32".to_string(),
        description: "d".to_string(),
        peripherals: vec![BoardPeripheral {
            name: "p".to_string(),
            periph_type: "gpio".to_string(),
            role: "io".to_string(),
            config: vec![],
        }],
        devices: vec![BoardDevice {
            name: "motor".to_string(),
            device_type: "motor_driver".to_string(),
            peripherals: vec![],
            config: entries(vec![("timer", obj(vec![("group_id", num(0))]))]),
            dependencies: names(&["pwm_0", "gpio_ctrl_0"]),
        }],
    };
    let gen = BoardYamlGenerator::new(&assembly);
    assert_eq!(
        gen.generate_peripherals(),
        "# Auto-generated by rshome-codegen. Do not edit.\nperipherals:\
         \n  - name: p\n    type: gpio\n    role: io"
    );
    assert_eq!(
        gen.generate_devices(),
        "# Auto-generated by rshome-codegen. Do not edit.\ndevices:\
         \n  - name: motor\n    type: custom\n    config:\n      timer:\n        group_id: 0\
         \n    dependencies:\n      - pwm_0\n      - gpio_ctrl_0"
    );
}

#[test]
fn yaml_scalar_types() {
    assert_eq!(yaml_scalar(&Json::Bool(true)), "true");
    assert_eq!(yaml_scalar(&Json::Bool(false)), "false");
    assert_eq!(yaml_scalar(&num(42)), "42");
    let pi = Json::Number(JsonNumber::Float(FloatNumber {
        floor: 3,
        integral: false,
        text: "3.14".to_string(),
        display: "3.14".to_string(),
    }));
    assert_eq!(yaml_scalar(&pi), "3.14");
    assert_eq!(yaml_scalar(&st("hello")), "hello");
    assert_eq!(yaml_scalar(&st("has space")), "\"has space\"");
    assert_eq!(yaml_scalar(&Json::Null), "null");
}

#[test]
fn yaml_scalar_quotes_colon_and_hash_and_compacts_containers() {
    assert_eq!(yaml_scalar(&st("a:b")), "\"a:b\"");
    assert_eq!(yaml_scalar(&st("x#1")), "\"x#1\"");
    assert_eq!(
        yaml_scalar(&Json::Array(vec![num(1), st("q\"t")])),
        "[1,\"q\\\"t\"]"
    );
}

#[test]
fn json_compact_escapes_and_orders_entries() {
    let v = obj(vec![("k", st("a\nb\\")), ("n", Json::Null), ("e", Json::Array(vec![]))]);
    let text = json_compact(&v);
    assert!(text.starts_with('{') && text.ends_with('}'));
    assert!(text.contains("\"k\":\"a\\nb\\\\\""));
    assert!(text.contains("\"n\":null"));
    assert!(text.contains("\"e\":[]"));
    assert_eq!(json_compact(&st("\u{1}")), "\"\\u0001\"");
}

#[test]
fn render_yaml_value_scalar_inline() {
    assert_eq!(render_yaml_value(&num(42), 4), "42");
    assert_eq!(render_yaml_value(&st("x"), 4), "x");
    assert_eq!(render_yaml_value(&Json::Null, 4), "null");
}

#[test]
fn render_yaml_value_empty_containers() {
    assert_eq!(
        render_yaml_value(&Json::empty_object(), 4),
        " {}",
        "empty map renders as flow-style on the same line"
    );
    assert_eq!(
        render_yaml_value(&Json::Array(vec![]), 4),
        " []",
        "empty array renders as flow-style on the same line"
    );
}

#[test]
fn render_yaml_value_nested_map_indents_properly() {
    let v = obj(vec![("a", num(1)), ("b", obj(vec![("x", num(2)), ("y", st("hello"))]))]);
    let out = render_yaml_value(&v, 4);
    assert!(out.contains("\n    a: 1"), "got: {out:?}");
    assert!(out.contains("\n    b:"), "got: {out:?}");
    assert!(out.contains("\n      x: 2"), "got: {out:?}");
    assert!(out.contains("\n      y: hello"), "got: {out:?}");
}

#[test]
fn render_yaml_value_array_of_maps_matches_list_style() {
    let v = Json::Array(vec![
        obj(vec![("comparator", num(0)), ("intr_priority", num(1))]),
        obj(vec![("comparator", num(1))]),
    ]);
    let out = render_yaml_value(&v, 4);
    assert!(out.contains("\n    - comparator: 0"), "got: {out:?}");
    assert!(out.contains("\n      intr_priority: 1"), "got: {out:?}");
    assert!(out.contains("\n    - comparator: 1"), "got: {out:?}");
}

#[test]
fn render_yaml_value_map_with_array_child() {
    let v = obj(vec![
        ("timer_config", obj(vec![("group_id", num(0))])),
        ("comparator_configs", Json::Array(vec![obj(vec![("comparator", num(0))])])),
    ]);
    let out = render_yaml_value(&v, 4);
    assert!(out.contains("\n    timer_config:"), "got: {out:?}");
    assert!(out.contains("\n      group_id: 0"), "got: {out:?}");
    assert!(out.contains("\n    comparator_configs:"), "got: {out:?}");
    assert!(out.contains("\n      - comparator: 0"), "got: {out:?}");
}

#[test]
fn render_yaml_value_nested_arrays_exact() {
    let v = Json::Array(vec![
        Json::Array(vec![num(1), num(2)]),
        Json::Array(vec![]),
        obj(vec![]),
        st("a b"),
    ]);
    assert_eq!(
        render_yaml_value(&v, 2),
        "\n  -     - 1\n    - 2\n  -  []\n  -  {}\n  - \"a b\""
    );
}

#[test]
fn depth_limits() {
    let nested = obj(vec![("a", Json::Array(vec![obj(vec![("b", num(1))])]))]);
    assert!(depth_at_most(&nested, 3));
    assert!(!depth_at_most(&nested, 2));
    assert!(depth_at_most(&num(1), 0));
    assert!(!depth_at_most(&Json::Array(vec![]), 0));
    assert!(assembly_fits_exec(&gpio_relay_assembly()));
}
