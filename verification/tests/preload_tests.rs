use rshome::raw::{EsphomeBlock, FrameworkConfig, RawConfig, StringMap};
use rshome::stages::s5_preload::stage_5_preload_esphome_block;
use rshome::validated::{ChipTarget, FrameworkType};

fn base_config(platform: &str, board: &str) -> RawConfig {
    RawConfig {
        esphome: EsphomeBlock {
            name: "mydevice".into(),
            platform: platform.into(),
            board: board.into(),
            friendly_name: None,
            framework: None,
            includes: vec![],
            libraries: vec![],
            project: None,
            area: None,
            min_version: None,
            profile: None,
            solution: None,
            solution_variant: None,
        },
        packages: vec![],
        substitutions: StringMap::new(),
        components: vec![],
    }
}

fn framework(t: &str, v: Option<&str>) -> FrameworkConfig {
    FrameworkConfig {
        framework_type: t.into(),
        version: v.map(String::from),
        components: vec![],
        sdkconfig_options: StringMap::new(),
    }
}

#[test]
fn esp32_platform_resolved() {
    let config = base_config("esp32", "esp32dev");
    let ctx = stage_5_preload_esphome_block(&config).unwrap();
    assert_eq!(ctx.chip_target, ChipTarget::Esp32);
    assert_eq!(ctx.board, "esp32dev");
}

#[test]
fn esp32s3_platform_resolved() {
    let config = base_config("esp32s3", "esp32-s3-devkitc-1");
    let ctx = stage_5_preload_esphome_block(&config).unwrap();
    assert_eq!(ctx.chip_target, ChipTarget::Esp32S3);
}

#[test]
fn esp32s3_with_dash_normalized() {
    let config = base_config("esp32-s3", "esp32-s3-devkitc-1");
    let ctx = stage_5_preload_esphome_block(&config).unwrap();
    assert_eq!(ctx.chip_target, ChipTarget::Esp32S3);
}

#[test]
fn esp32c6_platform_resolved() {
    let config = base_config("esp32c6", "esp32-c6-devkitc-1");
    let ctx = stage_5_preload_esphome_block(&config).unwrap();
    assert_eq!(ctx.chip_target, ChipTarget::Esp32C6);
}

#[test]
fn unsupported_platform_produces_error() {
    let config = base_config("esp8266", "nodemcu");
    let result = stage_5_preload_esphome_block(&config);
    assert!(result.is_err());
    let errors = result.unwrap_err();
    assert!(errors.iter().any(|e| e.path == "esphome.platform" && e.is_fatal()));
}

#[test]
fn empty_name_produces_error() {
    let mut config = base_config("esp32", "esp32dev");
    config.esphome.name = "   ".into();
    let result = stage_5_preload_esphome_block(&config);
    assert!(result.is_err());
    let errors = result.unwrap_err();
    assert!(errors.iter().any(|e| e.path == "esphome.name"));
}

#[test]
fn empty_board_produces_error() {
    let config = base_config("esp32", "");
    let result = stage_5_preload_esphome_block(&config);
    assert!(result.is_err());
}

#[test]
fn default_framework_is_esp_idf() {
    let config = base_config("esp32", "esp32dev");
    let ctx = stage_5_preload_esphome_block(&config).unwrap();
    assert_eq!(ctx.framework_type, FrameworkType::EspIdf);
    assert!(ctx.framework_version.is_none());
}

#[test]
fn arduino_framework_resolved() {
    let mut config = base_config("esp32", "esp32dev");
    config.esphome.framework = Some(framework("arduino", Some("2.0.0")));
    let ctx = stage_5_preload_esphome_block(&config).unwrap();
    assert_eq!(ctx.framework_type, FrameworkType::Arduino);
    assert_eq!(ctx.framework_version.as_deref(), Some("2.0.0"));
}

#[test]
fn esp_idf_framework_with_version() {
    let mut config = base_config("esp32s3", "esp32-s3-devkitc-1");
    config.esphome.framework = Some(framework("esp-idf", Some("5.3.1")));
    let ctx = stage_5_preload_esphome_block(&config).unwrap();
    assert_eq!(ctx.framework_type, FrameworkType::EspIdf);
    assert_eq!(ctx.framework_version.as_deref(), Some("5.3.1"));
}

#[test]
fn unknown_framework_reports_all_errors() {
    let mut config = base_config("esp8266", "");
    config.esphome.framework = Some(framework("zephyr", None));
    let errors = stage_5_preload_esphome_block(&config).unwrap_err();
    assert_eq!(errors.len(), 3);
    assert!(errors.iter().any(|e| e.path == "esphome.framework.type"));
}
