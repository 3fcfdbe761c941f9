use rshome::error::{Severity, ValidationError, ValidationStage};
use rshome::json::{Json, JsonNumber};
use rshome::raw::{ComponentConfig, EsphomeBlock, RawConfig, StringMap};
use rshome::sigrok::{
    default_buffer_depth, default_max_sample_rate, default_sample_rate, SigrokConfig,
    SigrokTransport, SigrokTriggerMode,
};
use rshome::stages::s9_final_validation::{
    check_orchestration_budget, stage_9_final_validation, validate_orchestration_budget, OrchestrationStep,
    SolutionBundle,
};

fn obj(pairs: Vec<(&str, Json)>) -> Json {
    let mut j = Json::empty_object();
    for (k, v) in pairs {
        j = j.with_member(k, v);
    }
    j
}

fn st(x: &str) -> Json {
    Json::Str(x.to_string())
}

fn num(n: u64) -> Json {
    Json::Number(JsonNumber::PosInt(n))
}

fn base_config() -> RawConfig {
    RawConfig {
        esphome: EsphomeBlock {
            name: "test".into(),
            platform: "esp32".into(),
            board: "esp32dev".into(),
            friendly_name: None,
            framework: None,
            includes: vec![],
            libraries: vec![],
            project: None,
            area: None,
            min_version: None,
            profile: None,
            solution: None,
            solution_variant: None,
        },
        packages: vec![],
        substitutions: StringMap::new(),
        components: vec![],
    }
}

fn push(config: &mut RawConfig, typ: &str, val: Json) {
    config.components.push(ComponentConfig {
        component_type: typ.into(),
        platform: None,
        config: val,
    });
}

fn run(config: &RawConfig) -> Vec<ValidationError> {
    stage_9_final_validation(config, None, vec![], None)
}

fn sigrok(channels: &[u8], rate: Option<u32>, depth: Option<u32>) -> SigrokConfig {
    SigrokConfig {
        channels: channels.to_vec(),
        sample_rate_hz: rate.unwrap_or_else(default_sample_rate),
        max_sample_rate: default_max_sample_rate(),
        buffer_depth: depth.unwrap_or_else(default_buffer_depth),
        trigger_mode: SigrokTriggerMode::default(),
        transport: SigrokTransport::default(),
    }
}

fn sigrok_config(platform: &str, channels: &[u8]) -> RawConfig {
    let mut config = base_config();
    config.esphome.platform = platform.into();
    let chans = Json::Array(channels.iter().map(|c| num(*c as u64)).collect());
    push(&mut config, "sigrok", obj(vec![("channels", chans)]));
    config
}

fn camera_stream() -> SolutionBundle {
    SolutionBundle {
        required: vec!["wifi".into()],
        optional: vec!["camera".into(), "api".into()],
        watchdog_ms: None,
        steps: vec![],
    }
}

fn step(id: &str, budget: Option<u32>) -> OrchestrationStep {
    OrchestrationStep { id: id.into(), total_budget_ms: budget }
}

#[test]
fn api_without_wifi_produces_error() {
    let mut config = base_config();
    push(&mut config, "api", Json::empty_object());
    let errors = run(&config);
    assert!(errors.iter().any(|e| e.path == "api" && e.is_fatal()));
}

#[test]
fn api_with_wifi_passes() {
    let mut config = base_config();
    push(&mut config, "wifi", obj(vec![("ssid", st("Net"))]));
    push(&mut config, "api", Json::empty_object());
    let errors = run(&config);
    assert!(errors.iter().all(|e| e.severity != Severity::Error));
}

#[test]
fn mqtt_and_api_together_produces_warning() {
    let mut config = base_config();
    push(&mut config, "wifi", Json::empty_object());
    push(&mut config, "api", Json::empty_object());
    push(&mut config, "mqtt", obj(vec![("broker", st("192.168.1.1"))]));
    let errors = run(&config);
    assert!(errors.iter().any(|e| e.severity == Severity::Warning && e.path == "mqtt"));
}

#[test]
fn ota_without_wifi_produces_error() {
    let mut config = base_config();
    push(&mut config, "ota", Json::empty_object());
    let errors = run(&config);
    assert!(errors.iter().any(|e| e.path == "ota" && e.is_fatal()));
}

#[test]
fn ota_with_wifi_passes() {
    let mut config = base_config();
    push(&mut config, "wifi", Json::empty_object());
    push(&mut config, "ota", Json::empty_object());
    let errors = run(&config);
    assert!(errors.iter().all(|e| !e.is_fatal()));
}

#[test]
fn deep_sleep_with_api_produces_warning() {
    let mut config = base_config();
    push(&mut config, "wifi", Json::empty_object());
    push(&mut config, "api", Json::empty_object());
    push(&mut config, "deep_sleep", obj(vec![("run_duration", st("10s"))]));
    let errors = run(&config);
    assert!(errors.iter().any(|e| e.severity == Severity::Warning && e.path == "deep_sleep"));
}

#[test]
fn mqtt_without_wifi_produces_error() {
    let mut config = base_config();
    push(&mut config, "mqtt", obj(vec![("broker", st("192.168.1.1"))]));
    let errors = run(&config);
    assert!(errors.iter().any(|e| e.path == "mqtt" && e.is_fatal()));
}

#[test]
fn empty_config_no_errors() {
    let config = base_config();
    let errors = run(&config);
    assert!(errors.is_empty());
}

#[test]
fn climate_diagnostics_reported_only_with_climate_component() {
    let climate_err = ValidationError::error(ValidationStage::FinalValidation, "climate[0]", "min_temperature");
    let config = base_config();
    let errors = stage_9_final_validation(&config, None, vec![climate_err.clone()], None);
    assert!(errors.is_empty());
    let mut config = base_config();
    push(&mut config, "climate", obj(vec![("name", st("thermo"))]));
    let errors = stage_9_final_validation(&config, None, vec![climate_err], None);
    assert!(errors.iter().any(|e| e.message.contains("min_temperature") && e.is_fatal()));
}

#[test]
fn no_solution_field_produces_no_errors() {
    let mut config = base_config();
    assert!(config.esphome.solution.is_none());
    push(&mut config, "wifi", obj(vec![("ssid", st("test"))]));
    let errors = run(&config);
    assert!(errors.is_empty());
}

#[test]
fn unknown_solution_produces_error() {
    let mut config = base_config();
    config.esphome.solution = Some("nonexistent_solution".into());
    push(&mut config, "wifi", obj(vec![("ssid", st("test"))]));
    let errors = run(&config);
    assert!(errors.iter().any(|e| e.message.contains("unknown solution") && e.is_fatal()));
}

#[test]
fn valid_solution_with_all_required_components_passes() {
    let mut config = base_config();
    config.esphome.solution = Some("camera_stream".into());
    push(&mut config, "wifi", obj(vec![("ssid", st("test"))]));
    let bundle = camera_stream();
    let errors = stage_9_final_validation(&config, Some(&bundle), vec![], None);
    assert!(!errors.iter().any(|e| e.path == "esphome.solution" && e.is_fatal()));
}

#[test]
fn solution_missing_required_component_produces_error() {
    let mut config = base_config();
    config.esphome.solution = Some("camera_stream".into());
    let bundle = camera_stream();
    let errors = stage_9_final_validation(&config, Some(&bundle), vec![], None);
    let solution_errors: Vec<_> =
        errors.iter().filter(|e| e.path == "esphome.solution" && e.is_fatal()).collect();
    assert!(solution_errors.len() == 1, "expected one error for missing wifi");
    assert!(solution_errors.iter().any(|e| e.message.contains("wifi")));
}

#[test]
fn solution_extra_component_produces_warning() {
    let mut config = base_config();
    config.esphome.solution = Some("camera_stream".into());
    push(&mut config, "wifi", obj(vec![("ssid", st("test"))]));
    push(&mut config, "i2c", Json::empty_object());
    let bundle = camera_stream();
    let errors = stage_9_final_validation(&config, Some(&bundle), vec![], None);
    assert!(errors.iter().any(|e| e.message.contains("i2c") && !e.is_fatal()));
}

#[test]
fn sigrok_requires_esp32s3() {
    let config = sigrok_config("esp32", &[4, 5, 6, 7, 15, 16, 17, 18]);
    let parsed = sigrok(&[4, 5, 6, 7, 15, 16, 17, 18], None, None);
    let errors = stage_9_final_validation(&config, None, vec![], Some(Ok(parsed)));
    assert!(errors.iter().any(|e| e.is_fatal() && e.message.contains("ESP32-S3")));
}

#[test]
fn sigrok_8_channels_accepted() {
    let config = sigrok_config("esp32s3", &[4, 5, 6, 7, 15, 16, 17, 18]);
    let parsed = sigrok(&[4, 5, 6, 7, 15, 16, 17, 18], None, None);
    let errors = stage_9_final_validation(&config, None, vec![], Some(Ok(parsed)));
    assert!(!errors.iter().any(|e| e.is_fatal() && e.message.contains("sigrok")));
}

#[test]
fn sigrok_invalid_channel_count_rejected() {
    let config = sigrok_config("esp32s3", &[4, 5, 6]);
    let parsed = sigrok(&[4, 5, 6], None, None);
    let errors = stage_9_final_validation(&config, None, vec![], Some(Ok(parsed)));
    assert!(errors.iter().any(|e| e.is_fatal() && e.message.contains("8 or 16")));
}

#[test]
fn sigrok_duplicate_pins_rejected() {
    let config = sigrok_config("esp32s3", &[4, 4, 6, 7, 15, 16, 17, 18]);
    let parsed = sigrok(&[4, 4, 6, 7, 15, 16, 17, 18], None, None);
    let errors = stage_9_final_validation(&config, None, vec![], Some(Ok(parsed)));
    assert!(errors.iter().any(|e| e.is_fatal() && e.message.contains("duplicate")));
}

#[test]
fn sigrok_strapping_pin_warning() {
    let config = sigrok_config("esp32s3", &[0, 5, 6, 7, 15, 16, 17, 18]);
    let parsed = sigrok(&[0, 5, 6, 7, 15, 16, 17, 18], None, None);
    let errors = stage_9_final_validation(&config, None, vec![], Some(Ok(parsed)));
    assert!(errors.iter().any(|e| !e.is_fatal() && e.message.contains("strapping")));
}

#[test]
fn sigrok_rate_ceiling() {
    let config = sigrok_config("esp32s3", &[4, 5, 6, 7, 15, 16, 17, 18]);
    let parsed = sigrok(&[4, 5, 6, 7, 15, 16, 17, 18], Some(50_000_000), None);
    let errors = stage_9_final_validation(&config, None, vec![], Some(Ok(parsed)));
    assert!(errors.iter().any(|e| e.is_fatal() && e.message.contains("20 MHz")));
}

#[test]
fn sigrok_depth_ceiling() {
    let config = sigrok_config("esp32s3", &[4, 5, 6, 7, 15, 16, 17, 18]);
    let parsed = sigrok(&[4, 5, 6, 7, 15, 16, 17, 18], None, Some(300_000));
    let errors = stage_9_final_validation(&config, None, vec![], Some(Ok(parsed)));
    assert!(errors.iter().any(|e| e.is_fatal() && e.message.contains("200000")));
}

#[test]
fn sigrok_parse_failure_reported() {
    let config = sigrok_config("esp32s3", &[4, 5, 6, 7, 15, 16, 17, 18]);
    let errors = stage_9_final_validation(&config, None, vec![], Some(Err("bad channels".into())));
    assert!(errors.iter().any(|e| e.is_fatal() && e.message.contains("bad channels")));
}

#[test]
fn orchestration_budget_passes_when_under_half_watchdog() {
    let mut errors: Vec<ValidationError> = Vec::new();
    check_orchestration_budget("sol_x", 100, &vec![step("imu_init", Some(40))], &mut errors);
    assert!(errors.iter().all(|e| !e.is_fatal()), "expected no fatal errors, got: {errors:?}");
}

#[test]
fn orchestration_budget_passes_exactly_at_half_watchdog() {
    let mut errors: Vec<ValidationError> = Vec::new();
    check_orchestration_budget("sol_x", 100, &vec![step("imu_init", Some(50))], &mut errors);
    assert!(errors.iter().all(|e| !e.is_fatal()));
}

#[test]
fn orchestration_budget_rejects_step_over_half_watchdog() {
    let mut errors: Vec<ValidationError> = Vec::new();
    check_orchestration_budget("sol_x", 100, &vec![step("imu_init", Some(60))], &mut errors);
    let fatals: Vec<&ValidationError> = errors.iter().filter(|e| e.is_fatal()).collect();
    assert_eq!(fatals.len(), 1, "expected exactly 1 fatal error");
    assert!(fatals[0].message.contains("OrchestrationBudgetExceeded"));
    assert!(fatals[0].message.contains("imu_init"));
    assert!(fatals[0].message.contains("60"));
}

#[test]
fn orchestration_budget_skips_steps_without_retry_policy() {
    let mut errors: Vec<ValidationError> = Vec::new();
    let steps = vec![step("step_a", None), step("step_b", None)];
    check_orchestration_budget("sol_x", 100, &steps, &mut errors);
    assert!(errors.is_empty(), "expected zero errors, got: {errors:?}");
}

#[test]
fn orchestration_budget_flags_multiple_violators_in_one_solution() {
    let mut errors: Vec<ValidationError> = Vec::new();
    let steps = vec![step("step_a", Some(40)), step("step_b", Some(200)), step("step_c", Some(200))];
    check_orchestration_budget("sol_x", 100, &steps, &mut errors);
    let fatals: Vec<&ValidationError> = errors.iter().filter(|e| e.is_fatal()).collect();
    assert_eq!(fatals.len(), 2, "expected 2 fatal errors (step_b + step_c)");
    assert!(fatals.iter().any(|e| e.message.contains("step_b")));
    assert!(fatals.iter().any(|e| e.message.contains("step_c")));
    assert!(!fatals.iter().any(|e| e.message.contains("'step_a'")));
}

#[test]
fn orchestration_budget_handles_500ms_watchdog_realistic_profile() {
    let mut errors: Vec<ValidationError> = Vec::new();
    let steps: Vec<OrchestrationStep> = (0..5).map(|i| step(&format!("init_step_{i}"), Some(200))).collect();
    check_orchestration_budget("wheeled_4wd_diff", 500, &steps, &mut errors);
    assert!(errors.iter().all(|e| !e.is_fatal()));
}

#[test]
fn orchestration_budget_skips_when_solution_has_no_failsafe_watchdog() {
    let gcs = SolutionBundle {
        required: vec![],
        optional: vec![],
        watchdog_ms: None,
        steps: vec![OrchestrationStep { id: "arm".into(), total_budget_ms: Some(1_000_000) }],
    };
    let mut errors: Vec<ValidationError> = Vec::new();
    validate_orchestration_budget("mavlink_groundstation_solution", Some(&gcs), &mut errors);
    assert!(errors.is_empty(), "GCS solution without watchdog should produce zero errors, got: {errors:?}");
}

#[test]
fn orchestration_budget_skips_unknown_solution_id() {
    let mut errors: Vec<ValidationError> = Vec::new();
    validate_orchestration_budget("no_such_solution_xyz", None, &mut errors);
    assert!(errors.is_empty());
}

#[test]
fn orchestration_budget_checks_steps_against_half_watchdog() {
    let b = SolutionBundle {
        required: vec![],
        optional: vec![],
        watchdog_ms: Some(1_000),
        steps: vec![
            OrchestrationStep { id: "ok".into(), total_budget_ms: Some(500) },
            OrchestrationStep { id: "slow".into(), total_budget_ms: Some(501) },
        ],
    };
    let mut errors: Vec<ValidationError> = Vec::new();
    validate_orchestration_budget("s", Some(&b), &mut errors);
    assert_eq!(errors.len(), 1);
    assert_eq!(errors[0].path, "esphome.solution.fixed_orchestration[1].retry_policy.total_budget_ms");
}
