use rshome::error::{has_errors, partition_errors, Severity, ValidationError, ValidationStage};

#[test]
fn error_constructor_sets_severity() {
    let e = ValidationError::error(ValidationStage::Preload, "esphome.platform", "bad chip");
    assert_eq!(e.severity, Severity::Error);
    assert!(e.is_fatal());
    assert_eq!(e.stage, ValidationStage::Preload);
}

#[test]
fn warning_constructor_not_fatal() {
    let e = ValidationError::warning(ValidationStage::Preload, "x", "minor issue");
    assert_eq!(e.severity, Severity::Warning);
    assert!(!e.is_fatal());
}

#[test]
fn info_constructor_not_fatal() {
    let e = ValidationError::info(ValidationStage::Substitutions, "x", "note");
    assert_eq!(e.severity, Severity::Info);
    assert!(!e.is_fatal());
}

#[test]
fn with_suggestion_attaches_hint() {
    let e = ValidationError::error(ValidationStage::SchemaValidation, "x", "bad")
        .with_suggestion("Did you mean 'temperature'?");
    assert_eq!(e.suggestion.as_deref(), Some("Did you mean 'temperature'?"));
}

#[test]
fn display_includes_path_and_message() {
    let e = ValidationError::error(ValidationStage::PinConflicts, "sensor[0].pin", "conflict");
    let s = e.to_display_string();
    assert!(s.contains("sensor[0].pin"));
    assert!(s.contains("conflict"));
}

#[test]
fn display_includes_suggestion_when_present() {
    let e = ValidationError::warning(ValidationStage::ComponentLoading, "x", "warn")
        .with_suggestion("try this");
    let s = e.to_display_string();
    assert!(s.contains("try this"));
}

#[test]
fn has_errors_returns_true_when_error_present() {
    let errors = vec![
        ValidationError::warning(ValidationStage::Preload, "x", "w"),
        ValidationError::error(ValidationStage::Preload, "y", "e"),
    ];
    assert!(has_errors(&errors));
}

#[test]
fn has_errors_returns_false_when_only_warnings() {
    let errors = vec![
        ValidationError::warning(ValidationStage::Preload, "x", "w"),
        ValidationError::info(ValidationStage::Preload, "y", "i"),
    ];
    assert!(!has_errors(&errors));
}

#[test]
fn severity_ordering() {
    assert!(Severity::Error > Severity::Warning);
    assert!(Severity::Warning > Severity::Info);
}

#[test]
fn partition_errors_separates_fatal() {
    let errors = vec![
        ValidationError::error(ValidationStage::Preload, "a", "e"),
        ValidationError::warning(ValidationStage::Preload, "b", "w"),
        ValidationError::info(ValidationStage::Preload, "c", "i"),
    ];
    let (fatal, rest) = partition_errors(errors);
    assert_eq!(fatal.len(), 1);
    assert_eq!(rest.len(), 2);
    assert_eq!(fatal[0].path, "a");
    assert_eq!(rest[0].path, "b");
    assert_eq!(rest[1].path, "c");
}

#[test]
fn display_string_exact_rendering() {
    let e = ValidationError::error(ValidationStage::Preload, "esphome.name", "missing")
        .with_suggestion("add a name");
    assert_eq!(
        e.to_display_string(),
        "[Error@preload] esphome.name: missing (hint: add a name)"
    );
}
