use base64::Engine;
use rshome::device_link::{
    backoff_delay_secs, command_capabilities_for_domain, DeviceSecurityConfig,
    ImportedCommandCapabilities, PskError,
};

fn make_config(psk: Option<&str>) -> DeviceSecurityConfig {
    DeviceSecurityConfig {
        noise_psk: psk.map(|s| s.to_string()),
    }
}

#[test]
fn no_noise_psk_means_cleartext() {
    let cfg = make_config(None);
    assert!(!cfg.uses_noise());
    assert!(cfg.decode_psk().is_none());
}

#[test]
fn noise_psk_some_means_noise() {
    let psk_b64 = base64::engine::general_purpose::STANDARD.encode([0u8; 32]);
    let cfg = make_config(Some(&psk_b64));
    assert!(cfg.uses_noise());
}

#[test]
fn decode_psk_correct_length_succeeds() {
    let key = [0xABu8; 32];
    let b64 = base64::engine::general_purpose::STANDARD.encode(key);
    let cfg = make_config(Some(&b64));
    let result = cfg.decode_psk().unwrap().unwrap();
    assert_eq!(result, key);
}

#[test]
fn decode_psk_wrong_length_returns_error() {
    let b64 = base64::engine::general_purpose::STANDARD.encode([0u8; 16]);
    let cfg = make_config(Some(&b64));
    let result = cfg.decode_psk().unwrap();
    assert!(matches!(result, Err(PskError::WrongLength(16))));
}

#[test]
fn decode_psk_invalid_base64_returns_error() {
    let cfg = make_config(Some("not!valid!base64!!!"));
    let result = cfg.decode_psk().unwrap();
    assert!(matches!(result, Err(PskError::Base64(_))));
}

#[test]
fn read_only_domains() {
    assert_eq!(command_capabilities_for_domain("sensor"), ImportedCommandCapabilities::ReadOnly);
    assert_eq!(command_capabilities_for_domain("text_sensor"), ImportedCommandCapabilities::ReadOnly);
    assert_eq!(command_capabilities_for_domain("switch"), ImportedCommandCapabilities::Controllable);
}

#[test]
fn backoff_grows_then_caps() {
    assert_eq!(backoff_delay_secs(0), 1);
    assert_eq!(backoff_delay_secs(1), 2);
    assert!(backoff_delay_secs(10) >= backoff_delay_secs(3));
    assert_eq!(backoff_delay_secs(100), backoff_delay_secs(1000));
}

#[test]
fn session_error_messages() {
    assert_eq!(
        rshome::device_link::SessionError::FrameTooLarge(70000).message(),
        "frame payload too large: 70000 bytes"
    );
    assert_eq!(
        rshome::device_link::SessionError::NoisePskRequired.message(),
        "server requires Noise encryption but no PSK is configured"
    );
}
