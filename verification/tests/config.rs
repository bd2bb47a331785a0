use base64::DecodeError;
use common::config::{
    from_base64, from_file, from_uncertainty_config, get_config_raw, load_config, payload_from,
    ConfigError, ConfigGetterOutput, ConfigSource,
};
use common::device_info::get_system_name;

const CONFIG_PATH: &str = "fixtures/sample_config.txt";

#[test]
fn test_from_uncertainty_config() {
    let config = from_uncertainty_config(Some(CONFIG_PATH));
    assert_eq!(config, ConfigSource::File(CONFIG_PATH.to_string()));
}

#[test]
fn without_a_path_the_getter_is_the_source() {
    assert_eq!(from_uncertainty_config(None), ConfigSource::Getter);
}

#[test]
fn getter_output_is_trimmed() {
    assert_eq!(
        get_config_raw(true, "exit status: 0", b"  {\"a\": 1}\n\n"),
        Ok("{\"a\": 1}".to_string())
    );
    assert_eq!(get_config_raw(true, "exit status: 0", b" \n\t"), Ok(String::new()));
    assert_eq!(get_config_raw(true, "exit status: 0", b""), Ok(String::new()));
}

#[test]
fn getter_output_that_is_not_unicode_is_patched() {
    assert_eq!(
        get_config_raw(true, "exit status: 0", b" f\xffo\xe2\x82 "),
        Ok("f\u{fffd}o\u{fffd}".to_string())
    );
    assert_eq!(
        get_config_raw(true, "exit status: 0", "\u{2003}gr\u{fc}n\u{a0}".as_bytes()),
        Ok("gr\u{fc}n".to_string())
    );
}

#[test]
fn failed_getter_reports_its_status() {
    let err = get_config_raw(false, "exit status: 2", b"partial").unwrap_err();
    assert_eq!(err, ConfigError::GetterFailed { status: "exit status: 2".to_string() });
    assert_eq!(err.message(), "npm run config failed with status: exit status: 2");
}

#[test]
fn base64_payload_is_decoded() {
    assert_eq!(from_base64("aGVsbG8="), Ok(b"hello".to_vec()));
    assert_eq!(from_base64(""), Ok(Vec::new()));
    assert_eq!(from_file("AAEC/w=="), Ok(vec![0u8, 1, 2, 255]));
}

#[test]
fn malformed_base64_is_rejected() {
    assert_eq!(from_base64("aGVsbG8"), Err(ConfigError::InvalidBase64));
    assert_eq!(from_base64("not base64!"), Err(ConfigError::InvalidBase64));
    assert_eq!(from_file("aGVsbG8=\n"), Err(ConfigError::InvalidBase64));
    assert_eq!(ConfigError::InvalidBase64.message(), "invalid base64 payload");
}

#[test]
fn decoder_verdict_becomes_payload_or_the_one_error() {
    assert_eq!(payload_from(Ok(vec![1, 2, 3])), Ok(vec![1, 2, 3]));
    assert_eq!(payload_from(Ok(Vec::new())), Ok(Vec::new()));
    assert_eq!(payload_from(Err(DecodeError::InvalidPadding)), Err(ConfigError::InvalidBase64));
    assert_eq!(payload_from(Err(DecodeError::InvalidByte(3, b'!'))), Err(ConfigError::InvalidBase64));
    assert_eq!(payload_from(Err(DecodeError::InvalidLength(5))), Err(ConfigError::InvalidBase64));
}

#[test]
fn payload_is_taken_from_the_binary_field() {
    let output = ConfigGetterOutput {
        json: "aGVsbG8=".to_string(),
        binary_base64: "d29ybGQ=".to_string(),
    };
    assert_eq!(load_config(&output), Ok(b"world".to_vec()));
}

#[test]
fn system_name_is_the_trimmed_file_text() {
    assert_eq!(get_system_name("  tripli\n"), "tripli");
    assert_eq!(get_system_name("a b"), "a b");
    assert_eq!(get_system_name("\u{2003}x\u{a0}"), "x");
    for text in ["", " ", " a", "a ", "\n\ta b \r\n", "\u{85}\u{3000}"] {
        assert_eq!(get_system_name(text), text.trim());
    }
}
