//! Where the run-time configuration comes from, and the decoding of its
//! envelope down to the binary payload.

use vstd::prelude::*;
use base64::Engine;
use crate::text::{lossy_text, trim, trimmed, utf8_lossy};

verus! {

/// Where the message broker listens.
#[derive(Debug, Clone)]
pub struct AutobahnConfig {
    pub host: String,
    pub port: u16,
}

/// How the process publishes its log.
#[derive(Debug, Clone)]
pub struct LoggingConfig {
    pub global_log_pub_topic: String,
    pub global_logging_publishing_enabled: bool,
    pub global_logging_level: String,
}

/// What the configuration task prints: the configuration as JSON text and as
/// a base64-encoded binary payload.
#[derive(Debug, Clone)]
pub struct ConfigGetterOutput {
    pub json: String,
    pub binary_base64: String,
}

/// Where the encoded configuration is to be read from.
#[derive(Debug, Clone, PartialEq, Eq)]
pub enum ConfigSource {
    /// A file that holds the base64 text.
    File(String),
    /// The configuration task.
    Getter,
}

/// Why no payload could be had.
#[derive(Debug, Clone, PartialEq, Eq)]
pub enum ConfigError {
    /// The configuration task ended without success; `status` is how it ended.
    GetterFailed { status: String },
    /// The text is not standard padded base64.
    InvalidBase64,
}

impl ConfigError {
    /// The error in words.
    pub fn message(&self) -> (text: String)
        ensures
            match self {
                ConfigError::GetterFailed { status } => text@
                    == "npm run config failed with status: "@ + status@,
                ConfigError::InvalidBase64 => text@ == "invalid base64 payload"@,
            },
    {
        match self {
            ConfigError::GetterFailed { status } => {
                let mut text = String::from_str("npm run config failed with status: ");
                text.append(status.as_str());
                text
            },
            ConfigError::InvalidBase64 => String::from_str("invalid base64 payload"),
        }
    }
}

/// The source to load from: the file where a path is given, the
/// configuration task where none is.
pub fn from_uncertainty_config(file_path: Option<&str>) -> (source: ConfigSource)
    ensures
        match file_path {
            Some(path) => source matches ConfigSource::File(p) && p@ == path@,
            None => source == ConfigSource::Getter,
        },
{
    match file_path {
        Some(path) => ConfigSource::File(String::from_str(path)),
        None => ConfigSource::Getter,
    }
}

/// What the configuration task delivered: the text of its output without
/// the blanks at both ends where it succeeded, and the failure with its
/// status where it did not.
pub fn get_config_raw(success: bool, status: &str, stdout: &[u8]) -> (raw: Result<
    String,
    ConfigError,
>)
    ensures
        success ==> (raw matches Ok(text) && text@ == trimmed(lossy_text(stdout@))),
        !success ==> (raw matches Err(ConfigError::GetterFailed { status: s }) && s@
            == status@),
{
    let output = utf8_lossy(stdout);
    if !success {
        return Err(ConfigError::GetterFailed { status: String::from_str(status) });
    }
    Ok(trim(output.as_str()))
}

/// base64's `DecodeError`, carried as an opaque value: nothing is read from
/// it.
#[verifier::external_type_specification]
#[verifier::external_body]
pub struct ExDecodeError(base64::DecodeError);

/// The bytes that the standard alphabet with mandatory canonical padding
/// decodes `text` to, or `None` where `text` is no such encoding.
pub uninterp spec fn standard_decoding(text: Seq<char>) -> Option<Seq<u8>>;

/// `Engine::decode` of base64's `STANDARD` engine: the decoded bytes where the
/// input is padded standard base64, and an error where it is not. Both depend
/// on the input alone.
#[verifier::external_body]
fn decode_standard(text: &str) -> (decoded: Result<Vec<u8>, base64::DecodeError>)
    ensures
        match decoded {
            Ok(bytes) => standard_decoding(text@) == Some(bytes@),
            Err(_) => standard_decoding(text@) is None,
        },
{
    base64::engine::general_purpose::STANDARD.decode(text)
}

/// What the decoder's verdict means for the loading: the bytes are the
/// payload, and any decoding error is the one error of the loading.
pub fn payload_from(decoded: Result<Vec<u8>, base64::DecodeError>) -> (payload: Result<
    Vec<u8>,
    ConfigError,
>)
    ensures
        match decoded {
            Ok(bytes) => payload == Ok::<Vec<u8>, ConfigError>(bytes),
            Err(_) => payload == Err::<Vec<u8>, ConfigError>(ConfigError::InvalidBase64),
        },
{
    match decoded {
        Ok(bytes) => Ok(bytes),
        Err(_) => Err(ConfigError::InvalidBase64),
    }
}

/// The binary payload that `base64_str` encodes.
pub fn from_base64(base64_str: &str) -> (payload: Result<Vec<u8>, ConfigError>)
    ensures
        match standard_decoding(base64_str@) {
            Some(bytes) => payload matches Ok(p) && p@ == bytes,
            None => payload == Err::<Vec<u8>, ConfigError>(ConfigError::InvalidBase64),
        },
{
    payload_from(decode_standard(base64_str))
}

/// The binary payload in the text of a configuration file. The text is
/// decoded as it stands.
pub fn from_file(file_text: &str) -> (payload: Result<Vec<u8>, ConfigError>)
    ensures
        match standard_decoding(file_text@) {
            Some(bytes) => payload matches Ok(p) && p@ == bytes,
            None => payload == Err::<Vec<u8>, ConfigError>(ConfigError::InvalidBase64),
        },
{
    from_base64(file_text)
}

/// The binary payload in what the configuration task printed.
pub fn load_config(output: &ConfigGetterOutput) -> (payload: Result<Vec<u8>, ConfigError>)
    ensures
        match standard_decoding(output.binary_base64@) {
            Some(bytes) => payload matches Ok(p) && p@ == bytes,
            None => payload == Err::<Vec<u8>, ConfigError>(ConfigError::InvalidBase64),
        },
{
    from_base64(output.binary_base64.as_str())
}

} // verus!
