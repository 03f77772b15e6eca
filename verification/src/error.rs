//! The library's errors and the codes under which the user interface reports
//! them.

use vstd::prelude::*;
use crate::text::{concat, owned};

verus! {

/// Errors of the library. Where the cause is an error of the operating system,
/// of JSON decoding or of the database, the variant holds that error's message.
#[derive(Debug)]
pub enum CoreError {
    Io(String),
    Json(String),
    Database(String),
    Credential(String),
    InvalidConfig(String),
    Network(String),
    BarkInvalidKey,
    BarkRejected,
    BarkTimeout,
    BarkUnreachable,
    BarkServer,
    InvalidBarkServer,
    InvalidEncryptionKey,
    HookConfig(String),
    TemporaryPortableLocation,
}

pub type CoreResult<T> = Result<T, CoreError>;

/// The message of an error: the text its `Display` shows.
pub open spec fn message_spec(e: CoreError) -> Seq<char> {
    match e {
        CoreError::Io(m) => "I/O operation failed: "@ + m@,
        CoreError::Json(m) => "invalid JSON: "@ + m@,
        CoreError::Database(m) => "database operation failed: "@ + m@,
        CoreError::Credential(m) => "credential store operation failed: "@ + m@,
        CoreError::InvalidConfig(m) => "invalid configuration: "@ + m@,
        CoreError::Network(m) => "network request failed: "@ + m@,
        CoreError::BarkInvalidKey => "the Bark device key is invalid"@,
        CoreError::BarkRejected => "Bark rejected the notification"@,
        CoreError::BarkTimeout => "the Bark request timed out"@,
        CoreError::BarkUnreachable => "the Bark server could not be reached"@,
        CoreError::BarkServer => "the Bark server returned an error"@,
        CoreError::InvalidBarkServer => "the Bark server address is invalid"@,
        CoreError::InvalidEncryptionKey => "the Bark encryption key is invalid"@,
        CoreError::HookConfig(m) => "hook configuration failed: "@ + m@,
        CoreError::TemporaryPortableLocation => "portable storage cannot use a temporary directory"@,
    }
}

/// The code under which an error is reported to the user interface.
pub open spec fn code_spec(e: CoreError) -> Seq<char> {
    match e {
        CoreError::Io(_) => "ioError"@,
        CoreError::Json(_) => "invalidJson"@,
        CoreError::Database(_) => "databaseError"@,
        CoreError::Credential(_) => "credentialError"@,
        CoreError::InvalidConfig(_) => "invalidConfig"@,
        CoreError::Network(_) => "networkError"@,
        CoreError::BarkInvalidKey => "barkInvalidKey"@,
        CoreError::BarkRejected => "barkRejected"@,
        CoreError::BarkTimeout => "barkTimeout"@,
        CoreError::BarkUnreachable => "barkUnreachable"@,
        CoreError::BarkServer => "barkServerError"@,
        CoreError::InvalidBarkServer => "invalidBarkServer"@,
        CoreError::InvalidEncryptionKey => "invalidEncryptionKey"@,
        CoreError::HookConfig(_) => "hookConfigError"@,
        CoreError::TemporaryPortableLocation => "temporaryPortableLocation"@,
    }
}

impl CoreError {
    /// The error's message.
    pub fn message(&self) -> (r: String)
        ensures
            r@ == message_spec(*self),
    {
        match self {
            CoreError::Io(m) => concat("I/O operation failed: ", m.as_str()),
            CoreError::Json(m) => concat("invalid JSON: ", m.as_str()),
            CoreError::Database(m) => concat("database operation failed: ", m.as_str()),
            CoreError::Credential(m) => concat("credential store operation failed: ", m.as_str()),
            CoreError::InvalidConfig(m) => concat("invalid configuration: ", m.as_str()),
            CoreError::Network(m) => concat("network request failed: ", m.as_str()),
            CoreError::BarkInvalidKey => owned("the Bark device key is invalid"),
            CoreError::BarkRejected => owned("Bark rejected the notification"),
            CoreError::BarkTimeout => owned("the Bark request timed out"),
            CoreError::BarkUnreachable => owned("the Bark server could not be reached"),
            CoreError::BarkServer => owned("the Bark server returned an error"),
            CoreError::InvalidBarkServer => owned("the Bark server address is invalid"),
            CoreError::InvalidEncryptionKey => owned("the Bark encryption key is invalid"),
            CoreError::HookConfig(m) => concat("hook configuration failed: ", m.as_str()),
            CoreError::TemporaryPortableLocation => owned(
                "portable storage cannot use a temporary directory",
            ),
        }
    }

    /// The code under which the user interface reports the error.
    pub fn code(&self) -> (r: &'static str)
        ensures
            r@ == code_spec(*self),
    {
        match self {
            CoreError::Io(_) => "ioError",
            CoreError::Json(_) => "invalidJson",
            CoreError::Database(_) => "databaseError",
            CoreError::Credential(_) => "credentialError",
            CoreError::InvalidConfig(_) => "invalidConfig",
            CoreError::Network(_) => "networkError",
            CoreError::BarkInvalidKey => "barkInvalidKey",
            CoreError::BarkRejected => "barkRejected",
            CoreError::BarkTimeout => "barkTimeout",
            CoreError::BarkUnreachable => "barkUnreachable",
            CoreError::BarkServer => "barkServerError",
            CoreError::InvalidBarkServer => "invalidBarkServer",
            CoreError::InvalidEncryptionKey => "invalidEncryptionKey",
            CoreError::HookConfig(_) => "hookConfigError",
            CoreError::TemporaryPortableLocation => "temporaryPortableLocation",
        }
    }
}

/// An error as the user interface receives it.
pub struct ApiError {
    pub code: &'static str,
    pub message: String,
}

impl ApiError {
    /// The report of an error: its code and its message.
    pub fn from_error(value: CoreError) -> (r: ApiError)
        ensures
            r.code@ == code_spec(value),
            r.message@ == message_spec(value),
    {
        let code = value.code();
        let message = value.message();
        ApiError { code, message }
    }
}

/// Maps a library result to what a user interface command returns.
pub fn api<T>(value: CoreResult<T>) -> (r: Result<T, ApiError>)
    ensures
        match (value, r) {
            (Ok(a), Ok(b)) => a == b,
            (Err(e), Err(x)) => x.code@ == code_spec(e) && x.message@ == message_spec(e),
            _ => false,
        },
{
    match value {
        Ok(v) => Ok(v),
        Err(e) => Err(ApiError::from_error(e)),
    }
}

/// The code and the message that the hook's health report gives for an error.
pub open spec fn details_spec(e: CoreError) -> (Seq<char>, Seq<char>) {
    match e {
        CoreError::Io(_) => ("ioError"@, "The Hook could not access its application files."@),
        CoreError::Json(_) => ("invalidHookInput"@, "Codex sent invalid Hook input."@),
        CoreError::Database(_) => ("databaseError"@, "The Hook queue is unavailable."@),
        CoreError::Credential(_) => (
            "credentialError"@,
            "The Hook could not read the system credential store."@,
        ),
        CoreError::InvalidConfig(_) => ("invalidConfig"@, "The saved settings are invalid."@),
        CoreError::TemporaryPortableLocation => (
            "temporaryPortableLocation"@,
            "Portable storage cannot use a temporary download directory."@,
        ),
        CoreError::Network(_) | CoreError::BarkUnreachable => (
            "barkUnreachable"@,
            "The Hook could not reach the Bark server."@,
        ),
        CoreError::BarkInvalidKey => ("barkInvalidKey"@, "The Bark device key is invalid."@),
        CoreError::BarkRejected => ("barkRejected"@, "Bark rejected the notification."@),
        CoreError::BarkTimeout => ("barkTimeout"@, "The Bark request timed out."@),
        CoreError::BarkServer => ("barkServerError"@, "The Bark server returned an error."@),
        CoreError::InvalidBarkServer => (
            "invalidBarkServer"@,
            "The Bark server address is invalid."@,
        ),
        CoreError::InvalidEncryptionKey => (
            "invalidEncryptionKey"@,
            "The Bark encryption key is invalid."@,
        ),
        CoreError::HookConfig(_) => ("hookConfigError"@, "The Hook configuration is invalid."@),
    }
}

/// The code and the message that the hook's health report gives for an error.
pub fn error_details(error: &CoreError) -> (r: (&'static str, &'static str))
    ensures
        (r.0@, r.1@) == details_spec(*error),
{
    match error {
        CoreError::Io(_) => ("ioError", "The Hook could not access its application files."),
        CoreError::Json(_) => ("invalidHookInput", "Codex sent invalid Hook input."),
        CoreError::Database(_) => ("databaseError", "The Hook queue is unavailable."),
        CoreError::Credential(_) => (
            "credentialError",
            "The Hook could not read the system credential store.",
        ),
        CoreError::InvalidConfig(_) => ("invalidConfig", "The saved settings are invalid."),
        CoreError::TemporaryPortableLocation => (
            "temporaryPortableLocation",
            "Portable storage cannot use a temporary download directory.",
        ),
        CoreError::Network(_) | CoreError::BarkUnreachable => (
            "barkUnreachable",
            "The Hook could not reach the Bark server.",
        ),
        CoreError::BarkInvalidKey => ("barkInvalidKey", "The Bark device key is invalid."),
        CoreError::BarkRejected => ("barkRejected", "Bark rejected the notification."),
        CoreError::BarkTimeout => ("barkTimeout", "The Bark request timed out."),
        CoreError::BarkServer => ("barkServerError", "The Bark server returned an error."),
        CoreError::InvalidBarkServer => (
            "invalidBarkServer",
            "The Bark server address is invalid.",
        ),
        CoreError::InvalidEncryptionKey => (
            "invalidEncryptionKey",
            "The Bark encryption key is invalid.",
        ),
        CoreError::HookConfig(_) => ("hookConfigError", "The Hook configuration is invalid."),
    }
}

} // verus!
