//! The user's settings, their defaults and the rules they must satisfy.

use vstd::prelude::*;
use crate::error::CoreError;
use crate::text::{concat, is_blank, owned, same_text, trim, trim_spec};

verus! {

/// A project whose notifications the scope rules include or exclude.
#[derive(Clone)]
pub struct ProjectRule {
    pub path: String,
    pub name: String,
    pub enabled: bool,
}

/// The default of `ProjectRule::enabled` when a stored rule omits it.
pub fn default_true() -> (r: bool)
    ensures
        r,
{
    true
}

#[derive(Clone)]
pub struct AppSettings {
    pub schema_version: u32,
    pub enabled: bool,
    pub device_name: String,
    pub bark_server: String,
    pub group: String,
    pub level: String,
    pub sound: String,
    pub scope: String,
    pub projects: Vec<ProjectRule>,
    pub message_mode: String,
    pub fixed_message: String,
    pub permission_notifications: bool,
    pub user_input_notifications: bool,
    pub redact_sensitive: bool,
    pub quiet_hours_enabled: bool,
    pub quiet_start: String,
    pub quiet_end: String,
    pub quiet_action: String,
    pub bark_icon: String,
    pub bark_markdown: bool,
    pub bark_image: String,
    pub bark_volume: Option<u8>,
    pub bark_badge: Option<i64>,
    pub bark_call: bool,
    pub bark_auto_copy: bool,
    pub bark_copy: String,
    pub bark_archive: Option<bool>,
    pub bark_ttl: Option<u64>,
    pub bark_action: String,
    pub click_url: String,
    pub request_timeout: u64,
    pub retry_limit: u32,
    pub encryption_enabled: bool,
    pub encryption_algorithm: String,
    pub setup_completed: bool,
    pub language: String,
    pub theme: String,
}

/// The settings a new installation starts with, on a device named `device`.
pub open spec fn is_default_settings(s: AppSettings, device: Seq<char>) -> bool {
    &&& s.schema_version == 2
    &&& s.enabled
    &&& s.device_name@ == device
    &&& s.bark_server@ == "https://api.day.app"@
    &&& s.group@ == "Codex"@
    &&& s.level@ == "active"@
    &&& s.sound@.len() == 0
    &&& s.scope@ == "all"@
    &&& s.projects@.len() == 0
    &&& s.message_mode@ == "summary200"@
    &&& s.fixed_message@
        == "Codex has finished a turn. Return to your computer to view the result."@
    &&& s.permission_notifications
    &&& s.user_input_notifications
    &&& s.redact_sensitive
    &&& !s.quiet_hours_enabled
    &&& s.quiet_start@ == "22:00"@
    &&& s.quiet_end@ == "08:00"@
    &&& s.quiet_action@ == "silent"@
    &&& s.bark_icon@.len() == 0
    &&& !s.bark_markdown
    &&& s.bark_image@.len() == 0
    &&& s.bark_volume is None
    &&& s.bark_badge is None
    &&& !s.bark_call
    &&& !s.bark_auto_copy
    &&& s.bark_copy@.len() == 0
    &&& s.bark_archive is None
    &&& s.bark_ttl is None
    &&& s.bark_action@.len() == 0
    &&& s.click_url@.len() == 0
    &&& s.request_timeout == 8
    &&& s.retry_limit == 5
    &&& !s.encryption_enabled
    &&& s.encryption_algorithm@ == "AES-128-CBC"@
    &&& !s.setup_completed
    &&& s.language@ == "system"@
    &&& s.theme@ == "system"@
}

/// The device name chosen from the host name, then the `COMPUTERNAME`
/// variable, then the `HOSTNAME` variable: the first that is present, trimmed,
/// or "This device" when it is blank or none is present.
pub open spec fn device_name_spec(
    host: Option<Seq<char>>,
    computer: Option<Seq<char>>,
    host_var: Option<Seq<char>>,
) -> Seq<char> {
    let first = if host is Some {
        host
    } else if computer is Some {
        computer
    } else {
        host_var
    };
    match first {
        Some(n) => if trim_spec(n).len() > 0 {
            trim_spec(n)
        } else {
            "This device"@
        },
        None => "This device"@,
    }
}

pub open spec fn opt_view(o: Option<String>) -> Option<Seq<char>> {
    match o {
        Some(s) => Some(s@),
        None => None,
    }
}

/// Chooses the device name from its candidates, in order.
pub fn device_name_from(host: Option<String>, computer: Option<String>, host_var: Option<String>) -> (r: String)
    ensures
        r@ == device_name_spec(opt_view(host), opt_view(computer), opt_view(host_var)),
{
    let first = if host.is_some() {
        host
    } else if computer.is_some() {
        computer
    } else {
        host_var
    };
    match first {
        Some(n) => {
            let t = trim(n.as_str());
            if t.as_str().unicode_len() == 0 {
                owned("This device")
            } else {
                t
            }
        },
        None => owned("This device"),
    }
}

/// The host name of this machine, when the system gives one that is valid
/// Unicode. Calls `hostname::get`; what the machine is named is not stated.
#[verifier::external_body]
fn host_name() -> (r: Option<String>) {
    hostname::get().ok().and_then(|name| name.into_string().ok())
}

/// The name of this device: the host name, else the values of the
/// `COMPUTERNAME` and `HOSTNAME` variables that the caller read.
pub fn detected_device_name(computer: Option<String>, host_var: Option<String>) -> (r: String)
    ensures
        exists|h: Option<Seq<char>>|
            r@ == device_name_spec(h, opt_view(computer), opt_view(host_var)),
{
    let host = host_name();
    device_name_from(host, computer, host_var)
}

impl AppSettings {
    /// The default settings for a device named `device_name`.
    pub fn with_device_name(device_name: String) -> (r: AppSettings)
        ensures
            is_default_settings(r, device_name@),
    {
        AppSettings {
            schema_version: 2,
            enabled: true,
            device_name,
            bark_server: owned("https://api.day.app"),
            group: owned("Codex"),
            level: owned("active"),
            sound: String::new(),
            scope: owned("all"),
            projects: Vec::new(),
            message_mode: owned("summary200"),
            fixed_message: owned(
                "Codex has finished a turn. Return to your computer to view the result.",
            ),
            permission_notifications: true,
            user_input_notifications: true,
            redact_sensitive: true,
            quiet_hours_enabled: false,
            quiet_start: owned("22:00"),
            quiet_end: owned("08:00"),
            quiet_action: owned("silent"),
            bark_icon: String::new(),
            bark_markdown: false,
            bark_image: String::new(),
            bark_volume: None,
            bark_badge: None,
            bark_call: false,
            bark_auto_copy: false,
            bark_copy: String::new(),
            bark_archive: None,
            bark_ttl: None,
            bark_action: String::new(),
            click_url: String::new(),
            request_timeout: 8,
            retry_limit: 5,
            encryption_enabled: false,
            encryption_algorithm: owned("AES-128-CBC"),
            setup_completed: false,
            language: owned("system"),
            theme: owned("system"),
        }
    }
}

/// The default settings are valid for any device name of 1 to 100
/// characters that is not blank, given that `url::Url::parse` reads the
/// scheme `https` from the default server's address.
pub proof fn lemma_default_settings_valid(s: AppSettings, device: Seq<char>)
    requires
        is_default_settings(s, device),
        trim_spec(device).len() > 0,
        device.len() <= 100,
        url_scheme(trim_spec("https://api.day.app"@)) == Some("https"@),
    ensures
        validate_spec(s) == Ok::<(), Seq<char>>(()),
{
    assert(trim_spec(Seq::<char>::empty()).len() == 0);
}

impl Default for AppSettings {
    /// The default settings, named after this device's host name.
    fn default() -> (r: AppSettings)
        ensures
            exists|h: Option<Seq<char>>| is_default_settings(r, device_name_spec(h, None, None)),
    {
        AppSettings::with_device_name(detected_device_name(None, None))
    }
}

/// The scheme of the URL that `url::Url::parse` reads from `s`, or `None`
/// when it refuses `s`.
pub uninterp spec fn url_scheme(s: Seq<char>) -> Option<Seq<char>>;

/// Calls `url::Url::parse` and, when it succeeds, reads the URL's scheme
/// (`Url::scheme`). Its result is named `url_scheme`.
#[verifier::external_body]
pub(crate) fn parsed_url_scheme(s: &str) -> (r: Option<String>)
    ensures
        match r {
            Some(x) => url_scheme(s@) == Some(x@),
            None => url_scheme(s@) is None,
        },
{
    url::Url::parse(s).ok().map(|u| u.scheme().to_owned())
}

/// Whether a URL setting is acceptable: blank, or a URL, and an HTTP(S) one
/// when `http_only`. The error names the setting by `label`.
pub open spec fn url_ok_spec(value: Seq<char>, http_only: bool, label: Seq<char>) -> Result<
    (),
    Seq<char>,
> {
    let t = trim_spec(value);
    if t.len() == 0 {
        Ok(())
    } else {
        match url_scheme(t) {
            None => Err(label + " is invalid"@),
            Some(scheme) => if http_only && scheme != "http"@ && scheme != "https"@ {
                Err(label + " must use HTTP or HTTPS"@)
            } else {
                Ok(())
            },
        }
    }
}

pub fn validate_url(value: &str, http_only: bool, label: &str) -> (r: Result<(), CoreError>)
    ensures
        match url_ok_spec(value@, http_only, label@) {
            Ok(()) => r is Ok,
            Err(m) => r matches Err(CoreError::InvalidConfig(x)) && x@ == m,
        },
{
    let t = trim(value);
    if is_blank(value) {
        return Ok(());
    }
    match parsed_url_scheme(t.as_str()) {
        None => Err(CoreError::InvalidConfig(concat(label, " is invalid"))),
        Some(scheme) => {
            if http_only && !same_text(scheme.as_str(), "http") && !same_text(scheme.as_str(), "https") {
                Err(CoreError::InvalidConfig(concat(label, " must use HTTP or HTTPS")))
            } else {
                Ok(())
            }
        },
    }
}

/// The first rule that `s` breaks, by its message, or `Ok` when it breaks none.
pub open spec fn validate_spec(s: AppSettings) -> Result<(), Seq<char>> {
    if s.schema_version != 2 {
        Err("unsupported settings schema"@)
    } else if trim_spec(s.device_name@).len() == 0 || s.device_name@.len() > 100 {
        Err("device name must contain between 1 and 100 characters"@)
    } else if url_ok_spec(s.bark_server@, true, "Bark server"@) is Err {
        url_ok_spec(s.bark_server@, true, "Bark server"@)
    } else if url_ok_spec(s.bark_icon@, true, "Bark icon"@) is Err {
        url_ok_spec(s.bark_icon@, true, "Bark icon"@)
    } else if url_ok_spec(s.bark_image@, true, "Bark image"@) is Err {
        url_ok_spec(s.bark_image@, true, "Bark image"@)
    } else if url_ok_spec(s.click_url@, false, "Bark click URL"@) is Err {
        url_ok_spec(s.click_url@, false, "Bark click URL"@)
    } else if !(s.scope@ == "all"@ || s.scope@ == "include"@ || s.scope@ == "exclude"@) {
        Err("invalid project scope"@)
    } else if !(s.message_mode@ == "minimal"@ || s.message_mode@ == "fixed"@ || s.message_mode@
        == "summary200"@ || s.message_mode@ == "summary500"@ || s.message_mode@ == "full"@) {
        Err("invalid message mode"@)
    } else if !(s.level@ == "active"@ || s.level@ == "timeSensitive"@ || s.level@ == "passive"@
        || s.level@ == "critical"@) {
        Err("invalid Bark level"@)
    } else if !(s.quiet_action@ == "silent"@ || s.quiet_action@ == "pause"@ || s.quiet_action@
        == "importantOnly"@) {
        Err("invalid quiet-hours action"@)
    } else if !(s.encryption_algorithm@ == "AES-128-CBC"@ || s.encryption_algorithm@
        == "AES-256-CBC"@) {
        Err("invalid encryption algorithm"@)
    } else if !(2 <= s.request_timeout <= 30) {
        Err("request timeout must be between 2 and 30 seconds"@)
    } else if !(1 <= s.retry_limit <= 8) {
        Err("retry limit must be between 1 and 8"@)
    } else if s.bark_volume is Some && s.bark_volume->0 > 10 {
        Err("Bark critical volume must be between 0 and 10"@)
    } else if s.bark_ttl == Some(0u64) {
        Err("Bark archive retention must be greater than zero"@)
    } else if !(s.bark_action@.len() == 0 || s.bark_action@ == "alert"@) {
        Err("invalid Bark action"@)
    } else {
        Ok(())
    }
}

/// The accepted message modes are "minimal", "fixed", "summary200",
/// "summary500" and "full": settings that differ from valid ones only in
/// their message mode are valid exactly when it is one of these.
pub proof fn lemma_message_modes(s: AppSettings, t: AppSettings)
    requires
        validate_spec(s) is Ok,
        t == (AppSettings { message_mode: t.message_mode, ..s }),
    ensures
        validate_spec(t) is Ok <==> (t.message_mode@ == "minimal"@ || t.message_mode@ == "fixed"@
            || t.message_mode@ == "summary200"@ || t.message_mode@ == "summary500"@
            || t.message_mode@ == "full"@),
{
}

fn invalid(m: &str) -> (r: Result<(), CoreError>)
    ensures
        r matches Err(CoreError::InvalidConfig(x)) && x@ == m@,
{
    Err(CoreError::InvalidConfig(owned(m)))
}

impl AppSettings {
    /// Checks the settings against their rules, in order.
    pub fn validate(&self) -> (r: Result<(), CoreError>)
        ensures
            match validate_spec(*self) {
                Ok(()) => r is Ok,
                Err(m) => r matches Err(CoreError::InvalidConfig(x)) && x@ == m,
            },
    {
        if self.schema_version != 2 {
            return invalid("unsupported settings schema");
        }
        if is_blank(self.device_name.as_str()) || self.device_name.as_str().unicode_len() > 100 {
            return invalid("device name must contain between 1 and 100 characters");
        }
        validate_url(self.bark_server.as_str(), true, "Bark server")?;
        validate_url(self.bark_icon.as_str(), true, "Bark icon")?;
        validate_url(self.bark_image.as_str(), true, "Bark image")?;
        validate_url(self.click_url.as_str(), false, "Bark click URL")?;
        let scope = self.scope.as_str();
        if !(same_text(scope, "all") || same_text(scope, "include") || same_text(scope, "exclude")) {
            return invalid("invalid project scope");
        }
        let mode = self.message_mode.as_str();
        if !(same_text(mode, "minimal") || same_text(mode, "fixed") || same_text(mode, "summary200")
            || same_text(mode, "summary500") || same_text(mode, "full")) {
            return invalid("invalid message mode");
        }
        let level = self.level.as_str();
        if !(same_text(level, "active") || same_text(level, "timeSensitive") || same_text(
            level,
            "passive",
        ) || same_text(level, "critical")) {
            return invalid("invalid Bark level");
        }
        let quiet = self.quiet_action.as_str();
        if !(same_text(quiet, "silent") || same_text(quiet, "pause") || same_text(
            quiet,
            "importantOnly",
        )) {
            return invalid("invalid quiet-hours action");
        }
        let algorithm = self.encryption_algorithm.as_str();
        if !(same_text(algorithm, "AES-128-CBC") || same_text(algorithm, "AES-256-CBC")) {
            return invalid("invalid encryption algorithm");
        }
        if !(2 <= self.request_timeout && self.request_timeout <= 30) {
            return invalid("request timeout must be between 2 and 30 seconds");
        }
        if !(1 <= self.retry_limit && self.retry_limit <= 8) {
            return invalid("retry limit must be between 1 and 8");
        }
        if let Some(volume) = self.bark_volume {
            if volume > 10 {
                return invalid("Bark critical volume must be between 0 and 10");
            }
        }
        if let Some(ttl) = self.bark_ttl {
            if ttl == 0 {
                return invalid("Bark archive retention must be greater than zero");
            }
        }
        let action = self.bark_action.as_str();
        if !(action.unicode_len() == 0 || same_text(action, "alert")) {
            return invalid("invalid Bark action");
        }
        Ok(())
    }
}

impl AppSettings {
    /// Brings stored settings to the current version: version 1 becomes
    /// version 2, a blank device name replaced by `detected`, and is to be
    /// saved again (the flag); version 2 is kept as it is; other versions are
    /// refused. The result must pass validation.
    pub fn migrate(self, detected: &str) -> (r: Result<(AppSettings, bool), CoreError>)
        ensures
            self.schema_version != 1 && self.schema_version != 2 ==> (r matches Err(CoreError::InvalidConfig(m))
                && m@ == "unsupported settings schema"@),
            self.schema_version == 2 ==> match validate_spec(self) {
                Ok(()) => r matches Ok(x) && x.0 == self && !x.1,
                Err(m) => r matches Err(CoreError::InvalidConfig(x)) && x@ == m,
            },
            self.schema_version == 1 ==> exists|m: AppSettings|
                m == (AppSettings { schema_version: 2u32, device_name: m.device_name, ..self })
                    && m.device_name@ == (if trim_spec(self.device_name@).len() == 0 {
                    detected@
                } else {
                    self.device_name@
                }) && match validate_spec(m) {
                    Ok(()) => r matches Ok(x) && x.0 == m && x.1,
                    Err(msg) => r matches Err(CoreError::InvalidConfig(e)) && e@ == msg,
                },
    {
        if self.schema_version != 1 && self.schema_version != 2 {
            return Err(CoreError::InvalidConfig(owned("unsupported settings schema")));
        }
        let mut value = self;
        let save = value.schema_version == 1;
        if save {
            value.schema_version = 2;
            if is_blank(value.device_name.as_str()) {
                value.device_name = owned(detected);
            }
        }
        value.validate()?;
        Ok((value, save))
    }
}

} // verus!