//! The desktop application's rules: which secrets are configured, the hook
//! status shown when it cannot be read, the credentials a delivery needs,
//! the connection test, the interpretation of the hook delivery test, the
//! editing of a sent notification, the background worker's pauses, and the
//! locations that are safe to remove on uninstall.

use vstd::prelude::*;
use crate::dispatcher::DispatchResult;
use crate::error::{message_spec, ApiError, CoreError, CoreResult};
use crate::hooks::HookStatus;
use crate::json::{get_v, str_of, Json, JsonV};
use crate::notification::{or_empty, redact_sensitive_text, redact_spec, Notification};
use crate::paths::{components, components_spec, strs_v, StorageInfo, StorageMode};
use crate::security::{get_secret, ok_or_credential, BARK_KEY_ACCOUNT, ENCRYPTION_KEY_ACCOUNT};
use crate::settings::{opt_view, AppSettings};
use crate::store::{EventRecord, EventStatus};
use crate::json::push_str;
use crate::text::{is_blank, owned, same_text, trim, trim_spec};

verus! {

/// Which secrets the credential store holds.
pub struct SecretStatus {
    pub bark_key_configured: bool,
    pub encryption_key_configured: bool,
}

/// Which secrets the store holds, from its readings of the device key
/// (`bark`) and, once that reading succeeded, of the encryption key
/// (`encryption`): a failed reading fails.
pub open spec fn status_rel(
    bark: CoreResult<Option<String>>,
    encryption: CoreResult<Option<String>>,
    r: CoreResult<SecretStatus>,
) -> bool {
    match bark {
        Err(x) => r == Err::<SecretStatus, CoreError>(x),
        Ok(b) => match encryption {
            Err(x) => r == Err::<SecretStatus, CoreError>(x),
            Ok(e) => r == Ok::<SecretStatus, CoreError>(
                SecretStatus { bark_key_configured: b is Some, encryption_key_configured: e is Some },
            ),
        },
    }
}

/// Which secrets are configured, for given readings of the store; see
/// `status_rel`.
pub fn secret_status_from(bark: CoreResult<Option<String>>, encryption: CoreResult<Option<String>>) -> (r:
    CoreResult<SecretStatus>)
    ensures
        status_rel(bark, encryption, r),
{
    let b = bark?;
    let e = encryption?;
    Ok(SecretStatus { bark_key_configured: b.is_some(), encryption_key_configured: e.is_some() })
}

/// Which secrets the credential store holds; see `status_rel`. The
/// encryption key is read only once the device key was read.
pub fn secret_status() -> (r: CoreResult<SecretStatus>)
    ensures
        exists|bark: CoreResult<Option<String>>, encryption: CoreResult<Option<String>>|
            ok_or_credential(bark) && ok_or_credential(encryption) && status_rel(bark, encryption, r),
        ok_or_credential(r),
{
    let bark = get_secret(BARK_KEY_ACCOUNT);
    let encryption = if bark.is_ok() {
        get_secret(ENCRYPTION_KEY_ACCOUNT)
    } else {
        Ok(None)
    };
    let ghost b = bark;
    let ghost e = encryption;
    let r = secret_status_from(bark, encryption);
    assert(ok_or_credential(b) && ok_or_credential(e) && status_rel(b, e, r));
    r
}

/// The secret status to show for a reading of the store: a failure reads as
/// none configured.
pub open spec fn shown_secret_status_spec(status: CoreResult<SecretStatus>) -> SecretStatus {
    match status {
        Ok(s) => s,
        Err(_) => SecretStatus { bark_key_configured: false, encryption_key_configured: false },
    }
}

/// The secret status to show for a reading of the store; see
/// `shown_secret_status_spec`.
pub fn shown_secret_status(status: CoreResult<SecretStatus>) -> (r: SecretStatus)
    ensures
        r == shown_secret_status_spec(status),
{
    match status {
        Ok(s) => s,
        Err(_) => SecretStatus { bark_key_configured: false, encryption_key_configured: false },
    }
}

/// Which secrets the credential store holds, reading a failure of the store
/// as none configured; see `shown_secret_status`.
pub fn secret_status_lossy() -> (r: SecretStatus)
    ensures
        exists|status: CoreResult<SecretStatus>| ok_or_credential(status) && r == shown_secret_status_spec(status),
{
    shown_secret_status(secret_status())
}

/// The hook status, or, when it could not be read, a status that is not
/// installed, of unknown trust, and shows the error's message as its
/// command.
pub fn hook_status_lossy(status: CoreResult<HookStatus>, hooks_path: &str, exists: bool) -> (r: HookStatus)
    ensures
        match status {
            Ok(s) => r == s,
            Err(e) => {
                &&& r.hooks_path@ == hooks_path@
                &&& r.exists == exists
                &&& !r.installed
                &&& r.handler_count == 0
                &&& r.installed_events@.len() == 0
                &&& !r.path_current
                &&& r.configured_command@ == message_spec(e)
                &&& !r.trusted
                &&& r.trust_status@ == "unknown"@
                &&& !r.review_required
                &&& !r.enabled
            },
        },
{
    match status {
        Ok(s) => s,
        Err(e) => HookStatus {
            hooks_path: owned(hooks_path),
            exists,
            installed: false,
            handler_count: 0,
            installed_events: Vec::new(),
            path_current: false,
            configured_command: e.message(),
            trusted: false,
            trust_status: owned("unknown"),
            review_required: false,
            enabled: false,
        },
    }
}

/// The credential store account of a kind of secret.
pub fn secret_account(kind: &str) -> (r: Result<&'static str, ApiError>)
    ensures
        kind@ == "barkKey"@ ==> (r matches Ok(a) && a@ == BARK_KEY_ACCOUNT@),
        kind@ == "encryptionKey"@ ==> (r matches Ok(a) && a@ == ENCRYPTION_KEY_ACCOUNT@),
        kind@ != "barkKey"@ && kind@ != "encryptionKey"@ ==> (r matches Err(e) && e.code@ == "invalidSecretKind"@
            && e.message@ == "unknown secret kind"@),
{
    proof {
        reveal_strlit("barkKey");
        reveal_strlit("encryptionKey");
        assert("barkKey"@.len() != "encryptionKey"@.len());
    }
    if same_text(kind, "barkKey") {
        Ok(BARK_KEY_ACCOUNT)
    } else if same_text(kind, "encryptionKey") {
        Ok(ENCRYPTION_KEY_ACCOUNT)
    } else {
        Err(ApiError { code: "invalidSecretKind", message: owned("unknown secret kind") })
    }
}

/// The errors reading delivery credentials can give.
pub open spec fn credential_failure(r: CoreResult<(String, Option<String>)>) -> bool {
    match r {
        Ok(_) => true,
        Err(CoreError::Credential(_)) => true,
        Err(CoreError::BarkInvalidKey) => true,
        Err(CoreError::InvalidConfig(m)) => m@ == "Bark encryption is enabled but its key is missing"@,
        Err(_) => false,
    }
}

/// Delivery credentials from the credential store's readings of the device
/// key (`bark`) and, only when encryption is enabled, of the encryption key
/// (`encryption`): a failed reading fails; no device key is an invalid key;
/// a missing encryption key with encryption enabled is refused.
pub open spec fn delivery_rel(
    bark: CoreResult<Option<String>>,
    encryption: CoreResult<Option<String>>,
    enabled: bool,
    r: CoreResult<(String, Option<String>)>,
) -> bool {
    match bark {
        Err(x) => r == Err::<(String, Option<String>), CoreError>(x),
        Ok(None) => r matches Err(CoreError::BarkInvalidKey),
        Ok(Some(k)) => if !enabled {
            r matches Ok(c) && c.0 == k && c.1 is None
        } else {
            match encryption {
                Err(x) => r == Err::<(String, Option<String>), CoreError>(x),
                Ok(None) => r matches Err(CoreError::InvalidConfig(m)) && m@
                    == "Bark encryption is enabled but its key is missing"@,
                Ok(Some(e)) => r matches Ok(c) && c.0 == k && c.1 == Some(e),
            }
        },
    }
}

/// The delivery credentials for given readings of the store; see
/// `delivery_rel`.
pub fn delivery_credentials_from(
    bark: CoreResult<Option<String>>,
    encryption: CoreResult<Option<String>>,
    enabled: bool,
) -> (r: CoreResult<(String, Option<String>)>)
    ensures
        delivery_rel(bark, encryption, enabled, r),
{
    let bark_key = match bark {
        Err(x) => return Err(x),
        Ok(None) => return Err(CoreError::BarkInvalidKey),
        Ok(Some(k)) => k,
    };
    if enabled {
        match encryption {
            Err(x) => Err(x),
            Ok(None) => Err(CoreError::InvalidConfig(owned("Bark encryption is enabled but its key is missing"))),
            Ok(Some(e)) => Ok((bark_key, Some(e))),
        }
    } else {
        Ok((bark_key, None))
    }
}

/// The device key and, when encryption is enabled, the encryption key, from
/// the credential store; see `delivery_rel`. The encryption key is read only
/// after the device key was found, and only with encryption enabled.
pub fn delivery_credentials(settings: &AppSettings) -> (r: CoreResult<(String, Option<String>)>)
    ensures
        exists|bark: CoreResult<Option<String>>, encryption: CoreResult<Option<String>>|
            ok_or_credential(bark) && ok_or_credential(encryption) && delivery_rel(
                bark,
                encryption,
                settings.encryption_enabled,
                r,
            ),
        credential_failure(r),
        r matches Ok(c) ==> (c.1 is Some <==> settings.encryption_enabled),
{
    let bark = get_secret(BARK_KEY_ACCOUNT);
    let found = match &bark {
        Ok(Some(_)) => true,
        _ => false,
    };
    let encryption = if found && settings.encryption_enabled {
        get_secret(ENCRYPTION_KEY_ACCOUNT)
    } else {
        Ok(None)
    };
    let ghost b = bark;
    let ghost e = encryption;
    let r = delivery_credentials_from(bark, encryption, settings.encryption_enabled);
    assert(ok_or_credential(b) && ok_or_credential(e) && delivery_rel(b, e, settings.encryption_enabled, r));
    r
}

/// The keys a connection test uses, given the store's readings of the
/// device key (`bark`, used only when none is typed in) and of the
/// encryption key (`encryption`, used only with encryption enabled and none
/// typed in): a device key typed in, trimmed, when it is not blank, else the
/// stored one, which must exist; with encryption enabled, an encryption key
/// typed in when it is not empty, else the stored one, if any.
pub open spec fn test_rel(
    enabled: bool,
    bark_key: Option<String>,
    encryption_key: Option<String>,
    bark: CoreResult<Option<String>>,
    encryption: CoreResult<Option<String>>,
    r: CoreResult<(String, Option<String>)>,
) -> bool {
    let key: Result<Seq<char>, CoreError> = if bark_key matches Some(k) && trim_spec(k@).len() != 0 {
        Ok(trim_spec(bark_key->Some_0@))
    } else {
        match bark {
            Err(x) => Err(x),
            Ok(None) => Err(CoreError::BarkInvalidKey),
            Ok(Some(k)) => Ok(k@),
        }
    };
    let enc: Result<Option<Seq<char>>, CoreError> = if !enabled {
        Ok(None)
    } else {
        if encryption_key matches Some(e) && e@.len() != 0 {
            Ok(Some(encryption_key->Some_0@))
        } else {
            match encryption {
                Err(x) => Err(x),
                Ok(v) => Ok(opt_view(v)),
            }
        }
    };
    match key {
        Err(x) => r == Err::<(String, Option<String>), CoreError>(x),
        Ok(k) => match enc {
            Err(x) => r == Err::<(String, Option<String>), CoreError>(x),
            Ok(e) => r matches Ok(c) && c.0@ == k && opt_view(c.1) == e,
        },
    }
}

/// The keys a connection test uses for given readings of the store; see
/// `test_rel`.
pub fn test_credentials_from(
    enabled: bool,
    bark_key: Option<String>,
    encryption_key: Option<String>,
    bark: CoreResult<Option<String>>,
    encryption: CoreResult<Option<String>>,
) -> (r: CoreResult<(String, Option<String>)>)
    ensures
        test_rel(enabled, bark_key, encryption_key, bark, encryption, r),
{
    let typed = match &bark_key {
        Some(k) => if is_blank(k.as_str()) {
            None
        } else {
            Some(trim(k.as_str()))
        },
        None => None,
    };
    let key = match typed {
        Some(k) => k,
        None => match bark {
            Err(x) => return Err(x),
            Ok(None) => return Err(CoreError::BarkInvalidKey),
            Ok(Some(k)) => k,
        },
    };
    if !enabled {
        return Ok((key, None));
    }
    proof {
        reveal_strlit("");
    }
    let typed_encryption = match &encryption_key {
        Some(e) => !same_text(e.as_str(), ""),
        None => false,
    };
    let ghost ek = encryption_key;
    proof {
        if ek is Some && ek->Some_0@.len() == 0 {
            assert(ek->Some_0@ =~= ""@);
        }
    }
    if typed_encryption {
        Ok((key, encryption_key))
    } else {
        match encryption {
            Err(x) => Err(x),
            Ok(v) => Ok((key, v)),
        }
    }
}

/// The keys a connection test uses: typed-in keys first, else the stored
/// ones; see `test_rel`. The store is read only for a key not typed in, and
/// the encryption key only with encryption enabled once a device key was
/// found; so typed-in keys need no store at all.
pub fn test_credentials(
    settings: &AppSettings,
    bark_key: Option<String>,
    encryption_key: Option<String>,
) -> (r: CoreResult<(String, Option<String>)>)
    ensures
        exists|bark: CoreResult<Option<String>>, encryption: CoreResult<Option<String>>|
            ok_or_credential(bark) && ok_or_credential(encryption) && test_rel(
                settings.encryption_enabled,
                bark_key,
                encryption_key,
                bark,
                encryption,
                r,
            ),
{
    proof {
        reveal_strlit("");
    }
    let typed = match &bark_key {
        Some(k) => !is_blank(k.as_str()),
        None => false,
    };
    let bark = if typed {
        Ok(None)
    } else {
        get_secret(BARK_KEY_ACCOUNT)
    };
    let found = typed || match &bark {
        Ok(Some(_)) => true,
        _ => false,
    };
    let typed_encryption = match &encryption_key {
        Some(e) => !same_text(e.as_str(), ""),
        None => false,
    };
    let encryption = if found && settings.encryption_enabled && !typed_encryption {
        get_secret(ENCRYPTION_KEY_ACCOUNT)
    } else {
        Ok(None)
    };
    let ghost b = bark;
    let ghost e = encryption;
    let ghost bk = bark_key;
    let ghost ek = encryption_key;
    let r = test_credentials_from(settings.encryption_enabled, bark_key, encryption_key, bark, encryption);
    assert(ok_or_credential(b) && ok_or_credential(e) && test_rel(settings.encryption_enabled, bk, ek, b, e, r));
    r
}

/// The notification of the desktop connection test, in Chinese when the
/// interface language is Chinese.
pub fn connection_test_notification(settings: &AppSettings, bark_id: &str) -> (r: Notification)
    ensures
        r.event_key@ == "manual-test"@,
        r.bark_id@ == bark_id@,
        r.event_type@ == "Test"@,
        r.project@ == "CodexNotify"@,
        r.title@ == settings.device_name@ + " · CodexNotify"@,
        r.subtitle@.len() == 0,
        r.body@ == (if settings.language@ == "zh"@ {
            "CodexNotify 连接测试成功。"@
        } else {
            "Your CodexNotify connection is working."@
        }),
        r.group == settings.group,
        r.level == settings.level,
        r.sound == settings.sound,
        r.icon == settings.bark_icon,
        r.url == settings.click_url,
        r.markdown == settings.bark_markdown,
        r.image == settings.bark_image,
        r.volume == settings.bark_volume,
        r.badge == settings.bark_badge,
        r.call == settings.bark_call,
        r.auto_copy == settings.bark_auto_copy,
        r.copy == settings.bark_copy,
        r.archive == settings.bark_archive,
        r.ttl == settings.bark_ttl,
        r.action == settings.bark_action,
        !r.suppressed,
        r.session_id@.len() == 0,
        r.turn_id@.len() == 0,
        r.cwd@.len() == 0,
        r.suppress_reason@.len() == 0,
{
    let mut title = settings.device_name.clone();
    push_str(&mut title, " · CodexNotify");
    let body = if same_text(settings.language.as_str(), "zh") {
        owned("CodexNotify 连接测试成功。")
    } else {
        owned("Your CodexNotify connection is working.")
    };
    Notification {
        event_key: owned("manual-test"),
        bark_id: owned(bark_id),
        event_type: owned("Test"),
        session_id: String::new(),
        turn_id: String::new(),
        project: owned("CodexNotify"),
        cwd: String::new(),
        title,
        subtitle: String::new(),
        body,
        group: settings.group.clone(),
        level: settings.level.clone(),
        sound: settings.sound.clone(),
        icon: settings.bark_icon.clone(),
        url: settings.click_url.clone(),
        markdown: settings.bark_markdown,
        image: settings.bark_image.clone(),
        volume: settings.bark_volume,
        badge: settings.bark_badge,
        call: settings.bark_call,
        auto_copy: settings.bark_auto_copy,
        copy: settings.bark_copy.clone(),
        archive: settings.bark_archive,
        ttl: settings.bark_ttl,
        action: settings.bark_action.clone(),
        suppressed: false,
        suppress_reason: String::new(),
    }
}

/// What the hook delivery test concludes from the diagnostic health report.
pub struct HookTestOutcome {
    pub ok: bool,
    pub delivery_status: String,
    pub error_code: String,
    pub message: String,
}

/// A text field of the report.
pub open spec fn field(health: JsonV, key: Seq<char>) -> Option<Seq<char>> {
    str_of(get_v(health, key))
}

fn field_of<'a>(health: &'a Json, key: &str) -> (r: Option<&'a str>)
    ensures
        match r {
            Some(t) => field(health@, key@) == Some(t@),
            None => field(health@, key@) is None,
        },
{
    match health.get(key) {
        Some(v) => v.as_str(),
        None => None,
    }
}

/// The delivery test passed when the report is about this test's turn, the
/// run succeeded and the notification was sent; without an error code, a
/// report about another turn means the hook was not invoked.
pub fn hook_test_outcome(health: &Json, turn_id: &str) -> (r: HookTestOutcome)
    ensures
        ({
            let matching = field(health@, "turnId"@) == Some(turn_id@);
            let status = match field(health@, "status"@) {
                Some(s) => s,
                None => "error"@,
            };
            let delivery = match field(health@, "deliveryStatus"@) {
                Some(s) => s,
                None => "unknown"@,
            };
            &&& r.delivery_status@ == delivery
            &&& r.error_code@ == match field(health@, "errorCode"@) {
                Some(s) => s,
                None => if matching {
                    Seq::<char>::empty()
                } else {
                    "hookNotInvoked"@
                },
            }
            &&& r.message@ == or_empty(field(health@, "message"@))
            &&& r.ok == (matching && status == "success"@ && delivery == "sent"@)
        }),
{
    let matching = match field_of(health, "turnId") {
        Some(t) => same_text(t, turn_id),
        None => false,
    };
    let status = match field_of(health, "status") {
        Some(s) => s,
        None => "error",
    };
    let delivery = match field_of(health, "deliveryStatus") {
        Some(s) => owned(s),
        None => owned("unknown"),
    };
    let error_code = match field_of(health, "errorCode") {
        Some(s) => owned(s),
        None => if matching {
            String::new()
        } else {
            owned("hookNotInvoked")
        },
    };
    let message = match field_of(health, "message") {
        Some(s) => owned(s),
        None => String::new(),
    };
    let ok = matching && same_text(status, "success") && same_text(delivery.as_str(), "sent");
    HookTestOutcome { ok, delivery_status: delivery, error_code, message }
}

/// The notification that replaces a sent one: addressed like the one it replaces,
/// titled with the device and the record's project, with the new body
/// trimmed (and redacted when redaction is on), which must not be empty.
/// Only sent notifications can be edited.
pub fn remote_update(
    record: &EventRecord,
    stored: Notification,
    settings: &AppSettings,
    body: &str,
) -> (r: CoreResult<Notification>)
    ensures
        record.status != EventStatus::Sent ==> (r matches Err(CoreError::InvalidConfig(m)) && m@
            == "only sent notifications can be updated"@),
        record.status == EventStatus::Sent ==> ({
            let text = if settings.redact_sensitive {
                redact_spec(trim_spec(body@))
            } else {
                trim_spec(body@)
            };
            if text.len() == 0 {
                r matches Err(CoreError::InvalidConfig(m)) && m@ == "notification body cannot be empty"@
            } else {
                r matches Ok(n) && n.body@ == text && n.title@ == trim_spec(settings.device_name@) + " · "@
                    + record.project@ && n.bark_id@ == (if stored.bark_id@.len() == 0 {
                    record.event_key@
                } else {
                    stored.bark_id@
                }) && n.event_key == stored.event_key
            }
        }),
{
    if record.status != EventStatus::Sent {
        return Err(CoreError::InvalidConfig(owned("only sent notifications can be updated")));
    }
    let mut n = crate::dispatcher::notification_for(record, stored);
    let mut title = trim(settings.device_name.as_str());
    push_str(&mut title, " · ");
    push_str(&mut title, record.project.as_str());
    n.title = title;
    let trimmed = trim(body);
    n.body = if settings.redact_sensitive {
        redact_sensitive_text(trimmed.as_str())
    } else {
        trimmed
    };
    proof {
        reveal_strlit("");
    }
    if same_text(n.body.as_str(), "") {
        assert(n.body@.len() == 0);
        return Err(CoreError::InvalidConfig(owned("notification body cannot be empty")));
    }
    assert(n.body@.len() != 0) by {
        if n.body@.len() == 0 {
            assert(n.body@ =~= ""@);
        }
    }
    Ok(n)
}

/// How long the background worker sleeps before looking at the queue: until
/// the next due event, at most a minute, and a minute when nothing is
/// pending or the queue cannot be read.
pub fn worker_delay(next: &CoreResult<Option<u64>>) -> (r: u64)
    ensures
        r == match next {
            Ok(Some(d)) => if d < 60 {
                *d
            } else {
                60u64
            },
            _ => 60u64,
        },
{
    match next {
        Ok(Some(d)) => if *d < 60 {
            *d
        } else {
            60
        },
        _ => 60,
    }
}

/// How long the background worker pauses after a dispatch: a minute when
/// nothing was delivered (credentials missing, or another process owns the
/// claim), half a minute after an error, else not at all.
pub fn pause_after_dispatch(result: &CoreResult<Vec<DispatchResult>>) -> (r: u64)
    ensures
        r == match result {
            Ok(v) => if v@.len() == 0 {
                60u64
            } else {
                0u64
            },
            Err(_) => 30u64,
        },
{
    match result {
        Ok(v) => if v.len() == 0 {
            60
        } else {
            0
        },
        Err(_) => 30,
    }
}

/// A path that is a filesystem root (or empty): it has no parent.
pub open spec fn is_root_spec(p: Seq<char>) -> bool {
    let c = components_spec(p);
    c.len() == 0 || c.last() == seq!['/']
}

/// Whether the application may remove its data on uninstall: a custom or
/// environment-given root that is a filesystem root is refused, even after
/// confirmation.
pub fn validate_uninstall_location(storage: &StorageInfo) -> (r: Result<(), ApiError>)
    ensures
        ((storage.mode == StorageMode::Custom || storage.mode == StorageMode::Environment) && is_root_spec(
            storage.root@,
        )) ==> (r matches Err(e) && e.code@ == "applicationUninstallUnsafeLocation"@ && e.message@
            == "the selected application data root is a filesystem root"@),
        !((storage.mode == StorageMode::Custom || storage.mode == StorageMode::Environment) && is_root_spec(
            storage.root@,
        )) ==> r is Ok,
{
    let user_chosen = match storage.mode {
        StorageMode::Custom => true,
        StorageMode::Environment => true,
        _ => false,
    };
    if user_chosen {
        let c = components(storage.root.as_str());
        let root = c.len() == 0 || same_text(c[c.len() - 1].as_str(), "/");
        proof {
            if c.len() > 0 {
                assert(strs_v(c@).last() == c@[c@.len() - 1]@);
                reveal_strlit("/");
                assert("/"@ =~= seq!['/']);
            }
        }
        if root {
            return Err(
                ApiError {
                    code: "applicationUninstallUnsafeLocation",
                    message: owned("the selected application data root is a filesystem root"),
                },
            );
        }
    }
    Ok(())
}

/// Calls `dunce::simplified` on `p` and takes the path's text. What it gives
/// depends on the platform (Windows UNC paths are simplified there, other
/// platforms keep every path as it is), so nothing is stated of it.
#[verifier::external_body]
fn simplify_path(p: &str) -> (r: String) {
    dunce::simplified(std::path::Path::new(p)).to_string_lossy().into_owned()
}

/// The program's own file, which uninstalling removes: the AppImage it was
/// started from, when there is one, else its executable as
/// `dunce::simplified` gives it.
pub fn application_binary(app_image: Option<&str>, executable: &str) -> (r: String)
    ensures
        app_image matches Some(a) ==> r@ == a@,
{
    match app_image {
        Some(a) => owned(a),
        None => simplify_path(executable),
    }
}

} // verus!
