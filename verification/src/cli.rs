//! The command-line tool's rules: reading numbers and switches the way Rust's
//! `FromStr` reads them, changing one setting, the arguments of `init`,
//! `events` and `daemon`, and the test notification.

use vstd::prelude::*;
use crate::error::{CoreError, CoreResult};
use crate::json::{decimal_spec, push_str, signed_decimal_spec};
use crate::notification::Notification;
use crate::settings::{validate_spec, AppSettings};
use crate::text::{owned, same_text};

verus! {

/// What `bool::from_str` reads: exactly `true` or `false`.
pub open spec fn bool_text(s: Seq<char>) -> Option<bool> {
    if s == "true"@ {
        Some(true)
    } else if s == "false"@ {
        Some(false)
    } else {
        None
    }
}

/// Reads a switch as `bool::from_str` does.
pub fn parse_bool(s: &str) -> (r: Option<bool>)
    ensures
        r == bool_text(s@),
{
    if same_text(s, "true") {
        Some(true)
    } else if same_text(s, "false") {
        Some(false)
    } else {
        None
    }
}

pub open spec fn is_digit(c: char) -> bool {
    '0' <= c <= '9'
}

pub open spec fn all_digits(s: Seq<char>) -> bool {
    forall|i: int| 0 <= i < s.len() ==> is_digit(#[trigger] s[i])
}

/// The value of a string of decimal digits.
pub open spec fn digits_value(s: Seq<char>) -> nat
    decreases s.len(),
{
    if s.len() == 0 {
        0
    } else {
        digits_value(s.drop_last()) * 10 + ((s.last() as int) - ('0' as int)) as nat
    }
}

/// The magnitude a number's digits give, when there is at least one digit
/// and nothing else.
pub open spec fn magnitude(s: Seq<char>) -> Option<nat> {
    if s.len() > 0 && all_digits(s) {
        Some(digits_value(s))
    } else {
        None
    }
}

/// What an unsigned `from_str` reads before its range check: digits, after
/// an optional `+`.
pub open spec fn unsigned_text(s: Seq<char>) -> Option<nat> {
    if s.len() > 0 && s[0] == '+' {
        magnitude(s.drop_first())
    } else {
        magnitude(s)
    }
}

/// What a signed `from_str` reads before its range check: digits after an
/// optional `+` or `-`.
pub open spec fn signed_text(s: Seq<char>) -> Option<int> {
    if s.len() > 0 && s[0] == '-' {
        match magnitude(s.drop_first()) {
            Some(m) => Some(-(m as int)),
            None => None,
        }
    } else {
        match unsigned_text(s) {
            Some(m) => Some(m as int),
            None => None,
        }
    }
}

pub open spec fn u64_text(s: Seq<char>) -> Option<u64> {
    match unsigned_text(s) {
        Some(m) => if m <= u64::MAX {
            Some(m as u64)
        } else {
            None
        },
        None => None,
    }
}

pub open spec fn u32_text(s: Seq<char>) -> Option<u32> {
    match unsigned_text(s) {
        Some(m) => if m <= u32::MAX {
            Some(m as u32)
        } else {
            None
        },
        None => None,
    }
}

pub open spec fn u8_text(s: Seq<char>) -> Option<u8> {
    match unsigned_text(s) {
        Some(m) => if m <= u8::MAX {
            Some(m as u8)
        } else {
            None
        },
        None => None,
    }
}

pub open spec fn i64_text(s: Seq<char>) -> Option<i64> {
    match signed_text(s) {
        Some(m) => if i64::MIN <= m <= i64::MAX {
            Some(m as i64)
        } else {
            None
        },
        None => None,
    }
}

proof fn lemma_digits_value_grows(s: Seq<char>, k: int)
    requires
        0 <= k <= s.len(),
        all_digits(s),
    ensures
        digits_value(s.take(k)) <= digits_value(s),
    decreases s.len() - k,
{
    if k < s.len() {
        lemma_digits_value_grows(s, k + 1);
        assert(s.take(k + 1).drop_last() =~= s.take(k));
        assert(is_digit(s[k]));
    } else {
        assert(s.take(k) =~= s);
    }
}

/// The digits of `v` from `start` on, as a number no larger than `u64::MAX`;
/// `None` when there are none, when any is not a digit, or when the number
/// is larger.
fn parse_magnitude(v: &Vec<char>, start: usize) -> (r: Option<u64>)
    requires
        start <= v@.len(),
    ensures
        match magnitude(v@.subrange(start as int, v@.len() as int)) {
            Some(m) => if m <= u64::MAX {
                r == Some(m as u64)
            } else {
                r is None
            },
            None => r is None,
        },
{
    let ghost s = v@.subrange(start as int, v@.len() as int);
    if start >= v.len() {
        return None;
    }
    let mut acc: u64 = 0;
    let mut i: usize = start;
    while i < v.len()
        invariant
            start <= i <= v@.len(),
            s == v@.subrange(start as int, v@.len() as int),
            all_digits(s.take(i - start)),
            acc == digits_value(s.take(i - start)),
        decreases v.len() - i,
    {
        let c = v[i];
        let ghost t = s.take(i - start + 1);
        assert(t.drop_last() =~= s.take(i - start));
        assert(t.last() == c);
        if !('0' <= c && c <= '9') {
            assert(!all_digits(s)) by {
                assert(!is_digit(s[i - start]));
            }
            return None;
        }
        let d: u64 = ((c as u32) - 48) as u64;
        assert(d as int == (c as int) - ('0' as int));
        if acc > (u64::MAX - d) / 10 {
            proof {
                assert(digits_value(t) > u64::MAX) by (nonlinear_arith)
                    requires
                        digits_value(t) == acc * 10 + d,
                        acc > (u64::MAX - d) / 10,
                        d <= 9,
                ;
                if all_digits(s) {
                    lemma_digits_value_grows(s, i - start + 1);
                }
            }
            return None;
        }
        assert(acc * 10 + d <= u64::MAX) by (nonlinear_arith)
            requires
                acc <= (u64::MAX - d) / 10,
                d <= 9,
        ;
        acc = acc * 10 + d;
        i = i + 1;
        assert(all_digits(s.take(i - start)));
    }
    assert(s.take(i - start) =~= s);
    Some(acc)
}

/// Reads an unsigned number as `u64::from_str` does.
pub fn parse_u64(s: &str) -> (r: Option<u64>)
    ensures
        r == u64_text(s@),
{
    let v = crate::text::chars_of(s);
    if v.len() > 0 && v[0] == '+' {
        assert(v@.subrange(1, v@.len() as int) =~= s@.drop_first());
        parse_magnitude(&v, 1)
    } else {
        assert(v@.subrange(0, v@.len() as int) =~= s@);
        parse_magnitude(&v, 0)
    }
}

/// Reads an unsigned number as `u32::from_str` does.
pub fn parse_u32(s: &str) -> (r: Option<u32>)
    ensures
        r == u32_text(s@),
{
    match parse_u64(s) {
        Some(n) => if n <= u32::MAX as u64 {
            Some(n as u32)
        } else {
            None
        },
        None => None,
    }
}

/// Reads an unsigned number as `u8::from_str` does.
pub fn parse_u8(s: &str) -> (r: Option<u8>)
    ensures
        r == u8_text(s@),
{
    match parse_u64(s) {
        Some(n) => if n <= 255 {
            Some(n as u8)
        } else {
            None
        },
        None => None,
    }
}

/// Reads a signed number as `i64::from_str` does.
pub fn parse_i64(s: &str) -> (r: Option<i64>)
    ensures
        r == i64_text(s@),
{
    let v = crate::text::chars_of(s);
    if v.len() > 0 && v[0] == '-' {
        assert(v@.subrange(1, v@.len() as int) =~= s@.drop_first());
        match parse_magnitude(&v, 1) {
            Some(m) => if m <= 9223372036854775808u64 {
                if m == 9223372036854775808u64 {
                    Some(i64::MIN)
                } else {
                    Some(-(m as i64))
                }
            } else {
                None
            },
            None => None,
        }
    } else {
        match parse_u64(s) {
            Some(n) => if n <= i64::MAX as u64 {
                Some(n as i64)
            } else {
                None
            },
            None => None,
        }
    }
}

/// Whether the result is what validating `s` gives.
pub open spec fn validated(r: Result<(), CoreError>, s: AppSettings) -> bool {
    match validate_spec(s) {
        Ok(()) => r is Ok,
        Err(m) => r matches Err(CoreError::InvalidConfig(x)) && x@ == m,
    }
}

/// The refusal of a switch value for `key`.
pub open spec fn bool_refused(r: Result<(), CoreError>, key: Seq<char>) -> bool {
    r matches Err(CoreError::InvalidConfig(m)) && m@ == key + " expects true or false"@
}

/// The refusal of a number value for `key`.
pub open spec fn number_refused(r: Result<(), CoreError>, key: Seq<char>) -> bool {
    r matches Err(CoreError::InvalidConfig(m)) && m@ == key + " expects a number"@
}

fn bool_error(key: &str) -> (r: Result<(), CoreError>)
    ensures
        bool_refused(r, key@),
{
    let mut m = owned(key);
    push_str(&mut m, " expects true or false");
    Err(CoreError::InvalidConfig(m))
}

fn number_error(key: &str) -> (r: Result<(), CoreError>)
    ensures
        number_refused(r, key@),
{
    let mut m = owned(key);
    push_str(&mut m, " expects a number");
    Err(CoreError::InvalidConfig(m))
}

/// What setting `key` to `value` does: the named setting takes the value
/// (`true`/`false` for switches, a number where one is expected) and the
/// settings are validated; a value that does not parse, or an unknown key,
/// changes nothing and is refused.
pub open spec fn setting_effect(old: AppSettings, key: Seq<char>, value: Seq<char>, new: AppSettings, r: Result<(), CoreError>) -> bool {
    if key == "enabled"@ {
        match bool_text(value) {
            Some(b) => new == (AppSettings { enabled: b, ..old }) && validated(r, new),
            None => bool_refused(r, key) && new == old,
        }
    } else if key == "bark-server"@ {
        new.bark_server@ == value && new == (AppSettings { bark_server: new.bark_server, ..old }) && validated(r, new)
    } else if key == "group"@ {
        new.group@ == value && new == (AppSettings { group: new.group, ..old }) && validated(r, new)
    } else if key == "level"@ {
        new.level@ == value && new == (AppSettings { level: new.level, ..old }) && validated(r, new)
    } else if key == "sound"@ {
        new.sound@ == value && new == (AppSettings { sound: new.sound, ..old }) && validated(r, new)
    } else if key == "bark-markdown"@ {
        match bool_text(value) {
            Some(b) => new == (AppSettings { bark_markdown: b, ..old }) && validated(r, new),
            None => bool_refused(r, key) && new == old,
        }
    } else if key == "bark-image"@ {
        new.bark_image@ == value && new == (AppSettings { bark_image: new.bark_image, ..old }) && validated(r, new)
    } else if key == "bark-call"@ {
        match bool_text(value) {
            Some(b) => new == (AppSettings { bark_call: b, ..old }) && validated(r, new),
            None => bool_refused(r, key) && new == old,
        }
    } else if key == "bark-auto-copy"@ {
        match bool_text(value) {
            Some(b) => new == (AppSettings { bark_auto_copy: b, ..old }) && validated(r, new),
            None => bool_refused(r, key) && new == old,
        }
    } else if key == "bark-copy"@ {
        new.bark_copy@ == value && new == (AppSettings { bark_copy: new.bark_copy, ..old }) && validated(r, new)
    } else if key == "bark-action"@ {
        new.bark_action@ == value && new == (AppSettings { bark_action: new.bark_action, ..old }) && validated(r, new)
    } else if key == "bark-volume"@ {
        match u8_text(value) {
            Some(n) => new == (AppSettings { bark_volume: Some(n), ..old }) && validated(r, new),
            None => number_refused(r, "bark-volume"@) && new == old,
        }
    } else if key == "bark-badge"@ {
        match i64_text(value) {
            Some(n) => new == (AppSettings { bark_badge: Some(n), ..old }) && validated(r, new),
            None => number_refused(r, "bark-badge"@) && new == old,
        }
    } else if key == "bark-archive"@ {
        match bool_text(value) {
            Some(b) => new == (AppSettings { bark_archive: Some(b), ..old }) && validated(r, new),
            None => bool_refused(r, key) && new == old,
        }
    } else if key == "bark-ttl"@ {
        match u64_text(value) {
            Some(n) => new == (AppSettings { bark_ttl: Some(n), ..old }) && validated(r, new),
            None => number_refused(r, "bark-ttl"@) && new == old,
        }
    } else if key == "message-mode"@ {
        new.message_mode@ == value && new == (AppSettings { message_mode: new.message_mode, ..old }) && validated(r, new)
    } else if key == "device-name"@ {
        new.device_name@ == value && new == (AppSettings { device_name: new.device_name, ..old }) && validated(r, new)
    } else if key == "permission-notifications"@ {
        match bool_text(value) {
            Some(b) => new == (AppSettings { permission_notifications: b, ..old }) && validated(r, new),
            None => bool_refused(r, key) && new == old,
        }
    } else if key == "user-input-notifications"@ {
        match bool_text(value) {
            Some(b) => new == (AppSettings { user_input_notifications: b, ..old }) && validated(r, new),
            None => bool_refused(r, key) && new == old,
        }
    } else if key == "redact-sensitive"@ {
        match bool_text(value) {
            Some(b) => new == (AppSettings { redact_sensitive: b, ..old }) && validated(r, new),
            None => bool_refused(r, key) && new == old,
        }
    } else if key == "quiet-hours-enabled"@ {
        match bool_text(value) {
            Some(b) => new == (AppSettings { quiet_hours_enabled: b, ..old }) && validated(r, new),
            None => bool_refused(r, key) && new == old,
        }
    } else if key == "quiet-start"@ {
        new.quiet_start@ == value && new == (AppSettings { quiet_start: new.quiet_start, ..old }) && validated(r, new)
    } else if key == "quiet-end"@ {
        new.quiet_end@ == value && new == (AppSettings { quiet_end: new.quiet_end, ..old }) && validated(r, new)
    } else if key == "quiet-action"@ {
        new.quiet_action@ == value && new == (AppSettings { quiet_action: new.quiet_action, ..old }) && validated(r, new)
    } else if key == "request-timeout"@ {
        match u64_text(value) {
            Some(n) => new == (AppSettings { request_timeout: n, ..old }) && validated(r, new),
            None => number_refused(r, "request-timeout"@) && new == old,
        }
    } else if key == "retry-limit"@ {
        match u32_text(value) {
            Some(n) => new == (AppSettings { retry_limit: n, ..old }) && validated(r, new),
            None => number_refused(r, "retry-limit"@) && new == old,
        }
    } else if key == "encryption-enabled"@ {
        match bool_text(value) {
            Some(b) => new == (AppSettings { encryption_enabled: b, ..old }) && validated(r, new),
            None => bool_refused(r, key) && new == old,
        }
    } else if key == "encryption-algorithm"@ {
        new.encryption_algorithm@ == value && new == (AppSettings { encryption_algorithm: new.encryption_algorithm, ..old }) && validated(r, new)
    } else {
        new == old && (r matches Err(CoreError::InvalidConfig(m)) && m@ == "unsupported setting '"@ + key + "'"@)
    }
}

/// Changes one setting from the command line; see `setting_effect`.
pub fn set_setting(settings: &mut AppSettings, key: &str, value: &str) -> (r: Result<(), CoreError>)
    ensures
        setting_effect(*old(settings), key@, value@, *final(settings), r),
{
    if same_text(key, "enabled") {
        match parse_bool(value) {
            Some(b) => {
                settings.enabled = b;
                return settings.validate();
            },
            None => return bool_error(key),
        }
    }
    if same_text(key, "bark-server") {
        settings.bark_server = owned(value);
        return settings.validate();
    }
    if same_text(key, "group") {
        settings.group = owned(value);
        return settings.validate();
    }
    if same_text(key, "level") {
        settings.level = owned(value);
        return settings.validate();
    }
    if same_text(key, "sound") {
        settings.sound = owned(value);
        return settings.validate();
    }
    if same_text(key, "bark-markdown") {
        match parse_bool(value) {
            Some(b) => {
                settings.bark_markdown = b;
                return settings.validate();
            },
            None => return bool_error(key),
        }
    }
    if same_text(key, "bark-image") {
        settings.bark_image = owned(value);
        return settings.validate();
    }
    if same_text(key, "bark-call") {
        match parse_bool(value) {
            Some(b) => {
                settings.bark_call = b;
                return settings.validate();
            },
            None => return bool_error(key),
        }
    }
    if same_text(key, "bark-auto-copy") {
        match parse_bool(value) {
            Some(b) => {
                settings.bark_auto_copy = b;
                return settings.validate();
            },
            None => return bool_error(key),
        }
    }
    if same_text(key, "bark-copy") {
        settings.bark_copy = owned(value);
        return settings.validate();
    }
    if same_text(key, "bark-action") {
        settings.bark_action = owned(value);
        return settings.validate();
    }
    if same_text(key, "bark-volume") {
        match parse_u8(value) {
            Some(n) => {
                settings.bark_volume = Some(n);
                return settings.validate();
            },
            None => return number_error("bark-volume"),
        }
    }
    if same_text(key, "bark-badge") {
        match parse_i64(value) {
            Some(n) => {
                settings.bark_badge = Some(n);
                return settings.validate();
            },
            None => return number_error("bark-badge"),
        }
    }
    if same_text(key, "bark-archive") {
        match parse_bool(value) {
            Some(b) => {
                settings.bark_archive = Some(b);
                return settings.validate();
            },
            None => return bool_error(key),
        }
    }
    if same_text(key, "bark-ttl") {
        match parse_u64(value) {
            Some(n) => {
                settings.bark_ttl = Some(n);
                return settings.validate();
            },
            None => return number_error("bark-ttl"),
        }
    }
    if same_text(key, "message-mode") {
        settings.message_mode = owned(value);
        return settings.validate();
    }
    if same_text(key, "device-name") {
        settings.device_name = owned(value);
        return settings.validate();
    }
    if same_text(key, "permission-notifications") {
        match parse_bool(value) {
            Some(b) => {
                settings.permission_notifications = b;
                return settings.validate();
            },
            None => return bool_error(key),
        }
    }
    if same_text(key, "user-input-notifications") {
        match parse_bool(value) {
            Some(b) => {
                settings.user_input_notifications = b;
                return settings.validate();
            },
            None => return bool_error(key),
        }
    }
    if same_text(key, "redact-sensitive") {
        match parse_bool(value) {
            Some(b) => {
                settings.redact_sensitive = b;
                return settings.validate();
            },
            None => return bool_error(key),
        }
    }
    if same_text(key, "quiet-hours-enabled") {
        match parse_bool(value) {
            Some(b) => {
                settings.quiet_hours_enabled = b;
                return settings.validate();
            },
            None => return bool_error(key),
        }
    }
    if same_text(key, "quiet-start") {
        settings.quiet_start = owned(value);
        return settings.validate();
    }
    if same_text(key, "quiet-end") {
        settings.quiet_end = owned(value);
        return settings.validate();
    }
    if same_text(key, "quiet-action") {
        settings.quiet_action = owned(value);
        return settings.validate();
    }
    if same_text(key, "request-timeout") {
        match parse_u64(value) {
            Some(n) => {
                settings.request_timeout = n;
                return settings.validate();
            },
            None => return number_error("request-timeout"),
        }
    }
    if same_text(key, "retry-limit") {
        match parse_u32(value) {
            Some(n) => {
                settings.retry_limit = n;
                return settings.validate();
            },
            None => return number_error("retry-limit"),
        }
    }
    if same_text(key, "encryption-enabled") {
        match parse_bool(value) {
            Some(b) => {
                settings.encryption_enabled = b;
                return settings.validate();
            },
            None => return bool_error(key),
        }
    }
    if same_text(key, "encryption-algorithm") {
        settings.encryption_algorithm = owned(value);
        return settings.validate();
    }
    let mut m = owned("unsupported setting '");
    push_str(&mut m, key);
    push_str(&mut m, "'");
    Err(CoreError::InvalidConfig(m))
}

/// How many events `events list` shows: the number given, else 20.
pub fn events_limit(arg: Option<&str>) -> (r: u32)
    ensures
        r == match arg {
            Some(a) => match u32_text(a@) {
                Some(n) => n,
                None => 20,
            },
            None => 20,
        },
{
    match arg {
        Some(a) => match parse_u32(a) {
            Some(n) => n,
            None => 20,
        },
        None => 20,
    }
}

/// Which events `events retry` requeues: `all` of them (`None`), or the one
/// with the id given.
pub fn retry_target(arg: Option<&str>) -> (r: CoreResult<Option<i64>>)
    ensures
        match arg {
            None => r matches Err(CoreError::InvalidConfig(m)) && m@ == "missing retry target"@,
            Some(a) => if a@ == "all"@ {
                r matches Ok(None)
            } else {
                match i64_text(a@) {
                    Some(id) => r matches Ok(Some(x)) && x == id,
                    None => r matches Err(CoreError::InvalidConfig(m)) && m@ == "retry target must be an id or all"@,
                }
            },
        },
{
    match arg {
        None => Err(CoreError::InvalidConfig(owned("missing retry target"))),
        Some(a) => if same_text(a, "all") {
            Ok(None)
        } else {
            match parse_i64(a) {
                Some(id) => Ok(Some(id)),
                None => Err(CoreError::InvalidConfig(owned("retry target must be an id or all"))),
            }
        },
    }
}

/// How long the daemon sleeps: until the next due event, between one second
/// and a minute; a minute when nothing is pending.
pub fn daemon_delay(next: Option<u64>) -> (r: u64)
    ensures
        r == match next {
            Some(d) => if d < 1 {
                1
            } else if d > 60 {
                60
            } else {
                d
            },
            None => 60,
        },
        1 <= r <= 60,
{
    let d = match next {
        Some(d) => d,
        None => 60,
    };
    if d < 1 {
        1
    } else if d > 60 {
        60
    } else {
        d
    }
}

/// The first position of `--server` among the arguments from `i` on.
pub open spec fn flag_from(args: Seq<String>, i: int) -> Option<int>
    decreases args.len() - i,
{
    if i < 0 || i >= args.len() {
        None
    } else if args[i]@ == "--server"@ {
        Some(i)
    } else {
        flag_from(args, i + 1)
    }
}

/// The first position of `--server` among the arguments.
pub open spec fn server_flag(args: Seq<String>) -> Option<int> {
    flag_from(args, 0)
}

/// What `init` does to the settings: `--server URL` sets the Bark server
/// (a missing URL is refused and changes nothing); setup is then complete.
pub fn apply_init(settings: &mut AppSettings, args: &Vec<String>) -> (r: CoreResult<()>)
    ensures
        match server_flag(args@) {
            None => r is Ok && *final(settings) == (AppSettings { setup_completed: true, ..*old(settings) }),
            Some(i) => if i + 1 < args@.len() {
                r is Ok && final(settings).bark_server@ == args@[i + 1]@ && *final(settings) == (AppSettings {
                    setup_completed: true,
                    bark_server: final(settings).bark_server,
                    ..*old(settings)
                })
            } else {
                *final(settings) == *old(settings) && (r matches Err(CoreError::InvalidConfig(m)) && m@ == "--server requires a URL"@)
            },
        },
{
    let mut i: usize = 0;
    while i < args.len()
        invariant
            i <= args@.len(),
            server_flag(args@) == flag_from(args@, i as int),
            *settings == *old(settings),
        decreases args.len() - i,
    {
        if same_text(args[i].as_str(), "--server") {
            if i + 1 >= args.len() {
                return Err(CoreError::InvalidConfig(owned("--server requires a URL")));
            }
            settings.bark_server = args[i + 1].clone();
            settings.setup_completed = true;
            return Ok(());
        }
        i = i + 1;
    }
    settings.setup_completed = true;
    Ok(())
}

/// How `status` describes the device key: stored, missing, or unreadable.
pub fn key_status_label(r: &CoreResult<Option<String>>) -> (s: &'static str)
    ensures
        s@ == match r {
            Ok(Some(_)) => "available"@,
            Ok(None) => "missing"@,
            Err(_) => "credential store unavailable; set CODEX_NOTIFY_BARK_KEY"@,
        },
{
    match r {
        Ok(Some(_)) => "available",
        Ok(None) => "missing",
        Err(_) => "credential store unavailable; set CODEX_NOTIFY_BARK_KEY",
    }
}

/// The RFC 3339 text of the UTC time `ts` seconds after 1970, as `chrono`
/// writes it, or `None` when chrono cannot represent that time.
pub uninterp spec fn rfc3339_utc(ts: i64) -> Option<Seq<char>>;

/// Calls `chrono::DateTime::from_timestamp` and `DateTime::to_rfc3339`; its
/// result is named `rfc3339_utc`.
#[verifier::external_body]
fn utc_rfc3339(ts: i64) -> (r: Option<String>)
    ensures
        match r {
            Some(t) => rfc3339_utc(ts) == Some(t@),
            None => rfc3339_utc(ts) is None,
        },
{
    chrono::DateTime::from_timestamp(ts, 0).map(|value| value.to_rfc3339())
}

/// A Unix time as `events list` shows it: RFC 3339, or the number itself
/// when it is out of range.
pub fn format_time(ts: i64) -> (r: String)
    ensures
        r@ == match rfc3339_utc(ts) {
            Some(t) => t,
            None => signed_decimal_spec(ts as int),
        },
{
    match utc_rfc3339(ts) {
        Some(t) => t,
        None => {
            let n = crate::json::number_from_i64(ts);
            match n {
                crate::json::Json::Number(x) => x.text,
                _ => {
                    assert(false);
                    String::new()
                },
            }
        },
    }
}

/// The notification `test` sends: marked as a test, from the configured
/// device, with the configured Bark options.
pub fn headless_test_notification(settings: &AppSettings, event_key: &str) -> (r: Notification)
    ensures
        r.event_key@ == event_key@,
        r.bark_id@ == event_key@,
        r.event_type@ == "Test"@,
        r.session_id@.len() == 0,
        r.turn_id@.len() == 0,
        r.project@ == "CodexNotify"@,
        r.cwd@.len() == 0,
        r.title@ == settings.device_name@ + " · CodexNotify"@,
        r.subtitle@ == "Headless test"@,
        r.body@ == "Your CodexNotify headless connection is working."@,
        r.group == settings.group,
        r.level == settings.level,
        r.sound == settings.sound,
        r.icon == settings.bark_icon,
        r.url == settings.click_url,
        r.markdown == settings.bark_markdown,
        r.image == settings.bark_image,
        r.volume == settings.bark_volume,
        r.badge == settings.bark_badge,
        r.call == settings.bark_call,
        r.auto_copy == settings.bark_auto_copy,
        r.copy == settings.bark_copy,
        r.archive == settings.bark_archive,
        r.ttl == settings.bark_ttl,
        r.action == settings.bark_action,
        !r.suppressed,
        r.suppress_reason@.len() == 0,
{
    let mut title = settings.device_name.clone();
    push_str(&mut title, " · CodexNotify");
    Notification {
        event_key: owned(event_key),
        bark_id: owned(event_key),
        event_type: owned("Test"),
        session_id: String::new(),
        turn_id: String::new(),
        project: owned("CodexNotify"),
        cwd: String::new(),
        title,
        subtitle: owned("Headless test"),
        body: owned("Your CodexNotify headless connection is working."),
        group: settings.group.clone(),
        level: settings.level.clone(),
        sound: settings.sound.clone(),
        icon: settings.bark_icon.clone(),
        url: settings.click_url.clone(),
        markdown: settings.bark_markdown,
        image: settings.bark_image.clone(),
        volume: settings.bark_volume,
        badge: settings.bark_badge,
        call: settings.bark_call,
        auto_copy: settings.bark_auto_copy,
        copy: settings.bark_copy.clone(),
        archive: settings.bark_archive,
        ttl: settings.bark_ttl,
        action: settings.bark_action.clone(),
        suppressed: false,
        suppress_reason: String::new(),
    }
}

} // verus!