//! The decisions of the hook process: which events it handles, where
//! processing ends before delivery, and what its health report says.

use vstd::prelude::*;
use crate::error::{details_spec, error_details, CoreError};
use crate::notification::{
    is_input_request_spec, is_user_input_request, should_notify_in, should_notify_spec, HookEvent,
    Notification,
};
use crate::json::{get_v, Json, JsonV};
use crate::paths::{join_spec, AppPaths};
use crate::settings::AppSettings;
use crate::store::{status_text, EventRecord};
use crate::text::{owned, same_text};

verus! {

/// What the hook process reports of its last run.
pub struct HookHealth {
    pub status: String,
    pub stage: String,
    pub event_type: String,
    pub delivery_status: String,
    pub last_attempt_at: String,
    pub last_success_at: Option<String>,
    pub error_code: String,
    pub message: String,
    pub session_id: String,
    pub turn_id: String,
    pub project: String,
    pub cwd: String,
}

/// The input with a leading UTF-8 byte order mark removed.
pub open spec fn strip_bom_spec(input: Seq<u8>) -> Seq<u8> {
    if input.len() >= 3 && input[0] == 0xef && input[1] == 0xbb && input[2] == 0xbf {
        input.subrange(3, input.len() as int)
    } else {
        input
    }
}

/// Removes a leading UTF-8 byte order mark.
pub fn strip_bom(input: &[u8]) -> (r: Vec<u8>)
    ensures
        r@ == strip_bom_spec(input@),
{
    let start: usize = if input.len() >= 3 && input[0] == 0xef && input[1] == 0xbb && input[2] == 0xbf {
        3
    } else {
        0
    };
    let mut out: Vec<u8> = Vec::new();
    let mut i: usize = start;
    while i < input.len()
        invariant
            start <= i <= input@.len(),
            out@ == input@.subrange(start as int, i as int),
        decreases input.len() - i,
    {
        out.push(input[i]);
        i = i + 1;
        assert(out@ =~= input@.subrange(start as int, i as int));
    }
    assert(input@.subrange(0, input@.len() as int) =~= input@);
    out
}

/// The events the hook delivers: finished turns, permission requests, and
/// requests for the user's input.
pub open spec fn handled_spec(e: HookEvent) -> bool {
    e.hook_event_name@ == "Stop"@ || e.hook_event_name@ == "PermissionRequest"@ || is_input_request_spec(e)
}

/// Whether the hook delivers events of this kind; others are ignored.
pub fn is_handled(event: &HookEvent) -> (r: bool)
    ensures
        r == handled_spec(*event),
{
    same_text(event.hook_event_name.as_str(), "Stop") || same_text(event.hook_event_name.as_str(), "PermissionRequest")
        || is_user_input_request(event)
}

/// Where an event the hook does not handle stops: it is ignored; `None` for
/// a handled event.
pub fn unhandled_outcome(event: &HookEvent) -> (r: Option<(&'static str, &'static str)>)
    ensures
        handled_spec(*event) ==> r is None,
        !handled_spec(*event) ==> (r matches Some(x) && x.0@ == "ignored"@ && x.1@ == "ignored"@),
{
    if is_handled(event) {
        None
    } else {
        Some(("ignored", "ignored"))
    }
}

/// Whether the raw hook input asks for a diagnostic run: its `diagnostic`
/// field, when the input is a JSON object with a boolean there.
pub open spec fn diagnostic_spec(input: Option<JsonV>) -> bool {
    match input {
        Some(j) => get_v(j, "diagnostic"@) == Some(JsonV::Bool(true)),
        None => false,
    }
}

/// Whether the hook input, parsed as JSON (`None` when it is not JSON), asks
/// for a diagnostic run; see `diagnostic_spec`.
pub fn diagnostic_flag(input: &Option<Json>) -> (r: bool)
    ensures
        r == diagnostic_spec(match input {
            Some(j) => Some(j@),
            None => None,
        }),
{
    match input {
        Some(j) => match j.get("diagnostic") {
            Some(v) => match v.as_bool() {
                Some(b) => b,
                None => false,
            },
            None => false,
        },
        None => false,
    }
}

/// Where a handled event stops before it is queued, as (stage, delivery
/// status): permission requests and input requests whose notifications are
/// turned off, and events outside the project scope (unless it is a
/// diagnostic run); `None` when it goes on.
pub open spec fn filter_spec(e: HookEvent, s: AppSettings, base: Seq<char>) -> Option<(Seq<char>, Seq<char>)> {
    if e.hook_event_name@ == "PermissionRequest"@ && !s.permission_notifications {
        Some(("filtered"@, "disabled"@))
    } else if is_input_request_spec(e) && !s.user_input_notifications {
        Some(("filtered"@, "disabled"@))
    } else if !e.diagnostic && !should_notify_spec(e.cwd@, s, base) {
        Some(("filtered"@, "filtered"@))
    } else {
        None
    }
}

/// Where a handled event stops before it is queued, relative paths read
/// against `base`; see `filter_spec`.
pub fn filter_outcome_in(event: &HookEvent, settings: &AppSettings, base: &str) -> (r: Option<(&'static str, &'static str)>)
    ensures
        match r {
            Some(x) => filter_spec(*event, *settings, base@) == Some((x.0@, x.1@)),
            None => filter_spec(*event, *settings, base@) is None,
        },
{
    if same_text(event.hook_event_name.as_str(), "PermissionRequest") && !settings.permission_notifications {
        return Some(("filtered", "disabled"));
    }
    if is_user_input_request(event) && !settings.user_input_notifications {
        return Some(("filtered", "disabled"));
    }
    if !event.diagnostic && !should_notify_in(event.cwd.as_str(), settings, base) {
        return Some(("filtered", "filtered"));
    }
    None
}

/// Where a handled event stops before it is queued, relative paths read
/// against this process's working directory; see `filter_spec`.
pub fn filter_outcome(event: &HookEvent, settings: &AppSettings) -> (r: Option<(&'static str, &'static str)>)
    ensures
        exists|base: Seq<char>|
            match r {
                Some(x) => filter_spec(*event, *settings, base) == Some((x.0@, x.1@)),
                None => filter_spec(*event, *settings, base) is None,
            },
{
    let base = crate::notification::working_directory();
    filter_outcome_in(event, settings, base.as_str())
}

/// Whether a queued notification is delivered at once: only when it was
/// newly queued and is not suppressed.
pub fn should_dispatch(created: bool, n: &Notification) -> (r: bool)
    ensures
        r == (created && !n.suppressed),
{
    created && !n.suppressed
}

/// The delivery status reported for the queued record: its status, or
/// "unknown" when it is gone.
pub fn delivery_label(record: &Option<EventRecord>) -> (r: &'static str)
    ensures
        r@ == match record {
            Some(x) => status_text(x.status),
            None => "unknown"@,
        },
{
    match record {
        Some(x) => x.status.label(),
        None => "unknown",
    }
}

/// The stage reached by a queued notification.
pub fn final_stage(n: &Notification) -> (r: &'static str)
    ensures
        r@ == (if n.suppressed {
            "suppressed"@
        } else {
            "processed"@
        }),
{
    if n.suppressed {
        "suppressed"
    } else {
        "processed"
    }
}

/// The health report of a run that succeeded.
pub fn success_health(
    event: &HookEvent,
    project: &str,
    stage: &str,
    delivery_status: &str,
    attempted_at: &str,
    succeeded_at: &str,
) -> (r: HookHealth)
    ensures
        r.status@ == "success"@,
        r.stage@ == stage@,
        r.event_type@ == event.hook_event_name@,
        r.delivery_status@ == delivery_status@,
        r.last_attempt_at@ == attempted_at@,
        r.last_success_at matches Some(t) && t@ == succeeded_at@,
        r.error_code@.len() == 0,
        r.message@.len() == 0,
        r.session_id@ == event.session_id@,
        r.turn_id@ == event.turn_id@,
        r.project@ == project@,
        r.cwd@ == event.cwd@,
{
    HookHealth {
        status: owned("success"),
        stage: owned(stage),
        event_type: event.hook_event_name.clone(),
        delivery_status: owned(delivery_status),
        last_attempt_at: owned(attempted_at),
        last_success_at: Some(owned(succeeded_at)),
        error_code: String::new(),
        message: String::new(),
        session_id: event.session_id.clone(),
        turn_id: event.turn_id.clone(),
        project: owned(project),
        cwd: event.cwd.clone(),
    }
}

/// The health report of a run that failed: the error's code and message,
/// and nothing of the event.
pub fn error_health(error: &CoreError, attempted_at: &str) -> (r: HookHealth)
    ensures
        r.status@ == "error"@,
        r.stage@ == "processing"@,
        r.event_type@.len() == 0,
        r.delivery_status@ == "failed"@,
        r.last_attempt_at@ == attempted_at@,
        r.last_success_at is None,
        (r.error_code@, r.message@) == details_spec(*error),
        r.session_id@.len() == 0,
        r.turn_id@.len() == 0,
        r.project@.len() == 0,
        r.cwd@.len() == 0,
{
    let (code, message) = error_details(error);
    HookHealth {
        status: owned("error"),
        stage: owned("processing"),
        event_type: String::new(),
        delivery_status: owned("failed"),
        last_attempt_at: owned(attempted_at),
        last_success_at: None,
        error_code: owned(code),
        message: owned(message),
        session_id: String::new(),
        turn_id: String::new(),
        project: String::new(),
        cwd: String::new(),
    }
}

/// Where the health report goes: diagnostic runs have a file of their own,
/// so that they do not mask what real Codex activity reported.
pub fn health_path(paths: &AppPaths, diagnostic: bool) -> (r: String)
    ensures
        r@ == join_spec(
            paths.data_dir@,
            if diagnostic {
                "hook-diagnostic.json"@
            } else {
                "hook-health.json"@
            },
        ),
{
    if diagnostic {
        paths.diagnostic_health_file()
    } else {
        paths.health_file()
    }
}

/// A diagnostic run reports to another file than real Codex activity, so
/// that it never overwrites what a real run reported.
pub proof fn lemma_diagnostic_report_is_separate(data_dir: Seq<char>)
    ensures
        join_spec(data_dir, "hook-diagnostic.json"@) != join_spec(data_dir, "hook-health.json"@),
{
    reveal_strlit("hook-diagnostic.json");
    reveal_strlit("hook-health.json");
    let a = join_spec(data_dir, "hook-diagnostic.json"@);
    let b = join_spec(data_dir, "hook-health.json"@);
    assert(a.len() != b.len());
}

} // verus!
