//! From a Codex hook event to the notification that Bark shows: the project
//! scope, the project's name, the status, the body, quiet hours and the key
//! under which the event is stored only once.

use vstd::prelude::*;
use crate::json::{Json, JsonV, get_v, str_of, array_of, items_v};
use crate::paths::{file_name, file_name_spec, is_absolute, is_absolute_spec, join, join_spec, path_starts_with, path_starts_with_spec};
use crate::settings::{AppSettings, ProjectRule};
use crate::text::{collapse_spec, collapse_whitespace, contains, contains_spec, is_blank, owned, push_char, replace, replace_spec, same_text, take_chars, take_spec, to_lowercase, trim, trim_spec, unicode_lowercase};
use chrono::Timelike;

verus! {

/// A hook event as Codex sends it.
pub struct HookEvent {
    pub hook_event_name: String,
    pub session_id: String,
    pub turn_id: String,
    pub session_name: String,
    pub thread_name: String,
    pub tool_use_id: String,
    pub cwd: String,
    pub last_assistant_message: String,
    pub tool_name: String,
    pub tool_input: Json,
    pub diagnostic: bool,
}

/// A notification, as queued and as sent to Bark.
pub struct Notification {
    pub event_key: String,
    pub bark_id: String,
    pub event_type: String,
    pub session_id: String,
    pub turn_id: String,
    pub project: String,
    pub cwd: String,
    pub title: String,
    pub subtitle: String,
    pub body: String,
    pub group: String,
    pub level: String,
    pub sound: String,
    pub icon: String,
    pub url: String,
    pub markdown: bool,
    pub image: String,
    pub volume: Option<u8>,
    pub badge: Option<i64>,
    pub call: bool,
    pub auto_copy: bool,
    pub copy: String,
    pub archive: Option<bool>,
    pub ttl: Option<u64>,
    pub action: String,
    pub suppressed: bool,
    pub suppress_reason: String,
}

// ---------------------------------------------------------------------------
// Project scope
// ---------------------------------------------------------------------------

/// A path made absolute against the working directory `base`.
pub open spec fn normalize_spec(p: Seq<char>, base: Seq<char>) -> Seq<char> {
    if is_absolute_spec(p) {
        p
    } else {
        join_spec(base, p)
    }
}

/// `candidate` lies inside `root` (or is `root`), both read against `base`.
pub open spec fn is_within_spec(candidate: Seq<char>, root: Seq<char>, base: Seq<char>) -> bool {
    path_starts_with_spec(normalize_spec(candidate, base), normalize_spec(root, base))
}

/// An enabled rule with a path that contains `cwd`.
pub open spec fn rule_matches(rule: ProjectRule, cwd: Seq<char>, base: Seq<char>) -> bool {
    rule.enabled && rule.path@.len() > 0 && is_within_spec(cwd, rule.path@, base)
}

/// Whether an event from `cwd` is notified under `s`, with `base` the working
/// directory against which relative paths are read.
pub open spec fn should_notify_spec(cwd: Seq<char>, s: AppSettings, base: Seq<char>) -> bool {
    if !s.enabled {
        false
    } else if s.scope@ == "all"@ {
        true
    } else {
        let matched = exists|i: int|
            0 <= i < s.projects@.len() && rule_matches(s.projects@[i], cwd, base);
        if s.scope@ == "include"@ {
            matched
        } else {
            !matched
        }
    }
}

fn normalize(p: &str, base: &str) -> (r: String)
    ensures
        r@ == normalize_spec(p@, base@),
{
    if is_absolute(p) {
        owned(p)
    } else {
        join(base, p)
    }
}

/// Whether `candidate` lies inside `root`, relative paths read against `base`.
pub fn is_within(candidate: &str, root: &str, base: &str) -> (r: bool)
    ensures
        r == is_within_spec(candidate@, root@, base@),
{
    let c = normalize(candidate, base);
    let r = normalize(root, base);
    path_starts_with(c.as_str(), r.as_str())
}

fn rule_applies(rule: &ProjectRule, cwd: &str, base: &str) -> (r: bool)
    ensures
        r == rule_matches(*rule, cwd@, base@),
{
    rule.enabled && rule.path.as_str().unicode_len() > 0 && is_within(cwd, rule.path.as_str(), base)
}

/// The working directory of this process, as an absolute path, or empty when
/// it cannot be read. Calls `std::path::absolute`; the directory is not stated.
#[verifier::external_body]
pub(crate) fn working_directory() -> (r: String) {
    std::path::absolute(".").map(|p| p.to_string_lossy().into_owned()).unwrap_or_default()
}

/// Whether an event from `cwd` is notified, relative paths read against `base`.
pub fn should_notify_in(cwd: &str, settings: &AppSettings, base: &str) -> (r: bool)
    ensures
        r == should_notify_spec(cwd@, *settings, base@),
{
    if !settings.enabled {
        return false;
    }
    if same_text(settings.scope.as_str(), "all") {
        return true;
    }
    let mut matched = false;
    let mut i: usize = 0;
    while i < settings.projects.len()
        invariant
            i <= settings.projects@.len(),
            matched == exists|k: int|
                0 <= k < i && rule_matches(settings.projects@[k], cwd@, base@),
        decreases settings.projects.len() - i,
    {
        if rule_applies(&settings.projects[i], cwd, base) {
            matched = true;
        }
        i = i + 1;
    }
    if same_text(settings.scope.as_str(), "include") {
        matched
    } else {
        !matched
    }
}

/// Whether an event from `cwd` is notified under `settings`; relative paths
/// are read against this process's working directory.
pub fn should_notify(cwd: &str, settings: &AppSettings) -> (r: bool)
    ensures
        exists|base: Seq<char>| r == should_notify_spec(cwd@, *settings, base),
        is_absolute_spec(cwd@) && (forall|i: int|
            0 <= i < settings.projects@.len() ==> is_absolute_spec(settings.projects@[i].path@))
            ==> r == should_notify_spec(cwd@, *settings, Seq::empty()),
{
    let base = working_directory();
    let r = should_notify_in(cwd, settings, base.as_str());
    proof {
        if is_absolute_spec(cwd@) && (forall|i: int|
            0 <= i < settings.projects@.len() ==> is_absolute_spec(settings.projects@[i].path@)) {
            lemma_absolute_scope_ignores_base(cwd@, *settings, base@);
        }
    }
    r
}

/// Where the event's directory and every project path are absolute, the
/// working directory does not change which events are notified.
pub proof fn lemma_absolute_scope_ignores_base(cwd: Seq<char>, s: AppSettings, base: Seq<char>)
    requires
        is_absolute_spec(cwd),
        forall|i: int| 0 <= i < s.projects@.len() ==> is_absolute_spec(s.projects@[i].path@),
    ensures
        should_notify_spec(cwd, s, base) == should_notify_spec(cwd, s, Seq::empty()),
{
    assert forall|i: int| 0 <= i < s.projects@.len() implies rule_matches(s.projects@[i], cwd, base)
        == rule_matches(s.projects@[i], cwd, Seq::empty()) by {}
    let m1 = exists|i: int| 0 <= i < s.projects@.len() && rule_matches(s.projects@[i], cwd, base);
    let m2 = exists|i: int|
        0 <= i < s.projects@.len() && rule_matches(s.projects@[i], cwd, Seq::empty());
    if m1 {
        let i = choose|i: int| 0 <= i < s.projects@.len() && rule_matches(s.projects@[i], cwd, base);
        assert(rule_matches(s.projects@[i], cwd, Seq::empty()));
    }
    if m2 {
        let i = choose|i: int|
            0 <= i < s.projects@.len() && rule_matches(s.projects@[i], cwd, Seq::empty());
        assert(rule_matches(s.projects@[i], cwd, base));
    }
}

/// A disabled rule has no effect on the scope: removing it from the
/// settings leaves every decision as it was.
pub proof fn lemma_disabled_rule_ignored(cwd: Seq<char>, s: AppSettings, t: AppSettings, i: int, base: Seq<char>)
    requires
        0 <= i < s.projects@.len(),
        !s.projects@[i].enabled,
        t == (AppSettings { projects: t.projects, ..s }),
        t.projects@ == s.projects@.remove(i),
    ensures
        should_notify_spec(cwd, t, base) == should_notify_spec(cwd, s, base),
{
    let ps = s.projects@;
    let qs = t.projects@;
    let m1 = exists|k: int| 0 <= k < ps.len() && rule_matches(ps[k], cwd, base);
    let m2 = exists|k: int| 0 <= k < qs.len() && rule_matches(qs[k], cwd, base);
    if m1 {
        let k = choose|k: int| 0 <= k < ps.len() && rule_matches(ps[k], cwd, base);
        assert(k != i);
        if k < i {
            assert(qs[k] == ps[k]);
        } else {
            assert(qs[k - 1] == ps[k]);
        }
    }
    if m2 {
        let k = choose|k: int| 0 <= k < qs.len() && rule_matches(qs[k], cwd, base);
        if k < i {
            assert(qs[k] == ps[k]);
        } else {
            assert(qs[k] == ps[k + 1]);
        }
    }
}

/// With no enabled rule, scope "include" notifies no event and scope
/// "exclude" every event, as long as notifications are on.
pub proof fn lemma_only_disabled_rules(cwd: Seq<char>, s: AppSettings, base: Seq<char>)
    requires
        forall|i: int| 0 <= i < s.projects@.len() ==> !(#[trigger] s.projects@[i]).enabled,
    ensures
        s.scope@ == "include"@ ==> !should_notify_spec(cwd, s, base),
        s.scope@ == "exclude"@ ==> should_notify_spec(cwd, s, base) == s.enabled,
{
    reveal_strlit("include");
    reveal_strlit("exclude");
    reveal_strlit("all");
    assert("include"@ != "all"@ && "exclude"@ != "all"@ && "exclude"@ != "include"@) by {
        assert("include"@.len() != "all"@.len());
        assert("exclude"@.len() != "all"@.len());
        assert("exclude"@[1] != "include"@[1]);
    }
}

// ---------------------------------------------------------------------------
// Project name
// ---------------------------------------------------------------------------

/// The length of a rule's path in bytes, by which rules are ranked.
pub open spec fn path_len(rule: ProjectRule) -> nat {
    vstd::utf8::encode_utf8(rule.path@).len()
}

/// Among the first `n` rules, the matching one with the longest path; of
/// several equally long ones, the last.
pub open spec fn best_rule(ps: Seq<ProjectRule>, n: int, cwd: Seq<char>, base: Seq<char>) -> Option<
    int,
>
    decreases n,
{
    if n <= 0 {
        None
    } else {
        let b = best_rule(ps, n - 1, cwd, base);
        if rule_matches(ps[n - 1], cwd, base) && (b is None || path_len(ps[b->0]) <= path_len(
            ps[n - 1],
        )) {
            Some(n - 1)
        } else {
            b
        }
    }
}

proof fn lemma_best_rule(ps: Seq<ProjectRule>, n: int, cwd: Seq<char>, base: Seq<char>)
    requires
        0 <= n <= ps.len(),
    ensures
        best_rule(ps, n, cwd, base) matches Some(k) ==> {
            &&& 0 <= k < n
            &&& rule_matches(ps[k], cwd, base)
            &&& forall|m: int| 0 <= m < n && rule_matches(ps[m], cwd, base) ==> path_len(ps[m]) <= path_len(ps[k])
            &&& forall|m: int| k < m < n && rule_matches(ps[m], cwd, base) ==> path_len(ps[m]) < path_len(ps[k])
        },
        best_rule(ps, n, cwd, base) is None ==> forall|m: int| 0 <= m < n ==> !rule_matches(ps[m], cwd, base),
    decreases n,
{
    if n > 0 {
        lemma_best_rule(ps, n - 1, cwd, base);
    }
}

/// The project is named after the most specific rule that contains the
/// event's directory: among the enabled rules with a path that contains
/// `cwd`, one with the longest path (in bytes), the last of several equally
/// long ones; its alias when that is not blank, else the last component of
/// its path. Without such a rule, the last component of `cwd`, or "Unknown
/// project". A rule nested in another is thus chosen over its parent.
pub proof fn lemma_project_name_most_specific(cwd: Seq<char>, s: AppSettings, base: Seq<char>)
    ensures
        (exists|i: int|
            #![trigger s.projects@[i]]
            0 <= i < s.projects@.len() && s.projects@[i].enabled && s.projects@[i].path@.len() > 0
                && is_within_spec(cwd, s.projects@[i].path@, base)) ==> exists|k: int|
            #![trigger s.projects@[k]]
            0 <= k < s.projects@.len() && s.projects@[k].enabled && s.projects@[k].path@.len() > 0
                && is_within_spec(cwd, s.projects@[k].path@, base) && (forall|m: int|
                #![trigger s.projects@[m]]
                0 <= m < s.projects@.len() && s.projects@[m].enabled && s.projects@[m].path@.len() > 0
                    && is_within_spec(cwd, s.projects@[m].path@, base) ==> vstd::utf8::encode_utf8(
                    s.projects@[m].path@,
                ).len() <= vstd::utf8::encode_utf8(s.projects@[k].path@).len()) && (forall|m: int|
                #![trigger s.projects@[m]]
                k < m < s.projects@.len() && s.projects@[m].enabled && s.projects@[m].path@.len() > 0
                    && is_within_spec(cwd, s.projects@[m].path@, base) ==> vstd::utf8::encode_utf8(
                    s.projects@[m].path@,
                ).len() < vstd::utf8::encode_utf8(s.projects@[k].path@).len())
                && project_name_spec(cwd, s, base) == (if trim_spec(s.projects@[k].name@).len() == 0 {
                match file_name_spec(s.projects@[k].path@) {
                    Some(f) => f,
                    None => Seq::empty(),
                }
            } else {
                s.projects@[k].name@
            }),
        !(exists|i: int|
            #![trigger s.projects@[i]]
            0 <= i < s.projects@.len() && s.projects@[i].enabled && s.projects@[i].path@.len() > 0
                && is_within_spec(cwd, s.projects@[i].path@, base)) ==> project_name_spec(cwd, s, base)
            == match file_name_spec(cwd) {
            Some(f) => if f.len() == 0 {
                "Unknown project"@
            } else {
                f
            },
            None => "Unknown project"@,
        },
{
    let ps = s.projects@;
    lemma_best_rule(ps, ps.len() as int, cwd, base);
    if exists|i: int|
        #![trigger ps[i]]
        0 <= i < ps.len() && ps[i].enabled && ps[i].path@.len() > 0 && is_within_spec(cwd, ps[i].path@, base) {
        let i = choose|i: int|
            #![trigger ps[i]]
            0 <= i < ps.len() && ps[i].enabled && ps[i].path@.len() > 0 && is_within_spec(cwd, ps[i].path@, base);
        assert(rule_matches(ps[i], cwd, base));
        let k = best_rule(ps, ps.len() as int, cwd, base)->Some_0;
        assert forall|m: int|
            0 <= m < ps.len() && ps[m].enabled && ps[m].path@.len() > 0 && is_within_spec(cwd, ps[m].path@, base)
            implies vstd::utf8::encode_utf8(ps[m].path@).len() <= vstd::utf8::encode_utf8(ps[k].path@).len() by {
            assert(rule_matches(ps[m], cwd, base));
        }
        assert forall|m: int|
            k < m < ps.len() && ps[m].enabled && ps[m].path@.len() > 0 && is_within_spec(cwd, ps[m].path@, base)
            implies vstd::utf8::encode_utf8(ps[m].path@).len() < vstd::utf8::encode_utf8(ps[k].path@).len() by {
            assert(rule_matches(ps[m], cwd, base));
        }
        assert(ps[k].enabled && ps[k].path@.len() > 0 && is_within_spec(cwd, ps[k].path@, base));
    } else {
        assert forall|m: int| 0 <= m < ps.len() implies !rule_matches(ps[m], cwd, base) by {
            if rule_matches(ps[m], cwd, base) {
                assert(ps[m].enabled && ps[m].path@.len() > 0 && is_within_spec(cwd, ps[m].path@, base));
            }
        }
        if best_rule(ps, ps.len() as int, cwd, base) is Some {
            let k = best_rule(ps, ps.len() as int, cwd, base)->Some_0;
            assert(rule_matches(ps[k], cwd, base));
        }
    }
}

pub open spec fn or_empty(o: Option<Seq<char>>) -> Seq<char> {
    match o {
        Some(s) => s,
        None => Seq::empty(),
    }
}

/// The project's name: the alias of the best matching rule, else the last
/// component of its path; without a matching rule, the last component of
/// `cwd`, or "Unknown project".
pub open spec fn project_name_spec(cwd: Seq<char>, s: AppSettings, base: Seq<char>) -> Seq<char> {
    match best_rule(s.projects@, s.projects@.len() as int, cwd, base) {
        Some(i) => {
            let rule = s.projects@[i];
            if trim_spec(rule.name@).len() == 0 {
                or_empty(file_name_spec(rule.path@))
            } else {
                rule.name@
            }
        },
        None => {
            let f = or_empty(file_name_spec(cwd));
            if f.len() == 0 {
                "Unknown project"@
            } else {
                f
            }
        },
    }
}

/// The project's name for an event from `cwd`.
pub fn project_name(cwd: &str, settings: &AppSettings, base: &str) -> (r: String)
    ensures
        r@ == project_name_spec(cwd@, *settings, base@),
{
    let ps = &settings.projects;
    let mut best: Option<usize> = None;
    let mut best_len: usize = 0;
    let mut i: usize = 0;
    while i < ps.len()
        invariant
            i <= ps@.len(),
            match best {
                Some(b) => best_rule(ps@, i as int, cwd@, base@) == Some(b as int) && b < i
                    && best_len == path_len(ps@[b as int]),
                None => best_rule(ps@, i as int, cwd@, base@) is None,
            },
        decreases ps.len() - i,
    {
        let len = ps[i].path.as_str().as_bytes().len();
        assert(len == path_len(ps@[i as int]));
        if rule_applies(&ps[i], cwd, base) && (best.is_none() || best_len <= len) {
            best = Some(i);
            best_len = len;
        }
        i = i + 1;
    }
    match best {
        Some(b) => {
            let rule = &ps[b];
            if is_blank(rule.name.as_str()) {
                match file_name(rule.path.as_str()) {
                    Some(n) => n,
                    None => String::new(),
                }
            } else {
                rule.name.clone()
            }
        },
        None => {
            let f = match file_name(cwd) {
                Some(n) => n,
                None => String::new(),
            };
            if f.as_str().unicode_len() == 0 {
                owned("Unknown project")
            } else {
                f
            }
        },
    }
}

// ---------------------------------------------------------------------------
// Status
// ---------------------------------------------------------------------------

pub open spec fn has_any(s: Seq<char>, words: Seq<Seq<char>>) -> bool {
    exists|i: int| 0 <= i < words.len() && contains_spec(s, words[i])
}

/// Phrases that report a failed turn.
pub open spec fn failed_words() -> Seq<Seq<char>> {
    seq![
        "任务失败"@,
        "无法完成"@,
        "执行失败"@,
        "被阻止"@,
        "failed"@,
        "unable to complete"@,
        "blocked"@,
    ]
}

/// Phrases that ask the user for something.
pub open spec fn waiting_words() -> Seq<Seq<char>> {
    seq![
        "需要你确认"@,
        "需要你选择"@,
        "需要你提供"@,
        "请确认"@,
        "请选择"@,
        "请提供"@,
        "请告诉我"@,
        "等待你的"@,
        "need you to"@,
        "please confirm"@,
        "please choose"@,
        "please provide"@,
        "waiting for"@,
    ]
}

/// The status and icon of a finished turn, from its last message, lowercased.
pub open spec fn classify_spec(message: Seq<char>) -> (Seq<char>, Seq<char>) {
    let lower = unicode_lowercase(message);
    if has_any(lower, failed_words()) {
        ("Execution failed"@, "⚠️"@)
    } else if has_any(lower, waiting_words()) {
        ("Waiting for input"@, "❓"@)
    } else {
        ("Turn completed"@, "✅"@)
    }
}

/// Failure comes first: a message that holds, once lowercased, any phrase
/// of a failed turn is reported as failed, whatever request it also holds;
/// else one that holds a phrase asking for the user's input is reported as
/// waiting for input; any other message as a completed turn.
pub proof fn lemma_classify_failure_first(message: Seq<char>)
    ensures
        ({
            let lower = unicode_lowercase(message);
            contains_spec(lower, "任务失败"@) || contains_spec(lower, "无法完成"@) || contains_spec(
                lower,
                "执行失败"@,
            ) || contains_spec(lower, "被阻止"@) || contains_spec(lower, "failed"@) || contains_spec(
                lower,
                "unable to complete"@,
            ) || contains_spec(lower, "blocked"@)
        }) ==> classify_spec(message) == ("Execution failed"@, "⚠️"@),
        ({
            let lower = unicode_lowercase(message);
            !(contains_spec(lower, "任务失败"@) || contains_spec(lower, "无法完成"@) || contains_spec(
                lower,
                "执行失败"@,
            ) || contains_spec(lower, "被阻止"@) || contains_spec(lower, "failed"@) || contains_spec(
                lower,
                "unable to complete"@,
            ) || contains_spec(lower, "blocked"@)) && (contains_spec(lower, "需要你确认"@)
                || contains_spec(lower, "需要你选择"@) || contains_spec(lower, "需要你提供"@)
                || contains_spec(lower, "请确认"@) || contains_spec(lower, "请选择"@)
                || contains_spec(lower, "请提供"@) || contains_spec(lower, "请告诉我"@)
                || contains_spec(lower, "等待你的"@) || contains_spec(lower, "need you to"@)
                || contains_spec(lower, "please confirm"@) || contains_spec(lower, "please choose"@)
                || contains_spec(lower, "please provide"@) || contains_spec(lower, "waiting for"@))
        }) ==> classify_spec(message) == ("Waiting for input"@, "❓"@),
        ({
            let lower = unicode_lowercase(message);
            !(contains_spec(lower, "任务失败"@) || contains_spec(lower, "无法完成"@) || contains_spec(
                lower,
                "执行失败"@,
            ) || contains_spec(lower, "被阻止"@) || contains_spec(lower, "failed"@) || contains_spec(
                lower,
                "unable to complete"@,
            ) || contains_spec(lower, "blocked"@)) && !(contains_spec(lower, "需要你确认"@)
                || contains_spec(lower, "需要你选择"@) || contains_spec(lower, "需要你提供"@)
                || contains_spec(lower, "请确认"@) || contains_spec(lower, "请选择"@)
                || contains_spec(lower, "请提供"@) || contains_spec(lower, "请告诉我"@)
                || contains_spec(lower, "等待你的"@) || contains_spec(lower, "need you to"@)
                || contains_spec(lower, "please confirm"@) || contains_spec(lower, "please choose"@)
                || contains_spec(lower, "please provide"@) || contains_spec(lower, "waiting for"@))
        }) ==> classify_spec(message) == ("Turn completed"@, "✅"@),
{
    let lower = unicode_lowercase(message);
    let fw = failed_words();
    let ww = waiting_words();
    assert(fw[0] == "任务失败"@ && fw[1] == "无法完成"@ && fw[2] == "执行失败"@ && fw[3] == "被阻止"@
        && fw[4] == "failed"@ && fw[5] == "unable to complete"@ && fw[6] == "blocked"@);
    assert(ww[0] == "需要你确认"@ && ww[1] == "需要你选择"@ && ww[2] == "需要你提供"@ && ww[3] == "请确认"@
        && ww[4] == "请选择"@ && ww[5] == "请提供"@ && ww[6] == "请告诉我"@ && ww[7] == "等待你的"@
        && ww[8] == "need you to"@ && ww[9] == "please confirm"@ && ww[10] == "please choose"@
        && ww[11] == "please provide"@ && ww[12] == "waiting for"@);
    assert(fw.len() == 7 && ww.len() == 13);
}

pub(crate) fn contains_any(lower: &str, words: &Vec<&'static str>) -> (r: bool)
    ensures
        r == exists|i: int| 0 <= i < words@.len() && contains_spec(lower@, words@[i]@),
{
    let mut i: usize = 0;
    while i < words.len()
        invariant
            i <= words@.len(),
            forall|k: int| 0 <= k < i ==> !contains_spec(lower@, words@[k]@),
        decreases words.len() - i,
    {
        if contains(lower, words[i]) {
            return true;
        }
        i = i + 1;
    }
    false
}

/// The status and icon of a finished turn, read from its last message.
pub fn classify(message: &str) -> (r: (&'static str, &'static str))
    ensures
        (r.0@, r.1@) == classify_spec(message@),
{
    let lower = to_lowercase(message);
    let failed = vec!["任务失败", "无法完成", "执行失败", "被阻止", "failed", "unable to complete", "blocked"];
    let ghost fw = failed_words();
    assert(fw.len() == failed@.len());
    assert forall|i: int| 0 <= i < fw.len() implies fw[i] == failed@[i]@ by {}
    if contains_any(lower.as_str(), &failed) {
        return ("Execution failed", "⚠️");
    }
    let waiting = vec![
        "需要你确认",
        "需要你选择",
        "需要你提供",
        "请确认",
        "请选择",
        "请提供",
        "请告诉我",
        "等待你的",
        "need you to",
        "please confirm",
        "please choose",
        "please provide",
        "waiting for",
    ];
    let ghost ww = waiting_words();
    assert(ww.len() == waiting@.len());
    assert forall|i: int| 0 <= i < ww.len() implies ww[i] == waiting@[i]@ by {}
    if contains_any(lower.as_str(), &waiting) {
        return ("Waiting for input", "❓");
    }
    ("Turn completed", "✅")
}

// ---------------------------------------------------------------------------
// Redaction
// ---------------------------------------------------------------------------

/// What `regex::Regex::new(pattern)` followed by `replace_all(text,
/// replacement)` returns, or `None` when the pattern does not compile.
pub uninterp spec fn regex_replaced(pattern: Seq<char>, text: Seq<char>, replacement: Seq<char>) -> Option<
    Seq<char>,
>;

/// Compiles `pattern` with `regex::Regex::new` and, when it compiles, calls
/// `Regex::replace_all`. Its result is named `regex_replaced`.
#[verifier::external_body]
fn regex_replace_all(pattern: &str, text: &str, replacement: &str) -> (r: Option<String>)
    ensures
        match r {
            Some(x) => regex_replaced(pattern@, text@, replacement@) == Some(x@),
            None => regex_replaced(pattern@, text@, replacement@) is None,
        },
{
    regex::Regex::new(pattern).ok().map(|re| re.replace_all(text, replacement).into_owned())
}

/// One redaction pass; a pattern that does not compile leaves the text as it is.
pub open spec fn redact_step(text: Seq<char>, pattern: Seq<char>, replacement: Seq<char>) -> Seq<char> {
    match regex_replaced(pattern, text, replacement) {
        Some(x) => x,
        None => text,
    }
}

pub open spec fn api_key_pattern() -> Seq<char> {
    "(?i)\\b(?:sk|rk|pk)-[A-Za-z0-9_-]{12,}\\b"@
}

pub open spec fn field_pattern() -> Seq<char> {
    "(?i)(?:token|api[_ -]?key|secret|password)\\s*[:=]\\s*[^\\s,;]{6,}"@
}

pub open spec fn url_pattern() -> Seq<char> {
    "https?://[^\\s?]+\\?[^\\s]+"@
}

pub open spec fn email_pattern() -> Seq<char> {
    "\\b[A-Za-z0-9._%+-]+@[A-Za-z0-9.-]+\\.[A-Za-z]{2,}\\b"@
}

/// The text with API keys, secret fields, URLs with parameters and e-mail
/// addresses replaced, in that order.
pub open spec fn redact_spec(text: Seq<char>) -> Seq<char> {
    let a = redact_step(text, api_key_pattern(), "[redacted API key]"@);
    let b = redact_step(a, field_pattern(), "sensitive-field=[redacted]"@);
    let c = redact_step(b, url_pattern(), "[redacted parameterized URL]"@);
    redact_step(c, email_pattern(), "[redacted email]"@)
}

/// Redaction runs four regular expressions in turn, each replacing all of
/// its matches: API keys by "[redacted API key]", secret fields by
/// "sensitive-field=[redacted]", URLs with parameters by "[redacted
/// parameterized URL]", and last e-mail addresses by "[redacted email]".
/// So, where the patterns compile, what comes out is what the e-mail
/// replacement gives back, and a text that the first three leave as it is
/// comes out as the e-mail replacement of itself.
pub proof fn lemma_redaction_passes(text: Seq<char>)
    requires
        forall|t: Seq<char>|
            #[trigger] regex_replaced(
                "(?i)\\b(?:sk|rk|pk)-[A-Za-z0-9_-]{12,}\\b"@,
                t,
                "[redacted API key]"@,
            ) is Some,
        forall|t: Seq<char>|
            #[trigger] regex_replaced(
                "(?i)(?:token|api[_ -]?key|secret|password)\\s*[:=]\\s*[^\\s,;]{6,}"@,
                t,
                "sensitive-field=[redacted]"@,
            ) is Some,
        forall|t: Seq<char>|
            #[trigger] regex_replaced(
                "https?://[^\\s?]+\\?[^\\s]+"@,
                t,
                "[redacted parameterized URL]"@,
            ) is Some,
        forall|t: Seq<char>|
            #[trigger] regex_replaced(
                "\\b[A-Za-z0-9._%+-]+@[A-Za-z0-9.-]+\\.[A-Za-z]{2,}\\b"@,
                t,
                "[redacted email]"@,
            ) is Some,
    ensures
        ({
            let a = regex_replaced(
                "(?i)\\b(?:sk|rk|pk)-[A-Za-z0-9_-]{12,}\\b"@,
                text,
                "[redacted API key]"@,
            )->Some_0;
            let b = regex_replaced(
                "(?i)(?:token|api[_ -]?key|secret|password)\\s*[:=]\\s*[^\\s,;]{6,}"@,
                a,
                "sensitive-field=[redacted]"@,
            )->Some_0;
            let c = regex_replaced(
                "https?://[^\\s?]+\\?[^\\s]+"@,
                b,
                "[redacted parameterized URL]"@,
            )->Some_0;
            redact_spec(text) == regex_replaced(
                "\\b[A-Za-z0-9._%+-]+@[A-Za-z0-9.-]+\\.[A-Za-z]{2,}\\b"@,
                c,
                "[redacted email]"@,
            )->Some_0
        }),
        exists|c: Seq<char>|
            #[trigger] regex_replaced(
                "\\b[A-Za-z0-9._%+-]+@[A-Za-z0-9.-]+\\.[A-Za-z]{2,}\\b"@,
                c,
                "[redacted email]"@,
            ) == Some(redact_spec(text)),
        ({
            let a = regex_replaced(
                "(?i)\\b(?:sk|rk|pk)-[A-Za-z0-9_-]{12,}\\b"@,
                text,
                "[redacted API key]"@,
            );
            let b = regex_replaced(
                "(?i)(?:token|api[_ -]?key|secret|password)\\s*[:=]\\s*[^\\s,;]{6,}"@,
                text,
                "sensitive-field=[redacted]"@,
            );
            let c = regex_replaced(
                "https?://[^\\s?]+\\?[^\\s]+"@,
                text,
                "[redacted parameterized URL]"@,
            );
            a == Some(text) && b == Some(text) && c == Some(text)
        }) ==> Some(redact_spec(text)) == regex_replaced(
            "\\b[A-Za-z0-9._%+-]+@[A-Za-z0-9.-]+\\.[A-Za-z]{2,}\\b"@,
            text,
            "[redacted email]"@,
        ),
{
    let a = regex_replaced(api_key_pattern(), text, "[redacted API key]"@)->Some_0;
    let b = regex_replaced(field_pattern(), a, "sensitive-field=[redacted]"@)->Some_0;
    let c = regex_replaced(url_pattern(), b, "[redacted parameterized URL]"@)->Some_0;
    assert(regex_replaced(email_pattern(), c, "[redacted email]"@) is Some);
}

fn redact_pass(text: String, pattern: &str, replacement: &str) -> (r: String)
    ensures
        r@ == redact_step(text@, pattern@, replacement@),
{
    match regex_replace_all(pattern, text.as_str(), replacement) {
        Some(x) => x,
        None => text,
    }
}

/// Replaces API keys, secret fields, URLs with parameters and e-mail addresses.
pub fn redact_sensitive_text(text: &str) -> (r: String)
    ensures
        r@ == redact_spec(text@),
{
    let a = redact_pass(owned(text), "(?i)\\b(?:sk|rk|pk)-[A-Za-z0-9_-]{12,}\\b", "[redacted API key]");
    let b = redact_pass(
        a,
        "(?i)(?:token|api[_ -]?key|secret|password)\\s*[:=]\\s*[^\\s,;]{6,}",
        "sensitive-field=[redacted]",
    );
    let c = redact_pass(b, "https?://[^\\s?]+\\?[^\\s]+", "[redacted parameterized URL]");
    redact_pass(c, "\\b[A-Za-z0-9._%+-]+@[A-Za-z0-9.-]+\\.[A-Za-z]{2,}\\b", "[redacted email]")
}

// ---------------------------------------------------------------------------
// Quiet hours
// ---------------------------------------------------------------------------

/// The time `s` names in the `%H:%M` format, in seconds after midnight, as
/// `chrono::NaiveTime::parse_from_str` reads it; `None` when it refuses `s`.
pub uninterp spec fn hm_seconds(s: Seq<char>) -> Option<u32>;

/// Calls `chrono::NaiveTime::parse_from_str(s, "%H:%M")` and reads the
/// seconds after midnight of the result. Its result is named `hm_seconds`.
#[verifier::external_body]
fn parse_hm(s: &str) -> (r: Option<u32>)
    ensures
        r == hm_seconds(s@),
{
    chrono::NaiveTime::parse_from_str(s, "%H:%M").ok().map(|t| t.num_seconds_from_midnight())
}

/// The latest Unix time whose local time of day is looked up: the end of
/// the year 9999.
pub const LOCAL_TIME_LIMIT: i64 = 253_402_300_799;

/// The local time of day at the Unix time `ts`, in seconds after midnight.
/// Calls `chrono::TimeZone::timestamp_opt` on `chrono::Local` and takes the
/// time of day of its single result (`None` when there is none); which time
/// zone the machine is in is not stated, only the range. chrono reads the
/// system's time zone data, and panics only when that data cannot give an
/// offset for the time.
#[verifier::external_body]
fn local_time_of_day(ts: i64) -> (r: Option<u32>)
    requires
        0 <= ts <= LOCAL_TIME_LIMIT,
    ensures
        r matches Some(x) ==> x < 86400,
{
    chrono::TimeZone::timestamp_opt(&chrono::Local, ts, 0).single().map(|t| t.time().num_seconds_from_midnight())
}

/// The local time of day now, in seconds after midnight: from the system
/// clock and the machine's time zone; the UTC time of day when the local
/// time cannot be found (a clock before 1970 or after the year 9999).
fn local_seconds_now() -> (r: u32)
    ensures
        r < 86400,
{
    let t = crate::store::unix_now();
    if 0 <= t && t <= LOCAL_TIME_LIMIT {
        match local_time_of_day(t) {
            Some(x) => x,
            None => (t % 86400) as u32,
        }
    } else {
        let m = t % 86400;
        if m < 0 {
            (m + 86400) as u32
        } else {
            m as u32
        }
    }
}

/// Whether `now` lies in the quiet window from `start` to `end`, which crosses
/// midnight when `start` is not before `end`.
pub open spec fn quiet_at_spec(enabled: bool, now: u32, start: u32, end: u32) -> bool {
    if !enabled {
        false
    } else if start < end {
        now >= start && now < end
    } else {
        now >= start || now < end
    }
}

/// Whether `now` (seconds after midnight) lies within quiet hours.
pub fn quiet_at(settings: &AppSettings, now: u32, start: u32, end: u32) -> (r: bool)
    ensures
        r == quiet_at_spec(settings.quiet_hours_enabled, now, start, end),
{
    if !settings.quiet_hours_enabled {
        return false;
    }
    if start < end {
        now >= start && now < end
    } else {
        now >= start || now < end
    }
}

/// Quiet hours at the time of day `now`: off when they are disabled or when
/// their start or end is not a valid `HH:MM` time.
pub open spec fn quiet_spec(s: AppSettings, now: u32) -> bool {
    if !s.quiet_hours_enabled {
        false
    } else {
        match (hm_seconds(s.quiet_start@), hm_seconds(s.quiet_end@)) {
            (Some(start), Some(end)) => quiet_at_spec(true, now, start, end),
            _ => false,
        }
    }
}

/// Whether quiet hours hold at the time of day `now`.
pub fn quiet_from(settings: &AppSettings, now: u32) -> (r: bool)
    ensures
        r == quiet_spec(*settings, now),
{
    if !settings.quiet_hours_enabled {
        return false;
    }
    match (parse_hm(settings.quiet_start.as_str()), parse_hm(settings.quiet_end.as_str())) {
        (Some(start), Some(end)) => quiet_at(settings, now, start, end),
        _ => false,
    }
}

/// Quiet hours that cross midnight are exactly the times outside the daytime
/// window between their end and their start.
pub proof fn lemma_quiet_window_complement(now: u32, start: u32, end: u32)
    requires
        end < start,
    ensures
        quiet_at_spec(true, now, start, end) == !quiet_at_spec(true, now, end, start),
{
}

// ---------------------------------------------------------------------------
// Templates
// ---------------------------------------------------------------------------

pub open spec fn render_spec(
    template: Seq<char>,
    device: Seq<char>,
    project: Seq<char>,
    status: Seq<char>,
    icon: Seq<char>,
) -> Seq<char> {
    replace_spec(
        replace_spec(
            replace_spec(replace_spec(template, "{device}"@, device), "{project}"@, project),
            "{status}"@,
            status,
        ),
        "{icon}"@,
        icon,
    )
}

/// Fills the `{device}`, `{project}`, `{status}` and `{icon}` placeholders.
pub fn render_template(template: &str, device: &str, project: &str, status: &str, icon: &str) -> (r: String)
    ensures
        r@ == render_spec(template@, device@, project@, status@, icon@),
{
    proof {
        reveal_strlit("{device}");
        reveal_strlit("{project}");
        reveal_strlit("{status}");
        reveal_strlit("{icon}");
    }
    let a = replace(template, "{device}", device);
    let b = replace(a.as_str(), "{project}", project);
    let c = replace(b.as_str(), "{status}", status);
    replace(c.as_str(), "{icon}", icon)
}

// ---------------------------------------------------------------------------
// Bodies
// ---------------------------------------------------------------------------

/// `parts` joined by `sep`.
pub open spec fn join_with(parts: Seq<Seq<char>>, sep: Seq<char>) -> Seq<char>
    decreases parts.len(),
{
    if parts.len() == 0 {
        Seq::empty()
    } else if parts.len() == 1 {
        parts[0]
    } else {
        join_with(parts.drop_last(), sep) + sep + parts.last()
    }
}

/// The value of the first of two keys that is present.
pub open spec fn get_either(j: JsonV, a: Seq<char>, b: Seq<char>) -> Option<JsonV> {
    match get_v(j, a) {
        Some(x) => Some(x),
        None => get_v(j, b),
    }
}

/// The line shown for an answer option: its label (or the option itself when
/// it is a string), followed by its description.
pub open spec fn option_label_spec(o: JsonV) -> Option<Seq<char>> {
    let label = match str_of(get_v(o, "label"@)) {
        Some(l) => Some(l),
        None => str_of(Some(o)),
    };
    match label {
        None => None,
        Some(l) => {
            let d = trim_spec(or_empty(str_of(get_v(o, "description"@))));
            Some(
                if d.len() == 0 {
                    l
                } else {
                    l + " — "@ + d
                },
            )
        },
    }
}

/// The non-blank option lines of `opts`.
pub open spec fn labels_spec(opts: Seq<JsonV>) -> Seq<Seq<char>>
    decreases opts.len(),
{
    if opts.len() == 0 {
        Seq::empty()
    } else {
        let prev = labels_spec(opts.drop_last());
        match option_label_spec(opts.last()) {
            Some(l) => if trim_spec(l).len() > 0 {
                prev.push(l)
            } else {
                prev
            },
            None => prev,
        }
    }
}

/// The text shown for one question: its header and prompt, then its options.
pub open spec fn section_spec(q: JsonV) -> Seq<char> {
    let header = trim_spec(or_empty(str_of(get_v(q, "header"@))));
    let prompt = trim_spec(or_empty(str_of(get_either(q, "question"@, "prompt"@))));
    let base = if header.len() == 0 {
        prompt
    } else if prompt.len() == 0 {
        header
    } else {
        header + ": "@ + prompt
    };
    match array_of(get_v(q, "options"@)) {
        Some(opts) => {
            let labels = labels_spec(opts);
            if labels.len() > 0 {
                (if base.len() > 0 {
                    base + "\n"@
                } else {
                    base
                }) + "• "@ + join_with(labels, "\n• "@)
            } else {
                base
            }
        },
        None => base,
    }
}

/// The non-empty sections of the questions `qs`.
pub open spec fn sections_spec(qs: Seq<JsonV>) -> Seq<Seq<char>>
    decreases qs.len(),
{
    if qs.len() == 0 {
        Seq::empty()
    } else {
        let prev = sections_spec(qs.drop_last());
        let sec = section_spec(qs.last());
        if sec.len() > 0 {
            prev.push(sec)
        } else {
            prev
        }
    }
}

/// The body for a request for user input: its questions, else its single
/// question or prompt, else a generic request.
pub open spec fn input_body_spec(ti: JsonV) -> Seq<char> {
    let secs = match array_of(get_v(ti, "questions"@)) {
        Some(qs) => sections_spec(qs),
        None => Seq::empty(),
    };
    let secs2 = if secs.len() == 0 {
        match str_of(get_either(ti, "question"@, "prompt"@)) {
            Some(p) => seq![trim_spec(p)],
            None => secs,
        }
    } else {
        secs
    };
    if secs2.len() == 0 {
        "Codex needs your input to continue."@
    } else {
        join_with(secs2, "\n\n"@)
    }
}

pub open spec fn is_input_request_spec(e: HookEvent) -> bool {
    e.hook_event_name@ == "PreToolUse"@ && (e.tool_name@ == "request_user_input"@ || e.tool_name@
        == "requestUserInput"@)
}

/// The body for a permission request.
pub open spec fn permission_body_spec(e: HookEvent, minimal: bool) -> Seq<char> {
    let tool = if e.tool_name@.len() == 0 {
        "Local operation"@
    } else {
        e.tool_name@
    };
    if minimal {
        "Codex requests approval: "@ + tool + "."@
    } else {
        let detail = or_empty(str_of(get_either(e.tool_input@, "description"@, "command"@)));
        if detail.len() == 0 {
            "Request: "@ + tool + "\nReturn to your computer to review it."@
        } else {
            "Request: "@ + tool + "\n"@ + take_spec(detail, 240)
        }
    }
}

/// The character limit of a summary message mode, if it has one.
pub open spec fn summary_limit(mode: Seq<char>) -> int {
    if mode == "summary200"@ {
        200
    } else if mode == "summary500"@ {
        500
    } else {
        0
    }
}

/// The body of the notification before redaction.
pub open spec fn body_spec(e: HookEvent, s: AppSettings, status: Seq<char>) -> Seq<char> {
    if e.hook_event_name@ == "PermissionRequest"@ {
        permission_body_spec(e, s.message_mode@ == "minimal"@)
    } else if is_input_request_spec(e) {
        input_body_spec(e.tool_input@)
    } else if s.message_mode@ == "minimal"@ {
        "Codex status: "@ + status + "."@
    } else if s.message_mode@ == "fixed"@ {
        s.fixed_message@
    } else {
        let c0 = collapse_spec(e.last_assistant_message@);
        let compact = if c0.len() == 0 {
            "Codex status: "@ + status + ". Return to your computer for details."@
        } else {
            c0
        };
        let limit = summary_limit(s.message_mode@);
        if limit > 0 && compact.len() > limit {
            compact.take(limit - 1) + "…"@
        } else {
            compact
        }
    }
}

fn get_either_exec<'a>(j: &'a Json, a: &str, b: &str) -> (r: Option<&'a Json>)
    ensures
        match r {
            Some(x) => get_either(j@, a@, b@) == Some(x@),
            None => get_either(j@, a@, b@) is None,
        },
{
    match j.get(a) {
        Some(x) => Some(x),
        None => j.get(b),
    }
}

fn str_or_empty(o: Option<&Json>) -> (r: String)
    ensures
        r@ == or_empty(
            str_of(
                match o {
                    Some(x) => Some(x@),
                    None => None,
                },
            ),
        ),
{
    match o {
        Some(x) => match x.as_str() {
            Some(s) => owned(s),
            None => String::new(),
        },
        None => String::new(),
    }
}

fn push_str(out: &mut String, s: &str)
    ensures
        final(out)@ == old(out)@ + s@,
{
    out.append(s);
}

/// `parts` joined by `sep`.
fn join_strings(parts: &Vec<String>, sep: &str) -> (r: String)
    ensures
        r@ == join_with(crate::paths::strs_v(parts@), sep@),
{
    let ghost pv = crate::paths::strs_v(parts@);
    let mut out = String::new();
    let mut i: usize = 0;
    while i < parts.len()
        invariant
            i <= parts.len(),
            pv == crate::paths::strs_v(parts@),
            out@ == join_with(pv.take(i as int), sep@),
        decreases parts.len() - i,
    {
        if i > 0 {
            push_str(&mut out, sep);
        }
        push_str(&mut out, parts[i].as_str());
        proof {
            assert(pv.take(i + 1).drop_last() =~= pv.take(i as int));
            if i == 0 {
                assert(join_with(pv.take(0), sep@) =~= Seq::<char>::empty());
            }
        }
        i = i + 1;
    }
    assert(pv.take(parts.len() as int) =~= pv);
    out
}

fn option_label(o: &Json) -> (r: Option<String>)
    ensures
        match r {
            Some(x) => option_label_spec(o@) == Some(x@),
            None => option_label_spec(o@) is None,
        },
{
    let label: Option<&str> = match o.get("label") {
        Some(l) => match l.as_str() {
            Some(x) => Some(x),
            None => o.as_str(),
        },
        None => o.as_str(),
    };
    match label {
        None => None,
        Some(l) => {
            let d = trim(str_or_empty(o.get("description")).as_str());
            if d.as_str().unicode_len() == 0 {
                Some(owned(l))
            } else {
                let mut x = owned(l);
                push_str(&mut x, " — ");
                push_str(&mut x, d.as_str());
                Some(x)
            }
        },
    }
}

fn option_labels(opts: &Vec<Json>) -> (r: Vec<String>)
    ensures
        crate::paths::strs_v(r@) == labels_spec(items_v(opts@)),
{
    let ghost ov = items_v(opts@);
    let mut out: Vec<String> = Vec::new();
    let mut i: usize = 0;
    while i < opts.len()
        invariant
            i <= opts.len(),
            ov == items_v(opts@),
            crate::paths::strs_v(out@) == labels_spec(ov.take(i as int)),
        decreases opts.len() - i,
    {
        assert(ov.take(i + 1).drop_last() =~= ov.take(i as int));
        assert(ov.take(i + 1).last() == opts@[i as int]@);
        match option_label(&opts[i]) {
            Some(l) => {
                if !is_blank(l.as_str()) {
                    proof {
                        assert(crate::paths::strs_v(out@.push(l)) =~= crate::paths::strs_v(out@).push(l@));
                    }
                    out.push(l);
                }
            },
            None => {},
        }
        i = i + 1;
    }
    assert(ov.take(opts.len() as int) =~= ov);
    out
}

fn section(q: &Json) -> (r: String)
    ensures
        r@ == section_spec(q@),
{
    let header = trim(str_or_empty(q.get("header")).as_str());
    let prompt = trim(str_or_empty(get_either_exec(q, "question", "prompt")).as_str());
    let mut sec = if header.as_str().unicode_len() == 0 {
        prompt
    } else if prompt.as_str().unicode_len() == 0 {
        header
    } else {
        let mut x = header;
        push_str(&mut x, ": ");
        push_str(&mut x, prompt.as_str());
        x
    };
    match q.get("options") {
        Some(o) => match o.as_array() {
            Some(opts) => {
                let labels = option_labels(opts);
                if labels.len() > 0 {
                    if sec.as_str().unicode_len() > 0 {
                        push_char(&mut sec, '\n');
                        proof { reveal_strlit("\n"); assert("\n"@ =~= seq!['\n']); }
                    }
                    push_str(&mut sec, "• ");
                    let joined = join_strings(&labels, "\n• ");
                    push_str(&mut sec, joined.as_str());
                }
            },
            None => {},
        },
        None => {},
    }
    sec
}

/// The body for a request for user input.
pub fn input_request_body(tool_input: &Json) -> (r: String)
    ensures
        r@ == input_body_spec(tool_input@),
{
    let mut sections: Vec<String> = Vec::new();
    match tool_input.get("questions") {
        Some(qj) => match qj.as_array() {
            Some(qs) => {
                let ghost qv = items_v(qs@);
                let mut i: usize = 0;
                while i < qs.len()
                    invariant
                        i <= qs.len(),
                        qv == items_v(qs@),
                        crate::paths::strs_v(sections@) == sections_spec(qv.take(i as int)),
                    decreases qs.len() - i,
                {
                    assert(qv.take(i + 1).drop_last() =~= qv.take(i as int));
                    assert(qv.take(i + 1).last() == qs@[i as int]@);
                    let sec = section(&qs[i]);
                    if sec.as_str().unicode_len() > 0 {
                        proof {
                            assert(crate::paths::strs_v(sections@.push(sec)) =~= crate::paths::strs_v(sections@).push(sec@));
                        }
                        sections.push(sec);
                    }
                    i = i + 1;
                }
                assert(qv.take(qs.len() as int) =~= qv);
            },
            None => {},
        },
        None => {},
    }
    if sections.len() == 0 {
        match get_either_exec(tool_input, "question", "prompt") {
            Some(p) => match p.as_str() {
                Some(text) => {
                    let t = trim(text);
                    proof {
                        assert(crate::paths::strs_v(sections@.push(t)) =~= seq![t@]);
                    }
                    sections.push(t);
                },
                None => {},
            },
            None => {},
        }
    }
    if sections.len() == 0 {
        owned("Codex needs your input to continue.")
    } else {
        join_strings(&sections, "\n\n")
    }
}

pub fn is_user_input_request(event: &HookEvent) -> (r: bool)
    ensures
        r == is_input_request_spec(*event),
{
    same_text(event.hook_event_name.as_str(), "PreToolUse") && (same_text(
        event.tool_name.as_str(),
        "request_user_input",
    ) || same_text(event.tool_name.as_str(), "requestUserInput"))
}

/// The body for a permission request; `minimal` names only the tool.
pub fn permission_body(event: &HookEvent, minimal: bool) -> (r: String)
    ensures
        r@ == permission_body_spec(*event, minimal),
{
    let tool = if event.tool_name.as_str().unicode_len() == 0 {
        owned("Local operation")
    } else {
        event.tool_name.clone()
    };
    if minimal {
        let mut x = owned("Codex requests approval: ");
        push_str(&mut x, tool.as_str());
        push_str(&mut x, ".");
        return x;
    }
    let detail = str_or_empty(get_either_exec(&event.tool_input, "description", "command"));
    let mut x = owned("Request: ");
    push_str(&mut x, tool.as_str());
    if detail.as_str().unicode_len() == 0 {
        push_str(&mut x, "\nReturn to your computer to review it.");
    } else {
        push_str(&mut x, "\n");
        let d = take_chars(detail.as_str(), 240);
        push_str(&mut x, d.as_str());
    }
    x
}

fn status_line(status: &str, tail: &str) -> (r: String)
    ensures
        r@ == "Codex status: "@ + status@ + tail@,
{
    let mut x = owned("Codex status: ");
    push_str(&mut x, status);
    push_str(&mut x, tail);
    x
}

/// The body of the notification for `event`, before redaction.
pub fn body_for(event: &HookEvent, settings: &AppSettings, status: &str) -> (r: String)
    ensures
        r@ == body_spec(*event, *settings, status@),
{
    let mode = settings.message_mode.as_str();
    if same_text(event.hook_event_name.as_str(), "PermissionRequest") {
        return permission_body(event, same_text(mode, "minimal"));
    }
    if is_user_input_request(event) {
        return input_request_body(&event.tool_input);
    }
    if same_text(mode, "minimal") {
        return status_line(status, ".");
    }
    if same_text(mode, "fixed") {
        return settings.fixed_message.clone();
    }
    let c0 = collapse_whitespace(event.last_assistant_message.as_str());
    let compact = if c0.as_str().unicode_len() == 0 {
        status_line(status, ". Return to your computer for details.")
    } else {
        c0
    };
    let limit: usize = if same_text(mode, "summary200") {
        200
    } else if same_text(mode, "summary500") {
        500
    } else {
        0
    };
    proof {
        reveal_strlit("summary200");
        reveal_strlit("summary500");
        assert("summary200"@ != "summary500"@ ==> true);
        assert("summary200"@[7] == '2' && "summary500"@[7] == '5');
    }
    if limit > 0 && compact.as_str().unicode_len() > limit {
        let mut x = take_chars(compact.as_str(), limit - 1);
        push_str(&mut x, "…");
        return x;
    }
    compact
}

// ---------------------------------------------------------------------------
// The notification
// ---------------------------------------------------------------------------

/// The status and icon of an event.
pub open spec fn status_spec(e: HookEvent) -> (Seq<char>, Seq<char>) {
    if e.hook_event_name@ == "PermissionRequest"@ {
        ("Waiting for approval"@, "🔐"@)
    } else if is_input_request_spec(e) {
        ("Waiting for input"@, "❓"@)
    } else {
        classify_spec(e.last_assistant_message@)
    }
}

/// The text whose digest identifies an event: its kind, session and turn,
/// and for requests the tool call (its id, else its name and input).
pub open spec fn key_text_spec(e: HookEvent) -> Seq<char> {
    let head = e.hook_event_name@ + "|"@ + e.session_id@ + "|"@ + e.turn_id@;
    if e.hook_event_name@ == "PermissionRequest"@ || is_input_request_spec(e) {
        head + "|"@ + if e.tool_use_id@.len() == 0 {
            e.tool_name@ + "|"@ + crate::json::json_text(e.tool_input@)
        } else {
            e.tool_use_id@
        }
    } else {
        head
    }
}

/// The key under which an event is stored once: the hex SHA-256 of its key text.
pub open spec fn event_key_spec(e: HookEvent) -> Seq<char> {
    crate::digest::hex_spec(
        crate::digest::sha256_digest(vstd::utf8::encode_utf8(key_text_spec(e))),
    )
}

/// Each request for approval is an event of its own: two permission
/// requests of one turn whose tool-use ids differ are keyed by different
/// texts (their keys are the SHA-256 digests of these texts).
pub proof fn lemma_permission_keys_differ_by_tool(a: HookEvent, b: HookEvent)
    requires
        a.hook_event_name@ == "PermissionRequest"@,
        b.hook_event_name@ == "PermissionRequest"@,
        a.session_id@ == b.session_id@,
        a.turn_id@ == b.turn_id@,
        a.tool_use_id@.len() > 0,
        b.tool_use_id@.len() > 0,
        a.tool_use_id@ != b.tool_use_id@,
    ensures
        key_text_spec(a) != key_text_spec(b),
{
    let head = a.hook_event_name@ + "|"@ + a.session_id@ + "|"@ + a.turn_id@ + "|"@;
    assert(key_text_spec(a) =~= head + a.tool_use_id@);
    assert(key_text_spec(b) =~= head + b.tool_use_id@);
    if key_text_spec(a) == key_text_spec(b) {
        let n = head.len() as int;
        assert((head + a.tool_use_id@).subrange(n, (head + a.tool_use_id@).len() as int) =~= a.tool_use_id@);
        assert((head + b.tool_use_id@).subrange(n, (head + b.tool_use_id@).len() as int) =~= b.tool_use_id@);
    }
}

/// Requests for approval or for input, and turns that wait or failed, still
/// notify during quiet hours under the `importantOnly` action.
pub open spec fn is_important(e: HookEvent, status: Seq<char>) -> bool {
    e.hook_event_name@ == "PermissionRequest"@ || is_input_request_spec(e) || status
        == "Waiting for input"@ || status == "Execution failed"@
}

pub open spec fn suppressed_spec(e: HookEvent, s: AppSettings, now: u32) -> bool {
    quiet_spec(s, now) && (s.quiet_action@ == "pause"@ || (s.quiet_action@ == "importantOnly"@
        && !is_important(e, status_spec(e).0)))
}

pub open spec fn silent_spec(e: HookEvent, s: AppSettings, now: u32) -> bool {
    quiet_spec(s, now) && !suppressed_spec(e, s, now) && s.quiet_action@ == "silent"@
}

/// The notification built for `e` under `s`, at the time of day `now`, with
/// relative paths read against `base`.
pub open spec fn notification_spec(
    n: Notification,
    e: HookEvent,
    s: AppSettings,
    now: u32,
    base: Seq<char>,
) -> bool {
    let project = project_name_spec(e.cwd@, s, base);
    let (status, icon) = status_spec(e);
    let raw = body_spec(e, s, status);
    let suppressed = suppressed_spec(e, s, now);
    let silent = silent_spec(e, s, now);
    let device = trim_spec(s.device_name@);
    &&& n.event_key@ == event_key_spec(e)
    &&& n.bark_id@ == n.event_key@
    &&& n.event_type@ == (if is_input_request_spec(e) || status == "Waiting for input"@ {
        "UserInputRequest"@
    } else {
        e.hook_event_name@
    })
    &&& n.session_id@ == e.session_id@
    &&& n.turn_id@ == e.turn_id@
    &&& n.project@ == project
    &&& n.cwd@ == e.cwd@
    &&& n.title@ == device + " · "@ + project
    &&& n.subtitle@ == (if trim_spec(e.session_name@).len() == 0 {
        trim_spec(e.thread_name@)
    } else {
        trim_spec(e.session_name@)
    })
    &&& n.body@ == (if s.redact_sensitive {
        redact_spec(raw)
    } else {
        raw
    })
    &&& n.group@ == s.group@
    &&& n.level@ == (if silent {
        "passive"@
    } else {
        s.level@
    })
    &&& n.sound@ == (if silent {
        Seq::empty()
    } else {
        s.sound@
    })
    &&& n.icon@ == s.bark_icon@
    &&& n.url@ == render_spec(s.click_url@, device, project, status, icon)
    &&& n.markdown == s.bark_markdown
    &&& n.image@ == s.bark_image@
    &&& n.volume == s.bark_volume
    &&& n.badge == s.bark_badge
    &&& n.call == s.bark_call
    &&& n.auto_copy == s.bark_auto_copy
    &&& n.copy@ == s.bark_copy@
    &&& n.archive == s.bark_archive
    &&& n.ttl == s.bark_ttl
    &&& n.action@ == s.bark_action@
    &&& n.suppressed == suppressed
    &&& n.suppress_reason@ == (if suppressed {
        "quietHours"@
    } else {
        Seq::empty()
    })
}

/// The key under which an event is stored once.
pub fn event_key(event: &HookEvent) -> (r: String)
    ensures
        r@ == event_key_spec(*event),
        r@.len() == 64,
        forall|i: int| 0 <= i < 64 ==> crate::digest::is_lower_hex(#[trigger] r@[i]),
{
    let mut text = event.hook_event_name.clone();
    push_str(&mut text, "|");
    push_str(&mut text, event.session_id.as_str());
    push_str(&mut text, "|");
    push_str(&mut text, event.turn_id.as_str());
    if same_text(event.hook_event_name.as_str(), "PermissionRequest") || is_user_input_request(event) {
        push_str(&mut text, "|");
        if event.tool_use_id.as_str().unicode_len() == 0 {
            push_str(&mut text, event.tool_name.as_str());
            push_str(&mut text, "|");
            let input = event.tool_input.to_text();
            push_str(&mut text, input.as_str());
        } else {
            push_str(&mut text, event.tool_use_id.as_str());
        }
    }
    assert(text@ =~= key_text_spec(*event));
    crate::digest::sha256_hex(text.as_str())
}

fn status_of(event: &HookEvent) -> (r: (&'static str, &'static str))
    ensures
        (r.0@, r.1@) == status_spec(*event),
{
    if same_text(event.hook_event_name.as_str(), "PermissionRequest") {
        ("Waiting for approval", "🔐")
    } else if is_user_input_request(event) {
        ("Waiting for input", "❓")
    } else {
        classify(event.last_assistant_message.as_str())
    }
}

/// The notification for `event` under `settings`, at the time of day `now`
/// (seconds after midnight), with relative paths read against `base`.
pub fn build_notification_at(event: &HookEvent, settings: &AppSettings, now: u32, base: &str) -> (r: Notification)
    ensures
        notification_spec(r, *event, *settings, now, base@),
        r.event_key@.len() == 64,
        forall|i: int| 0 <= i < 64 ==> crate::digest::is_lower_hex(#[trigger] r.event_key@[i]),
{
    let project = project_name(event.cwd.as_str(), settings, base);
    let (status, icon) = status_of(event);
    let raw = body_for(event, settings, status);
    let body = if settings.redact_sensitive {
        redact_sensitive_text(raw.as_str())
    } else {
        raw
    };
    let key = event_key(event);
    let mut level = settings.level.clone();
    let mut sound = settings.sound.clone();
    let mut suppressed = false;
    let mut suppress_reason = String::new();
    let input_request = is_user_input_request(event);
    if quiet_from(settings, now) {
        let important = same_text(event.hook_event_name.as_str(), "PermissionRequest")
            || input_request || same_text(status, "Waiting for input") || same_text(
            status,
            "Execution failed",
        );
        let action = settings.quiet_action.as_str();
        if same_text(action, "pause") || (same_text(action, "importantOnly") && !important) {
            suppressed = true;
            suppress_reason = owned("quietHours");
        } else if same_text(action, "silent") {
            level = owned("passive");
            sound = String::new();
        }
    }
    let device = trim(settings.device_name.as_str());
    let mut title = device.clone();
    push_str(&mut title, " · ");
    push_str(&mut title, project.as_str());
    let session = trim(event.session_name.as_str());
    let subtitle = if session.as_str().unicode_len() == 0 {
        trim(event.thread_name.as_str())
    } else {
        session
    };
    let url = render_template(settings.click_url.as_str(), device.as_str(), project.as_str(), status, icon);
    let event_type = if input_request || same_text(status, "Waiting for input") {
        owned("UserInputRequest")
    } else {
        event.hook_event_name.clone()
    };
    Notification {
        bark_id: key.clone(),
        event_key: key,
        event_type,
        session_id: event.session_id.clone(),
        turn_id: event.turn_id.clone(),
        project,
        cwd: event.cwd.clone(),
        title,
        subtitle,
        body,
        group: settings.group.clone(),
        level,
        sound,
        icon: settings.bark_icon.clone(),
        url,
        markdown: settings.bark_markdown,
        image: settings.bark_image.clone(),
        volume: settings.bark_volume,
        badge: settings.bark_badge,
        call: settings.bark_call,
        auto_copy: settings.bark_auto_copy,
        copy: settings.bark_copy.clone(),
        archive: settings.bark_archive,
        ttl: settings.bark_ttl,
        action: settings.bark_action.clone(),
        suppressed,
        suppress_reason,
    }
}

/// The notification for `event` under `settings`, at the current local time,
/// with relative paths read against this process's working directory.
pub fn build_notification(event: &HookEvent, settings: &AppSettings) -> (r: Notification)
    ensures
        exists|now: u32, base: Seq<char>|
            now < 86400 && notification_spec(r, *event, *settings, now, base),
        r.event_key@.len() == 64,
        forall|i: int| 0 <= i < 64 ==> crate::digest::is_lower_hex(#[trigger] r.event_key@[i]),
{
    let base = working_directory();
    let now = local_seconds_now();
    build_notification_at(event, settings, now, base.as_str())
}

} // verus!
