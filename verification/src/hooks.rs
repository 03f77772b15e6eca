//! The Codex hook configuration: the handlers this application adds to
//! Codex's `hooks.json`, how they are installed and removed without touching
//! other hooks, and how their trust state in Codex's `config.toml` is judged.

use vstd::prelude::*;
use crate::digest::{hex_spec, sha256_digest, sha256_hex};
use crate::json::{
    canon, canonical, copy_json, decimal, decimal_spec, entries_get, entries_v, get_v, insert_spec,
    array_of, items_v, json_text, jv, key_less, key_lt, lemma_key_lt_asymmetric, lemma_key_lt_irreflexive,
    lemma_key_lt_total, lemma_key_lt_transitive, lemma_jv_array, lemma_jv_object, lookup, number_from, object_insert,
    object_remove, push_str, remove_spec, str_of, u64_of, uint_v, Json, JsonV,
};
use crate::notification::or_empty;
use crate::paths::{join, join_spec};
use crate::error::{CoreError, CoreResult};
use crate::store::sat_u32;
use crate::text::{
    concat, contains, contains_spec, occurs_at, owned, replace, replace_spec, same_text, to_lowercase,
    unicode_lowercase,
};

verus! {

/// The argument that marks a handler as this application's.
pub const NEW_MARKER: &'static str = "--codex-notify-hook";

/// The argument that marked handlers of the application's earlier name.
pub const LEGACY_MARKER: &'static str = "--codex-bark-notifier";

/// A path quoted for a POSIX shell: in single quotes, each quote inside
/// written as `'\''`.
pub open spec fn quote_posix_spec(v: Seq<char>) -> Seq<char> {
    seq!['\''] + replace_spec(v, seq!['\''], seq!['\'', '\\', '\'', '\'']) + seq!['\'']
}

/// Quotes `value` for a POSIX shell.
pub fn quote_posix(value: &str) -> (r: String)
    ensures
        r@ == quote_posix_spec(value@),
{
    proof {
        reveal_strlit("'");
        reveal_strlit("'\\''");
    }
    let inner = replace(value, "'", "'\\''");
    let mut out = owned("'");
    push_str(&mut out, inner.as_str());
    push_str(&mut out, "'");
    proof {
        assert("'"@ =~= seq!['\'']);
        assert("'\\''"@ =~= seq!['\'', '\\', '\'', '\'']);
    }
    out
}

/// The command Windows runs: PowerShell, started explicitly so that the
/// outer shell may be PowerShell or cmd.exe, invoking the quoted path with
/// `&` (each quote in the path doubled) and the marker.
pub open spec fn windows_command_spec(v: Seq<char>) -> Seq<char> {
    "powershell.exe -NoLogo -NoProfile -NonInteractive -Command \"& '"@ + replace_spec(
        v,
        seq!['\''],
        seq!['\'', '\''],
    ) + "' "@ + NEW_MARKER@ + "\""@
}

/// The Windows command that runs the hook binary at `value`.
pub fn windows_command(value: &str) -> (r: String)
    ensures
        r@ == windows_command_spec(value@),
{
    proof {
        reveal_strlit("'");
        reveal_strlit("''");
        assert("'"@ =~= seq!['\'']);
        assert("''"@ =~= seq!['\'', '\'']);
    }
    let inner = replace(value, "'", "''");
    let mut out = owned("powershell.exe -NoLogo -NoProfile -NonInteractive -Command \"& '");
    push_str(&mut out, inner.as_str());
    push_str(&mut out, "' ");
    push_str(&mut out, NEW_MARKER);
    push_str(&mut out, "\"");
    out
}

/// The handler entry for the hook binary at `b`, with its keys in order.
pub open spec fn handler_spec(b: Seq<char>) -> JsonV {
    JsonV::Object(
        seq![
            ("async"@, JsonV::Bool(true)),
            ("command"@, JsonV::Str(quote_posix_spec(b) + " "@ + NEW_MARKER@)),
            ("commandWindows"@, JsonV::Str(windows_command_spec(b))),
            ("statusMessage"@, JsonV::Str("Recording Codex notification"@)),
            ("timeout"@, uint_v(30)),
            ("type"@, JsonV::Str("command"@)),
        ],
    )
}

/// The handler entry that runs the hook binary at `binary`: asynchronous,
/// with a 30 second timeout.
pub fn handler(binary: &str) -> (r: Json)
    ensures
        r@ == handler_spec(binary@),
{
    let mut command = quote_posix(binary);
    push_str(&mut command, " ");
    push_str(&mut command, NEW_MARKER);
    let mut e: Vec<(String, Json)> = Vec::new();
    e.push((owned("async"), Json::Bool(true)));
    e.push((owned("command"), Json::Str(command)));
    e.push((owned("commandWindows"), Json::Str(windows_command(binary))));
    e.push((owned("statusMessage"), Json::string("Recording Codex notification")));
    e.push((owned("timeout"), number_from(30)));
    e.push((owned("type"), Json::string("command")));
    proof {
        lemma_jv_object(e);
        assert(entries_v(e@) =~= handler_spec(binary@)->Object_0);
    }
    Json::Object(e)
}

/// The name under which Codex keeps the state of hooks of an event.
pub open spec fn hook_event_key(e: Seq<char>) -> Option<Seq<char>> {
    if e == "PreToolUse"@ {
        Some("pre_tool_use"@)
    } else if e == "PermissionRequest"@ {
        Some("permission_request"@)
    } else if e == "Stop"@ {
        Some("stop"@)
    } else {
        None
    }
}

/// The name under which Codex keeps the state of hooks of `event`, for the
/// three events this application handles.
pub fn event_key(event: &str) -> (r: Option<&'static str>)
    ensures
        match r {
            Some(k) => hook_event_key(event@) == Some(k@),
            None => hook_event_key(event@) is None,
        },
{
    if same_text(event, "PreToolUse") {
        Some("pre_tool_use")
    } else if same_text(event, "PermissionRequest") {
        Some("permission_request")
    } else if same_text(event, "Stop") {
        Some("stop")
    } else {
        None
    }
}

/// A handler's commands, POSIX and Windows, joined by a space.
pub open spec fn configured_spec(h: JsonV) -> Seq<char> {
    or_empty(str_of(get_v(h, "command"@))) + " "@ + or_empty(str_of(get_v(h, "commandWindows"@)))
}

/// Handlers whose commands carry this application's marker, new or old.
pub open spec fn ours_spec(h: JsonV) -> bool {
    contains_spec(configured_spec(h), NEW_MARKER@) || contains_spec(
        configured_spec(h),
        LEGACY_MARKER@,
    )
}

/// A handler's commands joined by a space.
pub fn configured(h: &Json) -> (r: String)
    ensures
        r@ == configured_spec(h@),
{
    let mut out = match h.get("command") {
        Some(c) => match c.as_str() {
            Some(s) => owned(s),
            None => String::new(),
        },
        None => String::new(),
    };
    push_str(&mut out, " ");
    match h.get("commandWindows") {
        Some(c) => match c.as_str() {
            Some(s) => push_str(&mut out, s),
            None => {},
        },
        None => {},
    }
    proof {
        assert(out@ =~= configured_spec(h@));
    }
    out
}

/// Whether the handler is this application's.
pub fn ours(h: &Json) -> (r: bool)
    ensures
        r == ours_spec(h@),
{
    let c = configured(h);
    contains(c.as_str(), NEW_MARKER) || contains(c.as_str(), LEGACY_MARKER)
}

/// The command that Codex runs for a handler: on Windows its Windows command
/// when it has one.
pub open spec fn hash_command(e: Seq<(Seq<char>, JsonV)>, windows: bool) -> Option<Seq<char>> {
    if windows && str_of(lookup(e, "commandWindows"@)) is Some {
        str_of(lookup(e, "commandWindows"@))
    } else {
        str_of(lookup(e, "command"@))
    }
}

/// The timeout Codex assumes: the given whole number of seconds, at least 1,
/// else 600.
pub open spec fn timeout_spec(o: Option<JsonV>) -> u64 {
    match u64_of(o) {
        Some(t) => if t < 1 {
            1
        } else {
            t
        },
        None => 600,
    }
}

/// A handler as Codex normalizes it for hashing: the command resolved, the
/// platform override and unsupported fields dropped, the timeout made
/// explicit and `async` defaulted to false.
pub open spec fn normalized_spec(e: Seq<(Seq<char>, JsonV)>, cmd: Seq<char>) -> Seq<
    (Seq<char>, JsonV),
> {
    let e1 = insert_spec(e, "command"@, JsonV::Str(cmd));
    let e2 = remove_spec(e1, "commandWindows"@);
    let e3 = remove_spec(e2, "command_windows"@);
    let e4 = remove_spec(e3, "additionalContextLimit"@);
    let e5 = insert_spec(e4, "timeout"@, uint_v(timeout_spec(lookup(e4, "timeout"@))));
    if lookup(e5, "async"@) is Some {
        e5
    } else {
        insert_spec(e5, "async"@, JsonV::Bool(false))
    }
}

/// The identity Codex hashes: the event's state name and the normalized
/// handler.
pub open spec fn identity_spec(key: Seq<char>, norm: Seq<(Seq<char>, JsonV)>) -> JsonV {
    JsonV::Object(
        seq![
            ("event_name"@, JsonV::Str(key)),
            ("hooks"@, JsonV::Array(seq![JsonV::Object(norm)])),
        ],
    )
}

/// The compact canonical JSON text that Codex hashes for a handler of
/// `event`; none for other events, handlers that are not objects and
/// handlers without a command.
pub open spec fn hash_text_spec(event: Seq<char>, h: JsonV, windows: bool) -> Option<Seq<char>> {
    match hook_event_key(event) {
        None => None,
        Some(key) => match h {
            JsonV::Object(e) => match hash_command(e, windows) {
                None => None,
                Some(cmd) => Some(json_text(canon(identity_spec(key, normalized_spec(e, cmd))))),
            },
            _ => None,
        },
    }
}

/// The hash under which Codex trusts a handler: `sha256:` and the lowercase
/// hexadecimal SHA-256 digest of its identity text.
pub open spec fn handler_hash_spec(event: Seq<char>, h: JsonV, windows: bool) -> Option<Seq<char>> {
    match hash_text_spec(event, h, windows) {
        Some(t) => Some("sha256:"@ + hex_spec(sha256_digest(vstd::utf8::encode_utf8(t)))),
        None => None,
    }
}

/// The hash Codex records when the user trusts the handler `source` of
/// `event` (`windows` tells which platform's command Codex runs).
pub fn handler_hash(event: &str, source: &Json, windows: bool) -> (r: Option<String>)
    ensures
        match r {
            Some(h) => handler_hash_spec(event@, source@, windows) == Some(h@),
            None => handler_hash_spec(event@, source@, windows) is None,
        },
{
    let key = match event_key(event) {
        Some(k) => k,
        None => return None,
    };
    let ghost e0 = match source@ {
        JsonV::Object(e) => e,
        _ => Seq::empty(),
    };
    if !source.is_object() {
        return None;
    }
    let windows_command = match source.get("commandWindows") {
        Some(c) => c.as_str(),
        None => None,
    };
    let command = match source.get("command") {
        Some(c) => c.as_str(),
        None => None,
    };
    let cmd: String = if windows && windows_command.is_some() {
        owned(windows_command.unwrap())
    } else {
        match command {
            Some(c) => owned(c),
            None => return None,
        }
    };
    assert(hash_command(e0, windows) == Some(cmd@));
    let copy = copy_json(source);
    let mut norm: Vec<(String, Json)> = match copy {
        Json::Object(v) => {
            proof {
                lemma_jv_object(v);
            }
            v
        },
        _ => {
            assert(false);
            return None;
        },
    };
    assert(entries_v(norm@) == e0);
    object_insert(&mut norm, owned("command"), Json::Str(cmd));
    object_remove(&mut norm, "commandWindows");
    object_remove(&mut norm, "command_windows");
    object_remove(&mut norm, "additionalContextLimit");
    let timeout: u64 = match entries_get(&norm, "timeout") {
        Some(t) => match t.as_u64() {
            Some(n) => if n < 1 {
                1
            } else {
                n
            },
            None => 600,
        },
        None => 600,
    };
    object_insert(&mut norm, owned("timeout"), number_from(timeout));
    if entries_get(&norm, "async").is_none() {
        object_insert(&mut norm, owned("async"), Json::Bool(false));
    }
    assert(entries_v(norm@) == normalized_spec(e0, cmd@));
    let ghost nv = entries_v(norm@);
    let hooks = vec![Json::Object(norm)];
    let mut identity_entries: Vec<(String, Json)> = Vec::new();
    identity_entries.push((owned("event_name"), Json::string(key)));
    proof {
        lemma_jv_array(hooks);
        assert(items_v(hooks@) =~= seq![JsonV::Object(nv)]) by {
            lemma_jv_object(norm);
        }
    }
    identity_entries.push((owned("hooks"), Json::Array(hooks)));
    proof {
        lemma_jv_object(identity_entries);
        assert(entries_v(identity_entries@) =~= identity_spec(key@, nv)->Object_0);
    }
    let identity = Json::Object(identity_entries);
    let text = canonical(&identity).to_text();
    let digest = sha256_hex(text.as_str());
    Some(concat("sha256:", digest.as_str()))
}

/// The directory of Codex's configuration: `CODEX_HOME` when set, else
/// `.codex` in the home directory, else `.codex` in the working directory.
pub open spec fn codex_home_spec(env: Option<Seq<char>>, home: Option<Seq<char>>) -> Seq<char> {
    match env {
        Some(v) => v,
        None => match home {
            Some(h) => join_spec(h, ".codex"@),
            None => ".codex"@,
        },
    }
}

/// Codex's configuration directory, given the value of `CODEX_HOME` and the
/// user's home directory.
pub fn codex_home(env: Option<&str>, home: Option<&str>) -> (r: String)
    ensures
        r@ == codex_home_spec(
            match env {
                Some(v) => Some(v@),
                None => None,
            },
            match home {
                Some(h) => Some(h@),
                None => None,
            },
        ),
{
    match env {
        Some(v) => owned(v),
        None => match home {
            Some(h) => join(h, ".codex"),
            None => owned(".codex"),
        },
    }
}

/// Codex's hook configuration file in the configuration directory `home`.
pub fn hooks_path(home: &str) -> (r: String)
    ensures
        r@ == join_spec(home@, "hooks.json"@),
{
    join(home, "hooks.json")
}

/// Codex's main configuration file in the configuration directory `home`.
pub fn config_path(home: &str) -> (r: String)
    ensures
        r@ == join_spec(home@, "config.toml"@),
{
    join(home, "config.toml")
}

/// `e` with the value of its first entry for `k` replaced by `v`, as
/// `Map::get_mut` changes a map.
pub open spec fn set_entry(e: Seq<(Seq<char>, JsonV)>, k: Seq<char>, v: JsonV) -> Seq<
    (Seq<char>, JsonV),
>
    decreases e.len(),
{
    if e.len() == 0 {
        e
    } else if e[0].0 == k {
        seq![(k, v)] + e.drop_first()
    } else {
        seq![e[0]] + set_entry(e.drop_first(), k, v)
    }
}

/// A copy of the entries `e` with the value of the first entry for `key`
/// replaced by `value`.
pub fn entries_with(e: &Vec<(String, Json)>, key: &str, value: Json) -> (r: Vec<(String, Json)>)
    ensures
        entries_v(r@) == set_entry(entries_v(e@), key@, value@),
{
    let ghost ev = entries_v(e@);
    let ghost v = value@;
    let mut out: Vec<(String, Json)> = Vec::new();
    let mut slot = Some(value);
    let mut i: usize = 0;
    assert(ev.subrange(0, ev.len() as int) =~= ev);
    while i < e.len()
        invariant
            i <= e.len(),
            ev == entries_v(e@),
            slot is Some ==> jv(slot->0) == v && set_entry(ev, key@, v) == entries_v(out@) + set_entry(
                ev.subrange(i as int, ev.len() as int),
                key@,
                v,
            ),
            slot is None ==> set_entry(ev, key@, v) == entries_v(out@) + ev.subrange(i as int, ev.len() as int),
        decreases e.len() - i,
    {
        let ghost tail = ev.subrange(i as int, ev.len() as int);
        assert(tail.drop_first() =~= ev.subrange(i + 1, ev.len() as int));
        let ghost prev = out@;
        if slot.is_some() && same_text(e[i].0.as_str(), key) {
            let val = slot.take().unwrap();
            out.push((e[i].0.clone(), val));
            assert(entries_v(out@) =~= entries_v(prev).push((key@, v)));
            assert(set_entry(tail, key@, v) =~= seq![(key@, v)] + tail.drop_first());
        } else {
            out.push((e[i].0.clone(), copy_json(&e[i].1)));
            assert(entries_v(out@) =~= entries_v(prev).push(ev[i as int]));
        }
        i = i + 1;
    }
    assert(ev.subrange(i as int, ev.len() as int) =~= Seq::<(Seq<char>, JsonV)>::empty());
    if slot.is_some() {
        assert(set_entry(Seq::<(Seq<char>, JsonV)>::empty(), key@, v) =~= Seq::<(Seq<char>, JsonV)>::empty());
    }
    assert(entries_v(out@) =~= set_entry(ev, key@, v));
    out
}

/// The handlers of a group that are not this application's, in order.
pub open spec fn kept_handlers(hs: Seq<JsonV>) -> Seq<JsonV>
    decreases hs.len(),
{
    if hs.len() == 0 {
        Seq::empty()
    } else if ours_spec(hs.last()) {
        kept_handlers(hs.drop_last())
    } else {
        kept_handlers(hs.drop_last()).push(hs.last())
    }
}

/// A group after this application's handlers are taken out of it: `None`
/// when it is left without handlers; groups without a handler list stay.
pub open spec fn strip_group(g: JsonV) -> Option<JsonV> {
    match g {
        JsonV::Object(e) => match lookup(e, "hooks"@) {
            Some(JsonV::Array(hs)) => if kept_handlers(hs).len() == 0 {
                None
            } else {
                Some(JsonV::Object(set_entry(e, "hooks"@, JsonV::Array(kept_handlers(hs)))))
            },
            _ => Some(g),
        },
        _ => Some(g),
    }
}

/// How many handlers are taken out of a group.
pub open spec fn group_removed(g: JsonV) -> nat {
    match g {
        JsonV::Object(e) => match lookup(e, "hooks"@) {
            Some(JsonV::Array(hs)) => (hs.len() - kept_handlers(hs).len()) as nat,
            _ => 0,
        },
        _ => 0,
    }
}

pub open spec fn strip_groups(gs: Seq<JsonV>) -> Seq<JsonV>
    decreases gs.len(),
{
    if gs.len() == 0 {
        Seq::empty()
    } else {
        match strip_group(gs.last()) {
            Some(g) => strip_groups(gs.drop_last()).push(g),
            None => strip_groups(gs.drop_last()),
        }
    }
}

pub open spec fn groups_removed(gs: Seq<JsonV>) -> nat
    decreases gs.len(),
{
    if gs.len() == 0 {
        0
    } else {
        groups_removed(gs.drop_last()) + group_removed(gs.last())
    }
}

/// An event's entry after stripping: a list of groups is stripped, anything
/// else stays.
pub open spec fn strip_value(v: JsonV) -> JsonV {
    match v {
        JsonV::Array(gs) => JsonV::Array(strip_groups(gs)),
        _ => v,
    }
}

pub open spec fn value_removed(v: JsonV) -> nat {
    match v {
        JsonV::Array(gs) => groups_removed(gs),
        _ => 0,
    }
}

pub open spec fn strip_entries(e: Seq<(Seq<char>, JsonV)>) -> Seq<(Seq<char>, JsonV)> {
    Seq::new(e.len(), |i: int| (e[i].0, strip_value(e[i].1)))
}

pub open spec fn entries_removed(e: Seq<(Seq<char>, JsonV)>) -> nat
    decreases e.len(),
{
    if e.len() == 0 {
        0
    } else {
        entries_removed(e.drop_last()) + value_removed(e.last().1)
    }
}

/// The hook document without this application's handlers, and without the
/// groups that held nothing else.
pub open spec fn strip_doc(doc: JsonV) -> JsonV {
    match doc {
        JsonV::Object(e) => match lookup(e, "hooks"@) {
            Some(JsonV::Object(he)) => JsonV::Object(set_entry(e, "hooks"@, JsonV::Object(strip_entries(he)))),
            _ => doc,
        },
        _ => doc,
    }
}

/// How many of this application's handlers the document holds.
pub open spec fn doc_removed(doc: JsonV) -> nat {
    match doc {
        JsonV::Object(e) => match lookup(e, "hooks"@) {
            Some(JsonV::Object(he)) => entries_removed(he),
            _ => 0,
        },
        _ => 0,
    }
}

fn kept(hs: &Vec<Json>) -> (r: Vec<Json>)
    ensures
        items_v(r@) == kept_handlers(items_v(hs@)),
        r@.len() <= hs@.len(),
{
    let ghost hv = items_v(hs@);
    let mut out: Vec<Json> = Vec::new();
    let mut i: usize = 0;
    while i < hs.len()
        invariant
            i <= hs.len(),
            hv == items_v(hs@),
            items_v(out@) == kept_handlers(hv.take(i as int)),
            out@.len() <= i,
        decreases hs.len() - i,
    {
        assert(hv.take(i + 1).drop_last() =~= hv.take(i as int));
        let ghost prev = out@;
        if !ours(&hs[i]) {
            out.push(copy_json(&hs[i]));
            assert(items_v(out@) =~= items_v(prev).push(hv[i as int]));
        }
        i = i + 1;
    }
    assert(hv.take(hs.len() as int) =~= hv);
    out
}

fn sat_add(a: u32, b: u32) -> (r: u32)
    ensures
        r == sat_u32((a + b) as nat),
{
    if a > u32::MAX - b {
        u32::MAX
    } else {
        a + b
    }
}

fn sat_of(n: usize) -> (r: u32)
    ensures
        r == sat_u32(n as nat),
{
    if n > u32::MAX as usize {
        u32::MAX
    } else {
        n as u32
    }
}

fn strip_group_exec(g: &Json) -> (r: (Option<Json>, u32))
    ensures
        match r.0 {
            Some(x) => strip_group(g@) == Some(x@),
            None => strip_group(g@) is None,
        },
        r.1 == sat_u32(group_removed(g@)),
{
    match g {
        Json::Object(e) => {
            proof {
                lemma_jv_object(*e);
            }
            match entries_get(e, "hooks") {
                Some(h) => match h {
                    Json::Array(hs) => {
                        proof {
                            lemma_jv_array(*hs);
                        }
                        let k = kept(hs);
                        let removed = sat_of(hs.len() - k.len());
                        if k.len() == 0 {
                            (None, removed)
                        } else {
                            let ghost kv = items_v(k@);
                            proof {
                                lemma_jv_array(k);
                            }
                            let ne = entries_with(e, "hooks", Json::Array(k));
                            proof {
                                lemma_jv_object(ne);
                            }
                            (Some(Json::Object(ne)), removed)
                        }
                    },
                    _ => (Some(copy_json(g)), 0),
                },
                None => (Some(copy_json(g)), 0),
            }
        },
        _ => (Some(copy_json(g)), 0),
    }
}

fn strip_groups_exec(gs: &Vec<Json>) -> (r: (Vec<Json>, u32))
    ensures
        items_v(r.0@) == strip_groups(items_v(gs@)),
        r.1 == sat_u32(groups_removed(items_v(gs@))),
{
    let ghost gv = items_v(gs@);
    let mut out: Vec<Json> = Vec::new();
    let mut count: u32 = 0;
    let mut i: usize = 0;
    while i < gs.len()
        invariant
            i <= gs.len(),
            gv == items_v(gs@),
            items_v(out@) == strip_groups(gv.take(i as int)),
            count == sat_u32(groups_removed(gv.take(i as int))),
        decreases gs.len() - i,
    {
        assert(gv.take(i + 1).drop_last() =~= gv.take(i as int));
        let ghost prev = out@;
        let (g, n) = strip_group_exec(&gs[i]);
        match g {
            Some(x) => {
                out.push(x);
                assert(items_v(out@) =~= items_v(prev).push(strip_group(gv[i as int])->0));
            },
            None => {},
        }
        count = sat_add(count, n);
        i = i + 1;
    }
    assert(gv.take(gs.len() as int) =~= gv);
    (out, count)
}

fn strip_entries_exec(e: &Vec<(String, Json)>) -> (r: (Vec<(String, Json)>, u32))
    ensures
        entries_v(r.0@) == strip_entries(entries_v(e@)),
        r.1 == sat_u32(entries_removed(entries_v(e@))),
{
    let ghost ev = entries_v(e@);
    let mut out: Vec<(String, Json)> = Vec::new();
    let mut count: u32 = 0;
    let mut i: usize = 0;
    while i < e.len()
        invariant
            i <= e.len(),
            ev == entries_v(e@),
            entries_v(out@) == strip_entries(ev.take(i as int)),
            count == sat_u32(entries_removed(ev.take(i as int))),
        decreases e.len() - i,
    {
        assert(ev.take(i + 1).drop_last() =~= ev.take(i as int));
        let ghost prev = out@;
        let key = e[i].0.clone();
        assert(strip_entries(ev.take(i + 1)) =~= strip_entries(ev.take(i as int)).push((ev[i as int].0, strip_value(ev[i as int].1))));
        match &e[i].1 {
            Json::Array(gs) => {
                proof {
                    lemma_jv_array(*gs);
                }
                let (ng, n) = strip_groups_exec(gs);
                proof {
                    lemma_jv_array(ng);
                }
                out.push((key, Json::Array(ng)));
                count = sat_add(count, n);
                assert(entries_v(out@) =~= entries_v(prev).push((ev[i as int].0, strip_value(ev[i as int].1))));
            },
            other => {
                out.push((key, copy_json(other)));
                assert(entries_v(out@) =~= entries_v(prev).push((ev[i as int].0, strip_value(ev[i as int].1))));
            },
        }
        i = i + 1;
    }
    assert(ev.take(e.len() as int) =~= ev);
    (out, count)
}

/// Takes this application's handlers out of the hook document, and the
/// groups left without handlers; returns how many handlers were taken out.
pub fn remove_ours(document: &mut Json) -> (r: u32)
    ensures
        final(document)@ == strip_doc(old(document)@),
        r == sat_u32(doc_removed(old(document)@)),
{
    let mut result: Option<(Json, u32)> = None;
    match &*document {
        Json::Object(e) => {
            proof {
                lemma_jv_object(*e);
            }
            match entries_get(e, "hooks") {
                Some(h) => match h {
                    Json::Object(he) => {
                        proof {
                            lemma_jv_object(*he);
                        }
                        let (ne, n) = strip_entries_exec(he);
                        proof {
                            lemma_jv_object(ne);
                        }
                        let doc_entries = entries_with(e, "hooks", Json::Object(ne));
                        proof {
                            lemma_jv_object(doc_entries);
                        }
                        result = Some((Json::Object(doc_entries), n));
                    },
                    _ => {},
                },
                None => {},
            }
        },
        _ => {},
    }
    match result {
        Some((d, n)) => {
            *document = d;
            n
        },
        None => 0,
    }
}

/// The document used when Codex has no hook configuration yet.
pub open spec fn default_doc() -> JsonV {
    JsonV::Object(
        seq![
            ("description"@, JsonV::Str("User lifecycle hooks for Codex."@)),
            ("hooks"@, JsonV::Object(Seq::empty())),
        ],
    )
}

/// A hook document whose `hooks` entry is an object: what `load` accepts.
pub open spec fn doc_ready(doc: JsonV) -> bool {
    match doc {
        JsonV::Object(e) => lookup(e, "hooks"@) matches Some(JsonV::Object(_)),
        _ => false,
    }
}

/// The hook document to work on, from the configuration file: `None` when
/// there is no file, else the file parsed as JSON or the parser's message.
/// An invalid file is refused rather than overwritten; a missing `hooks`
/// object is added.
pub fn load(parsed: Option<Result<Json, String>>) -> (r: CoreResult<Json>)
    ensures
        match parsed {
            None => r matches Ok(d) && d@ == default_doc(),
            Some(Err(m)) => r matches Err(CoreError::HookConfig(x)) && x@ == "refusing to overwrite invalid JSON: "@ + m@,
            Some(Ok(v)) => match v@ {
                JsonV::Object(e) => match lookup(e, "hooks"@) {
                    None => r matches Ok(d) && d@ == JsonV::Object(insert_spec(e, "hooks"@, JsonV::Object(Seq::empty()))),
                    Some(JsonV::Object(_)) => r matches Ok(d) && d@ == v@,
                    Some(_) => r matches Err(CoreError::HookConfig(x)) && x@ == "hooks.json must contain an object named hooks"@,
                },
                _ => r matches Err(CoreError::HookConfig(x)) && x@ == "hooks.json must be a JSON object"@,
            },
        },
        r matches Ok(d) ==> doc_ready(d@),
{
    match parsed {
        None => {
            let mut e: Vec<(String, Json)> = Vec::new();
            let empty: Vec<(String, Json)> = Vec::new();
            proof {
                lemma_jv_object(empty);
                assert(entries_v(empty@) =~= Seq::<(Seq<char>, JsonV)>::empty());
            }
            e.push((owned("description"), Json::string("User lifecycle hooks for Codex.")));
            e.push((owned("hooks"), Json::Object(empty)));
            proof {
                lemma_jv_object(e);
                assert(entries_v(e@) =~= default_doc()->Object_0);
                reveal_strlit("hooks");
                reveal_strlit("description");
                assert("description"@ != "hooks"@) by {
                    assert("description"@[0] != "hooks"@[0]);
                }
                let de = default_doc()->Object_0;
                assert(de.drop_first() =~= seq![("hooks"@, JsonV::Object(Seq::empty()))]);
                assert(lookup(de.drop_first(), "hooks"@) == Some(JsonV::Object(Seq::empty())));
                assert(lookup(de, "hooks"@) == Some(JsonV::Object(Seq::empty())));
            }
            Ok(Json::Object(e))
        },
        Some(Err(m)) => Err(CoreError::HookConfig(concat("refusing to overwrite invalid JSON: ", m.as_str()))),
        Some(Ok(v)) => match v {
            Json::Object(mut e) => {
                proof {
                    lemma_jv_object(e);
                }
                let ghost e0 = entries_v(e@);
                let state: u8 = match entries_get(&e, "hooks") {
                    None => 0,
                    Some(h) => if h.is_object() {
                        1
                    } else {
                        2
                    },
                };
                if state == 2 {
                    return Err(CoreError::HookConfig(owned("hooks.json must contain an object named hooks")));
                }
                if state == 0 {
                    let empty: Vec<(String, Json)> = Vec::new();
                    proof {
                        lemma_jv_object(empty);
                        assert(entries_v(empty@) =~= Seq::<(Seq<char>, JsonV)>::empty());
                    }
                    object_insert(&mut e, owned("hooks"), Json::Object(empty));
                    proof {
                        lemma_lookup_insert(e0, "hooks"@, JsonV::Object(Seq::empty()));
                    }
                }
                proof {
                    lemma_jv_object(e);
                }
                Ok(Json::Object(e))
            },
            _ => Err(CoreError::HookConfig(owned("hooks.json must be a JSON object"))),
        },
    }
}

/// After inserting `k`, looking `k` up finds the inserted value.
pub proof fn lemma_lookup_insert(e: Seq<(Seq<char>, JsonV)>, k: Seq<char>, v: JsonV)
    ensures
        lookup(insert_spec(e, k, v), k) == Some(v),
    decreases e.len(),
{
    if e.len() > 0 && e[0].0 != k && !crate::json::key_lt(k, e[0].0) {
        lemma_lookup_insert(e.drop_first(), k, v);
        assert((seq![e[0]] + insert_spec(e.drop_first(), k, v)).drop_first() =~= insert_spec(e.drop_first(), k, v));
    }
}

/// After setting the entry for `k`, looking `k` up finds the new value, when
/// there was an entry for it.
pub proof fn lemma_lookup_set_entry(e: Seq<(Seq<char>, JsonV)>, k: Seq<char>, v: JsonV)
    requires
        lookup(e, k) is Some,
    ensures
        lookup(set_entry(e, k, v), k) == Some(v),
    decreases e.len(),
{
    if e[0].0 != k {
        lemma_lookup_set_entry(e.drop_first(), k, v);
        assert((seq![e[0]] + set_entry(e.drop_first(), k, v)).drop_first() =~= set_entry(e.drop_first(), k, v));
    }
}

/// The group that runs the hook binary at `b` for an event.
pub open spec fn plain_group(b: Seq<char>) -> JsonV {
    JsonV::Object(seq![("hooks"@, JsonV::Array(seq![handler_spec(b)]))])
}

/// The group that runs the hook binary at `b` before the tool that asks the
/// user for input.
pub open spec fn input_group(b: Seq<char>) -> JsonV {
    JsonV::Object(
        seq![
            ("hooks"@, JsonV::Array(seq![handler_spec(b)])),
            ("matcher"@, JsonV::Str("^(request_user_input|requestUserInput)$"@)),
        ],
    )
}

/// Appending `g` to the groups of `event`: a missing event gets a list of
/// its own; an event whose entry is not a list cannot take it.
pub open spec fn add_group(he: Seq<(Seq<char>, JsonV)>, event: Seq<char>, g: JsonV) -> Option<
    Seq<(Seq<char>, JsonV)>,
> {
    match lookup(he, event) {
        None => Some(insert_spec(he, event, JsonV::Array(seq![g]))),
        Some(JsonV::Array(gs)) => Some(set_entry(he, event, JsonV::Array(gs.push(g)))),
        Some(_) => None,
    }
}

/// The entries of a document's `hooks` object.
pub open spec fn hooks_of(doc: JsonV) -> Seq<(Seq<char>, JsonV)> {
    match doc {
        JsonV::Object(e) => match lookup(e, "hooks"@) {
            Some(JsonV::Object(he)) => he,
            _ => Seq::empty(),
        },
        _ => Seq::empty(),
    }
}

/// The document with its `hooks` object replaced by one with entries `he`.
pub open spec fn with_hooks(doc: JsonV, he: Seq<(Seq<char>, JsonV)>) -> JsonV {
    match doc {
        JsonV::Object(e) => JsonV::Object(set_entry(e, "hooks"@, JsonV::Object(he))),
        _ => doc,
    }
}

/// Installing into a document: this application's old handlers go, then a
/// group with the new handler is appended for `Stop`, for
/// `PermissionRequest` and, limited to the tool that asks the user for input,
/// for `PreToolUse`; an event whose entry is not a list is an error.
pub open spec fn install_spec(doc: JsonV, b: Seq<char>) -> Result<JsonV, Seq<char>> {
    let s = strip_doc(doc);
    match add_group(hooks_of(s), "Stop"@, plain_group(b)) {
        None => Err("hooks.Stop must be an array"@),
        Some(h1) => match add_group(h1, "PermissionRequest"@, plain_group(b)) {
            None => Err("hooks.PermissionRequest must be an array"@),
            Some(h2) => match add_group(h2, "PreToolUse"@, input_group(b)) {
                None => Err("hooks.PreToolUse must be an array"@),
                Some(h3) => Ok(with_hooks(s, h3)),
            },
        },
    }
}

fn copy_entries(e: &Vec<(String, Json)>) -> (r: Vec<(String, Json)>)
    ensures
        entries_v(r@) == entries_v(e@),
{
    let mut out: Vec<(String, Json)> = Vec::new();
    let mut i: usize = 0;
    while i < e.len()
        invariant
            i <= e.len(),
            out@.len() == i,
            forall|k: int| 0 <= k < i ==> (#[trigger] out@[k]).0@ == e@[k].0@ && jv(out@[k].1) == jv(e@[k].1),
        decreases e.len() - i,
    {
        out.push((e[i].0.clone(), copy_json(&e[i].1)));
        i = i + 1;
    }
    assert(entries_v(out@) =~= entries_v(e@));
    out
}

fn add_group_exec(he: &Vec<(String, Json)>, event: &str, g: Json) -> (r: Option<Vec<(String, Json)>>)
    ensures
        match r {
            Some(x) => add_group(entries_v(he@), event@, g@) == Some(entries_v(x@)),
            None => add_group(entries_v(he@), event@, g@) is None,
        },
{
    let ghost gv = g@;
    match entries_get(he, event) {
        None => {
            let mut out = copy_entries(he);
            let items = vec![g];
            proof {
                lemma_jv_array(items);
                assert(items_v(items@) =~= seq![gv]);
            }
            object_insert(&mut out, owned(event), Json::Array(items));
            Some(out)
        },
        Some(v) => match v {
            Json::Array(gs) => {
                proof {
                    lemma_jv_array(*gs);
                }
                let mut items: Vec<Json> = Vec::new();
                let mut i: usize = 0;
                while i < gs.len()
                    invariant
                        i <= gs.len(),
                        items@.len() == i,
                        forall|k: int| 0 <= k < i ==> jv(#[trigger] items@[k]) == jv(gs@[k]),
                    decreases gs.len() - i,
                {
                    items.push(copy_json(&gs[i]));
                    i = i + 1;
                }
                items.push(g);
                proof {
                    lemma_jv_array(items);
                    assert(items_v(items@) =~= items_v(gs@).push(gv));
                }
                Some(entries_with(he, event, Json::Array(items)))
            },
            _ => None,
        },
    }
}

/// The group that runs the hook binary at `binary`, for `PreToolUse` limited
/// to the tool that asks the user for input.
fn group_for(binary: &str, input: bool) -> (r: Json)
    ensures
        r@ == if input {
            input_group(binary@)
        } else {
            plain_group(binary@)
        },
{
    let hs = vec![handler(binary)];
    proof {
        lemma_jv_array(hs);
        assert(items_v(hs@) =~= seq![handler_spec(binary@)]);
    }
    let mut e: Vec<(String, Json)> = Vec::new();
    e.push((owned("hooks"), Json::Array(hs)));
    if input {
        e.push((owned("matcher"), Json::string("^(request_user_input|requestUserInput)$")));
    }
    proof {
        lemma_jv_object(e);
        if input {
            assert(entries_v(e@) =~= input_group(binary@)->Object_0);
        } else {
            assert(entries_v(e@) =~= plain_group(binary@)->Object_0);
        }
    }
    Json::Object(e)
}

/// Installs the handlers for the hook binary at `binary` into the loaded
/// hook document; see `install_spec`. A binary that does not exist is
/// refused.
pub fn install(doc: Json, binary: &str, binary_exists: bool) -> (r: CoreResult<Json>)
    requires
        doc_ready(doc@),
    ensures
        !binary_exists ==> (r matches Err(CoreError::HookConfig(m)) && m@ == "hook binary does not exist: "@ + binary@),
        binary_exists ==> match install_spec(doc@, binary@) {
            Ok(d) => r matches Ok(x) && x@ == d,
            Err(m) => r matches Err(CoreError::HookConfig(x)) && x@ == m,
        },
{
    if !binary_exists {
        return Err(CoreError::HookConfig(concat("hook binary does not exist: ", binary)));
    }
    let mut d = doc;
    let ghost d0 = d@;
    remove_ours(&mut d);
    let ghost s = d@;
    let e = match d {
        Json::Object(e) => e,
        _ => {
            assert(false);
            return Err(CoreError::HookConfig(String::new()));
        },
    };
    proof {
        lemma_jv_object(e);
        let e0 = d0->Object_0;
        let he0 = lookup(e0, "hooks"@)->0->Object_0;
        lemma_lookup_set_entry(e0, "hooks"@, JsonV::Object(strip_entries(he0)));
    }
    let he: &Vec<(String, Json)> = match entries_get(&e, "hooks") {
        Some(h) => match h {
            Json::Object(he) => he,
            _ => {
                assert(false);
                return Err(CoreError::HookConfig(String::new()));
            },
        },
        None => {
            assert(false);
            return Err(CoreError::HookConfig(String::new()));
        },
    };
    proof {
        lemma_jv_object(*he);
        assert(entries_v(he@) == hooks_of(s));
    }
    let h1 = match add_group_exec(he, "Stop", group_for(binary, false)) {
        Some(h) => h,
        None => return Err(CoreError::HookConfig(owned("hooks.Stop must be an array"))),
    };
    let h2 = match add_group_exec(&h1, "PermissionRequest", group_for(binary, false)) {
        Some(h) => h,
        None => return Err(CoreError::HookConfig(owned("hooks.PermissionRequest must be an array"))),
    };
    let h3 = match add_group_exec(&h2, "PreToolUse", group_for(binary, true)) {
        Some(h) => h,
        None => return Err(CoreError::HookConfig(owned("hooks.PreToolUse must be an array"))),
    };
    proof {
        lemma_jv_object(h3);
    }
    let out = entries_with(&e, "hooks", Json::Object(h3));
    proof {
        lemma_jv_object(out);
    }
    Ok(Json::Object(out))
}

/// Takes this application's handlers out of the loaded hook document;
/// returns the new document and how many handlers were taken out.
pub fn uninstall(doc: Json) -> (r: (Json, u32))
    ensures
        r.0@ == strip_doc(doc@),
        r.1 == sat_u32(doc_removed(doc@)),
{
    let mut d = doc;
    let n = remove_ours(&mut d);
    (d, n)
}

/// One of this application's handlers in a hook document: its event, the
/// position of its group among the event's groups, its position in the
/// group, and the handler.
pub type Site = (Seq<char>, int, int, JsonV);

/// The handlers of a group that are this application's (`mine`) or not, with
/// their positions.
pub open spec fn handler_sites(event: Seq<char>, g: int, hs: Seq<JsonV>, mine: bool) -> Seq<Site>
    decreases hs.len(),
{
    if hs.len() == 0 {
        Seq::empty()
    } else if ours_spec(hs.last()) == mine {
        handler_sites(event, g, hs.drop_last(), mine).push((event, g, hs.len() - 1, hs.last()))
    } else {
        handler_sites(event, g, hs.drop_last(), mine)
    }
}

pub open spec fn group_sites(event: Seq<char>, gs: Seq<JsonV>, mine: bool) -> Seq<Site>
    decreases gs.len(),
{
    if gs.len() == 0 {
        Seq::empty()
    } else {
        group_sites(event, gs.drop_last(), mine) + match array_of(get_v(gs.last(), "hooks"@)) {
            Some(hs) => handler_sites(event, gs.len() - 1, hs, mine),
            None => Seq::empty(),
        }
    }
}

pub open spec fn value_sites(event: Seq<char>, v: JsonV, mine: bool) -> Seq<Site> {
    match v {
        JsonV::Array(gs) => group_sites(event, gs, mine),
        _ => Seq::empty(),
    }
}

pub open spec fn entry_sites(e: Seq<(Seq<char>, JsonV)>, mine: bool) -> Seq<Site>
    decreases e.len(),
{
    if e.len() == 0 {
        Seq::empty()
    } else {
        entry_sites(e.drop_last(), mine) + value_sites(e.last().0, e.last().1, mine)
    }
}

/// The handlers of a hook document that are this application's (`mine`) or
/// not, in document order.
pub open spec fn doc_handlers(doc: JsonV, mine: bool) -> Seq<Site> {
    match get_v(doc, "hooks"@) {
        Some(JsonV::Object(e)) => entry_sites(e, mine),
        _ => Seq::empty(),
    }
}

/// This application's handlers in a hook document, in document order.
pub open spec fn doc_sites(doc: JsonV) -> Seq<Site> {
    doc_handlers(doc, true)
}

/// A handler of this application found in a hook document.
pub struct SiteRef<'a> {
    pub event: &'a str,
    pub group: usize,
    pub index: usize,
    pub handler: &'a Json,
}

pub open spec fn sites_v(v: Seq<SiteRef>) -> Seq<Site> {
    Seq::new(v.len(), |i: int| (v[i].event@, v[i].group as int, v[i].index as int, v[i].handler@))
}

proof fn lemma_sites_v_push(v: Seq<SiteRef>, x: SiteRef)
    ensures
        sites_v(v.push(x)) == sites_v(v).push((x.event@, x.group as int, x.index as int, x.handler@)),
{
    assert(sites_v(v.push(x)) =~= sites_v(v).push((x.event@, x.group as int, x.index as int, x.handler@)));
}

/// This application's handlers in the hook document, in document order.
pub fn collect_sites<'a>(doc: &'a Json) -> (r: Vec<SiteRef<'a>>)
    ensures
        sites_v(r@) == doc_sites(doc@),
{
    let mut out: Vec<SiteRef<'a>> = Vec::new();
    assert(sites_v(out@) =~= Seq::<Site>::empty());
    let hooks = match doc.get("hooks") {
        Some(h) => h,
        None => return out,
    };
    let he = match hooks {
        Json::Object(he) => he,
        _ => return out,
    };
    proof {
        lemma_jv_object(*he);
    }
    let ghost ev = entries_v(he@);
    let mut i: usize = 0;
    while i < he.len()
        invariant
            i <= he.len(),
            ev == entries_v(he@),
            sites_v(out@) == entry_sites(ev.take(i as int), true),
        decreases he.len() - i,
    {
        assert(ev.take(i + 1).drop_last() =~= ev.take(i as int));
        let event: &'a str = he[i].0.as_str();
        let ghost base = sites_v(out@);
        match &he[i].1 {
            Json::Array(gs) => {
                proof {
                    lemma_jv_array(*gs);
                }
                let ghost gv = items_v(gs@);
                let mut gi: usize = 0;
                assert(base + group_sites(event@, gv.take(0), true) =~= base);
                while gi < gs.len()
                    invariant
                        gi <= gs.len(),
                        gv == items_v(gs@),
                        sites_v(out@) == base + group_sites(event@, gv.take(gi as int), true),
                    decreases gs.len() - gi,
                {
                    assert(gv.take(gi + 1).drop_last() =~= gv.take(gi as int));
                    let ghost base2 = sites_v(out@);
                    match gs[gi].get("hooks") {
                        Some(h) => match h.as_array() {
                            Some(hs) => {
                                let ghost hv = items_v(hs@);
                                let mut hi: usize = 0;
                                assert(base2 + handler_sites(event@, gi as int, hv.take(0), true) =~= base2);
                                while hi < hs.len()
                                    invariant
                                        hi <= hs.len(),
                                        hv == items_v(hs@),
                                        sites_v(out@) == base2 + handler_sites(event@, gi as int, hv.take(hi as int), true),
                                    decreases hs.len() - hi,
                                {
                                    assert(hv.take(hi + 1).drop_last() =~= hv.take(hi as int));
                                    if ours(&hs[hi]) {
                                        let ghost prev = out@;
                                        out.push(SiteRef { event, group: gi, index: hi, handler: &hs[hi] });
                                        proof {
                                            lemma_sites_v_push(prev, out@.last());
                                            assert(out@ == prev.push(out@.last()));
                                        }
                                        assert(sites_v(out@) =~= base2 + handler_sites(event@, gi as int, hv.take(hi + 1), true));
                                    }
                                    hi = hi + 1;
                                }
                                assert(hv.take(hs.len() as int) =~= hv);
                                assert(sites_v(out@) =~= base + group_sites(event@, gv.take(gi + 1), true));
                            },
                            None => {
                                assert(sites_v(out@) =~= base + group_sites(event@, gv.take(gi + 1), true));
                            },
                        },
                        None => {
                            assert(sites_v(out@) =~= base + group_sites(event@, gv.take(gi + 1), true));
                        },
                    }
                    gi = gi + 1;
                }
                assert(gv.take(gs.len() as int) =~= gv);
                assert(sites_v(out@) =~= entry_sites(ev.take(i + 1), true));
            },
            _ => {
                assert(sites_v(out@) =~= entry_sites(ev.take(i + 1), true));
            },
        }
        i = i + 1;
    }
    assert(ev.take(he.len() as int) =~= ev);
    out
}

/// What Codex's configuration records of one hook: whether it is enabled, and
/// the hash under which the user trusted it.
pub struct StoredHookState {
    pub enabled: bool,
    pub trusted_hash: Option<String>,
}

/// The entries of `hooks.state` in the TOML text `text`, each with its key,
/// its `enabled` flag and its `trusted_hash`, where those are a boolean and a
/// string; `None` when the text is not valid TOML.
pub uninterp spec fn toml_hook_states(text: Seq<char>) -> Option<Seq<(Seq<char>, Option<bool>, Option<Seq<char>>)>>;

pub open spec fn raw_state_v(x: (String, Option<bool>, Option<String>)) -> (Seq<char>, Option<bool>, Option<Seq<char>>) {
    (
        x.0@,
        x.1,
        match x.2 {
            Some(h) => Some(h@),
            None => None,
        },
    )
}

pub open spec fn raw_states_v(v: Seq<(String, Option<bool>, Option<String>)>) -> Seq<(Seq<char>, Option<bool>, Option<Seq<char>>)> {
    Seq::new(v.len(), |i: int| raw_state_v(v[i]))
}

/// Parses `text` with `toml::from_str` and reads the table `hooks.state`
/// (in the table's key order): its result is named `toml_hook_states`.
#[verifier::external_body]
fn parse_hook_states(text: &str) -> (r: Option<Vec<(String, Option<bool>, Option<String>)>>)
    ensures
        match r {
            Some(v) => toml_hook_states(text@) == Some(raw_states_v(v@)),
            None => toml_hook_states(text@) is None,
        },
{
    let document: toml::Value = toml::from_str(text).ok()?;
    let states = document.get("hooks").and_then(|v| v.get("state")).and_then(toml::Value::as_table);
    Some(
        states.into_iter().flatten().map(
            |(k, v)|
                (
                    k.clone(),
                    v.get("enabled").and_then(toml::Value::as_bool),
                    v.get("trusted_hash").and_then(toml::Value::as_str).map(str::to_owned),
                ),
        ).collect(),
    )
}

/// A stored state: a hook without an `enabled` flag is enabled.
pub open spec fn state_of(x: (Seq<char>, Option<bool>, Option<Seq<char>>)) -> (Seq<char>, bool, Option<Seq<char>>) {
    (
        x.0,
        match x.1 {
            Some(b) => b,
            None => true,
        },
        x.2,
    )
}

pub open spec fn states_v(v: Seq<(String, StoredHookState)>) -> Seq<(Seq<char>, bool, Option<Seq<char>>)> {
    Seq::new(
        v.len(),
        |i: int|
            (
                v[i].0@,
                v[i].1.enabled,
                match v[i].1.trusted_hash {
                    Some(h) => Some(h@),
                    None => None,
                },
            ),
    )
}

/// The stored hook states that Codex's configuration text `text` holds.
pub open spec fn stored_states_spec(text: Seq<char>) -> Option<Seq<(Seq<char>, bool, Option<Seq<char>>)>> {
    match toml_hook_states(text) {
        Some(raw) => Some(Seq::new(raw.len(), |i: int| state_of(raw[i]))),
        None => None,
    }
}

/// The hook states recorded in Codex's configuration text (`None` when the
/// file could not be read, or is not valid TOML; a missing file reads as
/// empty text).
pub fn stored_hook_states(config: Option<&str>) -> (r: Option<Vec<(String, StoredHookState)>>)
    ensures
        match config {
            None => r is None,
            Some(t) => match r {
                Some(v) => stored_states_spec(t@) == Some(states_v(v@)),
                None => stored_states_spec(t@) is None,
            },
        },
{
    let text = match config {
        Some(t) => t,
        None => return None,
    };
    let raw = match parse_hook_states(text) {
        Some(v) => v,
        None => return None,
    };
    let ghost rv = raw_states_v(raw@);
    let mut out: Vec<(String, StoredHookState)> = Vec::new();
    let mut i: usize = 0;
    while i < raw.len()
        invariant
            i <= raw.len(),
            rv == raw_states_v(raw@),
            out@.len() == i,
            forall|k: int| 0 <= k < i ==> states_v(out@)[k] == state_of(#[trigger] rv[k]),
        decreases raw.len() - i,
    {
        let enabled = match raw[i].1 {
            Some(b) => b,
            None => true,
        };
        let hash = match &raw[i].2 {
            Some(h) => Some(h.clone()),
            None => None,
        };
        let ghost prev = out@;
        out.push((raw[i].0.clone(), StoredHookState { enabled, trusted_hash: hash }));
        assert forall|k: int| 0 <= k < i + 1 implies states_v(out@)[k] == state_of(#[trigger] rv[k]) by {
            if k < i {
                assert(out@[k] == prev[k]);
            }
        }
        i = i + 1;
    }
    assert(states_v(out@) =~= Seq::new(rv.len(), |k: int| state_of(rv[k])));
    Some(out)
}

/// The state recorded under `key`: the first entry for it.
pub open spec fn state_lookup(ss: Seq<(Seq<char>, bool, Option<Seq<char>>)>, key: Seq<char>) -> Option<(bool, Option<Seq<char>>)>
    decreases ss.len(),
{
    if ss.len() == 0 {
        None
    } else if ss[0].0 == key {
        Some((ss[0].1, ss[0].2))
    } else {
        state_lookup(ss.drop_first(), key)
    }
}

/// The key under which Codex records a hook's state: the hook file, the
/// event's state name, the group's and the handler's positions.
pub open spec fn site_key(file: Seq<char>, ek: Seq<char>, g: int, i: int) -> Seq<char> {
    file + ":"@ + ek + ":"@ + decimal_spec(g as nat) + ":"@ + decimal_spec(i as nat)
}

/// How a handler's recorded trust compares with its current hash.
pub enum Trust {
    Matched,
    Mismatched,
    Missing,
    Unchecked,
}

/// A handler's trust, and whether it counts as enabled: a handler without a
/// recorded state is enabled and untrusted; handlers of other events, or
/// without a hash, are not judged.
pub open spec fn site_state(
    site: Site,
    file: Seq<char>,
    states: Option<Seq<(Seq<char>, bool, Option<Seq<char>>)>>,
    windows: bool,
) -> (Trust, bool) {
    match hook_event_key(site.0) {
        Some(ek) => match handler_hash_spec(site.0, site.3, windows) {
            Some(h) => match states {
                Some(ss) => match state_lookup(ss, site_key(file, ek, site.1, site.2)) {
                    Some(st) => (
                        match st.1 {
                            Some(x) => if x == h {
                                Trust::Matched
                            } else {
                                Trust::Mismatched
                            },
                            None => Trust::Missing,
                        },
                        st.0,
                    ),
                    None => (Trust::Missing, true),
                },
                None => (Trust::Missing, true),
            },
            None => (Trust::Unchecked, false),
        },
        None => (Trust::Unchecked, false),
    }
}

pub open spec fn count_trust(
    sites: Seq<Site>,
    file: Seq<char>,
    states: Option<Seq<(Seq<char>, bool, Option<Seq<char>>)>>,
    windows: bool,
    t: Trust,
) -> nat
    decreases sites.len(),
{
    if sites.len() == 0 {
        0
    } else {
        count_trust(sites.drop_last(), file, states, windows, t) + if site_state(sites.last(), file, states, windows).0 == t {
            1nat
        } else {
            0nat
        }
    }
}

/// The events that have handlers of this application.
pub open spec fn site_events(sites: Seq<Site>) -> Set<Seq<char>>
    decreases sites.len(),
{
    if sites.len() == 0 {
        Set::empty()
    } else {
        site_events(sites.drop_last()).insert(sites.last().0)
    }
}

/// The events that have an enabled handler of this application.
pub open spec fn enabled_events(
    sites: Seq<Site>,
    file: Seq<char>,
    states: Option<Seq<(Seq<char>, bool, Option<Seq<char>>)>>,
    windows: bool,
) -> Set<Seq<char>>
    decreases sites.len(),
{
    if sites.len() == 0 {
        Set::empty()
    } else if site_state(sites.last(), file, states, windows).1 {
        enabled_events(sites.drop_last(), file, states, windows).insert(sites.last().0)
    } else {
        enabled_events(sites.drop_last(), file, states, windows)
    }
}

/// A handler runs the binary at `binary` when its commands mention the path
/// (on Windows ignoring case).
pub open spec fn runs_binary(site: Site, binary: Seq<char>, windows: bool) -> bool {
    if windows {
        contains_spec(unicode_lowercase(configured_spec(site.3)), unicode_lowercase(binary))
    } else {
        contains_spec(configured_spec(site.3), binary)
    }
}

pub open spec fn count_current(sites: Seq<Site>, binary: Seq<char>, windows: bool) -> nat
    decreases sites.len(),
{
    if sites.len() == 0 {
        0
    } else {
        count_current(sites.drop_last(), binary, windows) + if runs_binary(sites.last(), binary, windows) {
            1nat
        } else {
            0nat
        }
    }
}

/// The commands of the last handler of this application, if any.
pub open spec fn last_command(sites: Seq<Site>) -> Seq<char> {
    if sites.len() == 0 {
        Seq::empty()
    } else {
        configured_spec(sites.last().3)
    }
}

/// The hook is installed when all three events have a handler of it.
pub open spec fn installed_spec(events: Set<Seq<char>>) -> bool {
    events.contains("Stop"@) && events.contains("PermissionRequest"@) && events.contains("PreToolUse"@)
}

/// The trust state: not installed; unknown when Codex's configuration could
/// not be read; modified when a trusted hash no longer matches; untrusted
/// when some handler was never trusted; trusted when at least three match.
pub open spec fn trust_status_spec(installed: bool, known: bool, mismatched: nat, missing: nat, matched: nat) -> Seq<char> {
    if !installed {
        "notInstalled"@
    } else if !known {
        "unknown"@
    } else if mismatched > 0 {
        "modified"@
    } else if missing > 0 {
        "untrusted"@
    } else if matched >= 3 {
        "trusted"@
    } else {
        "unknown"@
    }
}

pub open spec fn strings_v(v: Seq<String>) -> Seq<Seq<char>> {
    Seq::new(v.len(), |i: int| v[i]@)
}

/// Strictly increasing in key order, so without repetitions.
pub open spec fn strictly_sorted(s: Seq<Seq<char>>) -> bool {
    forall|i: int, j: int| 0 <= i < j < s.len() ==> key_lt(#[trigger] s[i], #[trigger] s[j])
}

proof fn lemma_site_events_bounded(sites: Seq<Site>)
    ensures
        site_events(sites).finite(),
        site_events(sites).len() <= sites.len(),
    decreases sites.len(),
{
    if sites.len() > 0 {
        lemma_site_events_bounded(sites.drop_last());
        vstd::set::axiom_set_insert_finite(site_events(sites.drop_last()), sites.last().0);
        vstd::set::axiom_set_insert_len(site_events(sites.drop_last()), sites.last().0);
    }
}

/// The status never lists more events than there are handlers: the events
/// are distinct, each the event of some handler of this application; so,
/// within the range of the count, the handler count is at least the number
/// of events.
pub proof fn lemma_status_counts(
    r: HookStatus,
    doc: JsonV,
    file: Seq<char>,
    exists: bool,
    binary: Seq<char>,
    windows: bool,
    states: Option<Seq<(Seq<char>, bool, Option<Seq<char>>)>>,
)
    requires
        status_rel(r, doc, file, exists, binary, windows, states),
    ensures
        r.installed_events@.len() <= doc_sites(doc).len(),
        doc_sites(doc).len() <= u32::MAX ==> r.handler_count >= r.installed_events@.len(),
{
    let names = strings_v(r.installed_events@);
    let sites = doc_sites(doc);
    assert(names.no_duplicates()) by {
        assert forall|i: int, j: int| 0 <= i < names.len() && 0 <= j < names.len() && i != j implies names[i]
            != names[j] by {
            lemma_key_lt_irreflexive(names[i]);
            if i < j {
                assert(key_lt(names[i], names[j]));
            } else {
                assert(key_lt(names[j], names[i]));
            }
        }
    }
    names.unique_seq_to_set();
    lemma_site_events_bounded(sites);
    assert(names.to_set().subset_of(site_events(sites))) by {
        assert forall|x: Seq<char>| names.to_set().contains(x) implies site_events(sites).contains(x) by {
            assert(names.contains(x));
        }
    }
    vstd::set_lib::lemma_len_subset(names.to_set(), site_events(sites));
}

/// What a hook status says holds together: it is trusted exactly when its
/// trust status is `trusted`, needs review exactly when it is `untrusted` or
/// `modified`; it is installed exactly when its events include `Stop`,
/// `PermissionRequest` and `PreToolUse`, listed in ascending order; a hook
/// that is not installed is `notInstalled`, not current and not enabled;
/// and, within the range of the count, there are at least as many handlers
/// as events.
pub proof fn lemma_status_consistent(
    r: HookStatus,
    doc: JsonV,
    file: Seq<char>,
    exists: bool,
    binary: Seq<char>,
    windows: bool,
    states: Option<Seq<(Seq<char>, bool, Option<Seq<char>>)>>,
)
    requires
        status_rel(r, doc, file, exists, binary, windows, states),
    ensures
        r.trusted == (r.trust_status@ == "trusted"@),
        r.review_required == (r.trust_status@ == "untrusted"@ || r.trust_status@ == "modified"@),
        r.installed == (strings_v(r.installed_events@).contains("Stop"@) && strings_v(r.installed_events@).contains(
            "PermissionRequest"@,
        ) && strings_v(r.installed_events@).contains("PreToolUse"@)),
        strictly_sorted(strings_v(r.installed_events@)),
        !r.installed ==> (r.trust_status@ == "notInstalled"@ && !r.path_current && !r.enabled),
        doc_sites(doc).len() <= u32::MAX ==> r.handler_count >= r.installed_events@.len(),
{
    lemma_status_counts(r, doc, file, exists, binary, windows, states);
}

/// Adds `e` to a strictly sorted list of names, where it is missing.
fn insert_sorted(v: &mut Vec<String>, e: &str)
    requires
        strictly_sorted(strings_v(old(v)@)),
    ensures
        strictly_sorted(strings_v(final(v)@)),
        forall|x: Seq<char>| strings_v(final(v)@).contains(x) <==> (strings_v(old(v)@).contains(x) || x == e@),
{
    let ghost s0 = strings_v(v@);
    let mut i: usize = 0;
    while i < v.len() && key_less(v[i].as_str(), e)
        invariant
            i <= v.len(),
            s0 == strings_v(v@),
            forall|a: int| 0 <= a < i ==> key_lt(#[trigger] s0[a], e@),
        decreases v.len() - i,
    {
        i = i + 1;
    }
    if i < v.len() && same_text(v[i].as_str(), e) {
        assert(s0[i as int] == e@);
        return;
    }
    proof {
        if i < v.len() {
            lemma_key_lt_total(e@, s0[i as int]);
            assert(key_lt(e@, s0[i as int]));
        }
    }
    v.insert(i, owned(e));
    let ghost s1 = strings_v(v@);
    assert(s1 =~= s0.insert(i as int, e@));
    assert forall|a: int, b: int| 0 <= a < b < s1.len() implies key_lt(#[trigger] s1[a], #[trigger] s1[b]) by {
        if b < i {
        } else if b == i {
        } else if a < i {
            assert(s1[b] == s0[b - 1]);
            if b > i + 1 {
                assert(key_lt(s0[i as int], s0[b - 1]));
                lemma_key_lt_transitive(e@, s0[i as int], s0[b - 1]);
            }
            lemma_key_lt_transitive(s1[a], e@, s1[b]);
        } else if a == i {
            if b > i + 1 {
                assert(key_lt(s0[i as int], s0[b - 1]));
                lemma_key_lt_transitive(e@, s0[i as int], s0[b - 1]);
            }
        } else {
            assert(s1[a] == s0[a - 1] && s1[b] == s0[b - 1]);
        }
    }
    assert forall|x: Seq<char>| s1.contains(x) <==> (s0.contains(x) || x == e@) by {
        if s0.contains(x) {
            let k = choose|k: int| 0 <= k < s0.len() && s0[k] == x;
            if k < i {
                assert(s1[k] == x);
            } else {
                assert(s1[k + 1] == x);
            }
        }
        if x == e@ {
            assert(s1[i as int] == x);
        }
        if s1.contains(x) {
            let k = choose|k: int| 0 <= k < s1.len() && s1[k] == x;
            if k < i {
                assert(s0[k] == x);
            } else if k > i {
                assert(s0[k - 1] == x);
            }
        }
    }
}

fn has_name(v: &Vec<String>, e: &str) -> (r: bool)
    ensures
        r == strings_v(v@).contains(e@),
{
    let mut i: usize = 0;
    while i < v.len()
        invariant
            i <= v.len(),
            forall|k: int| 0 <= k < i ==> v@[k]@ != e@,
        decreases v.len() - i,
    {
        if same_text(v[i].as_str(), e) {
            assert(strings_v(v@)[i as int] == e@);
            return true;
        }
        i = i + 1;
    }
    assert forall|k: int| 0 <= k < strings_v(v@).len() implies strings_v(v@)[k] != e@ by {
        assert(strings_v(v@)[k] == v@[k]@);
    }
    false
}

fn find_state<'a>(ss: &'a Vec<(String, StoredHookState)>, key: &str) -> (r: Option<&'a StoredHookState>)
    ensures
        match r {
            Some(st) => state_lookup(states_v(ss@), key@) == Some(
                (
                    st.enabled,
                    match st.trusted_hash {
                        Some(h) => Some(h@),
                        None => None,
                    },
                ),
            ),
            None => state_lookup(states_v(ss@), key@) is None,
        },
{
    let ghost sv = states_v(ss@);
    let mut i: usize = 0;
    assert(sv.subrange(0, sv.len() as int) =~= sv);
    while i < ss.len()
        invariant
            i <= ss.len(),
            sv == states_v(ss@),
            state_lookup(sv, key@) == state_lookup(sv.subrange(i as int, sv.len() as int), key@),
        decreases ss.len() - i,
    {
        let ghost rest = sv.subrange(i as int, sv.len() as int);
        assert(rest.drop_first() =~= sv.subrange(i + 1, sv.len() as int));
        if same_text(ss[i].0.as_str(), key) {
            return Some(&ss[i].1);
        }
        i = i + 1;
    }
    None
}

/// What the hook configuration says of this application's hook.
pub struct HookStatus {
    pub hooks_path: String,
    pub exists: bool,
    pub installed: bool,
    pub handler_count: u32,
    pub installed_events: Vec<String>,
    pub path_current: bool,
    pub configured_command: String,
    pub trusted: bool,
    pub trust_status: String,
    pub review_required: bool,
    pub enabled: bool,
}

/// What `status_of` reports of the document `doc`, read from `file`, for the
/// hook binary at `binary`, given Codex's recorded hook states.
pub open spec fn status_rel(
    r: HookStatus,
    doc: JsonV,
    file: Seq<char>,
    exists: bool,
    binary: Seq<char>,
    windows: bool,
    states: Option<Seq<(Seq<char>, bool, Option<Seq<char>>)>>,
) -> bool {
    let sites = doc_sites(doc);
    let installed = installed_spec(site_events(sites));
    let ts = trust_status_spec(
        installed,
        states is Some,
        count_trust(sites, file, states, windows, Trust::Mismatched),
        count_trust(sites, file, states, windows, Trust::Missing),
        count_trust(sites, file, states, windows, Trust::Matched),
    );
    let enabled = enabled_events(sites, file, states, windows);
    &&& r.hooks_path@ == file
    &&& r.exists == exists
    &&& r.installed == installed
    &&& r.handler_count == sat_u32(sites.len())
    &&& strictly_sorted(strings_v(r.installed_events@))
    &&& forall|x: Seq<char>| strings_v(r.installed_events@).contains(x) <==> site_events(sites).contains(x)
    &&& r.path_current == (installed && count_current(sites, binary, windows) == sites.len())
    &&& r.configured_command@ == last_command(sites)
    &&& r.trust_status@ == ts
    &&& r.trusted == (ts == "trusted"@)
    &&& r.review_required == (ts == "untrusted"@ || ts == "modified"@)
    &&& r.enabled == (installed && enabled.contains("PreToolUse"@) && enabled.contains("PermissionRequest"@)
        && enabled.contains("Stop"@))
}

fn site_key_exec(file: &str, ek: &str, g: usize, i: usize) -> (r: String)
    ensures
        r@ == site_key(file@, ek@, g as int, i as int),
{
    let mut out = owned(file);
    push_str(&mut out, ":");
    push_str(&mut out, ek);
    push_str(&mut out, ":");
    let gs = decimal(g as u64);
    push_str(&mut out, gs.as_str());
    push_str(&mut out, ":");
    let is = decimal(i as u64);
    push_str(&mut out, is.as_str());
    out
}

/// The status of this application's hook in the loaded document `doc` (read
/// from `file`, which `exists` or not) for the hook binary at `binary`, given
/// the hook states recorded in Codex's configuration (`None` when they could
/// not be read). `windows` tells whether Codex runs Windows commands.
pub fn status_of(
    doc: &Json,
    file: &str,
    exists: bool,
    binary: &str,
    windows: bool,
    states: &Option<Vec<(String, StoredHookState)>>,
) -> (r: HookStatus)
    ensures
        status_rel(
            r,
            doc@,
            file@,
            exists,
            binary@,
            windows,
            match states {
                Some(v) => Some(states_v(v@)),
                None => None,
            },
        ),
{
    let ghost sv: Option<Seq<(Seq<char>, bool, Option<Seq<char>>)>> = match states {
        Some(v) => Some(states_v(v@)),
        None => None,
    };
    let sites = collect_sites(doc);
    let ghost all = sites_v(sites@);
    let mut events: Vec<String> = Vec::new();
    let mut enabled: Vec<String> = Vec::new();
    let mut current: u64 = 0;
    let mut matched: u64 = 0;
    let mut mismatched: u64 = 0;
    let mut missing: u64 = 0;
    let mut command = String::new();
    let mut k: usize = 0;
    proof {
        assert(strings_v(events@) =~= Seq::<Seq<char>>::empty());
        assert(strings_v(enabled@) =~= Seq::<Seq<char>>::empty());
    }
    while k < sites.len()
        invariant
            k <= sites.len(),
            all == sites_v(sites@),
            all == doc_sites(doc@),
            strictly_sorted(strings_v(events@)),
            strictly_sorted(strings_v(enabled@)),
            forall|x: Seq<char>| strings_v(events@).contains(x) <==> site_events(all.take(k as int)).contains(x),
            forall|x: Seq<char>| strings_v(enabled@).contains(x) <==> enabled_events(all.take(k as int), file@, sv, windows).contains(x),
            current == count_current(all.take(k as int), binary@, windows),
            matched == count_trust(all.take(k as int), file@, sv, windows, Trust::Matched),
            mismatched == count_trust(all.take(k as int), file@, sv, windows, Trust::Mismatched),
            missing == count_trust(all.take(k as int), file@, sv, windows, Trust::Missing),
            current <= k && matched <= k && mismatched <= k && missing <= k,
            command@ == last_command(all.take(k as int)),
            sv == match states {
                Some(v) => Some(states_v(v@)),
                None => None,
            },
        decreases sites.len() - k,
    {
        let ghost pre = all.take(k as int);
        let ghost site = all[k as int];
        assert(all.take(k + 1).drop_last() =~= pre);
        assert(all.take(k + 1).last() == site);
        let event = sites[k].event;
        let h = sites[k].handler;
        let conf = configured(h);
        insert_sorted(&mut events, event);
        let runs = if windows {
            let lc = to_lowercase(conf.as_str());
            let lb = to_lowercase(binary);
            contains(lc.as_str(), lb.as_str())
        } else {
            contains(conf.as_str(), binary)
        };
        if runs {
            current = current + 1;
        }
        let mut on = false;
        match event_key(event) {
            Some(ek) => match handler_hash(event, h, windows) {
                Some(hash) => {
                    let key = site_key_exec(file, ek, sites[k].group, sites[k].index);
                    let found = match states {
                        Some(ss) => find_state(ss, key.as_str()),
                        None => None,
                    };
                    match found {
                        Some(st) => {
                            on = st.enabled;
                            match &st.trusted_hash {
                                Some(x) => if same_text(x.as_str(), hash.as_str()) {
                                    matched = matched + 1;
                                } else {
                                    mismatched = mismatched + 1;
                                },
                                None => {
                                    missing = missing + 1;
                                },
                            }
                        },
                        None => {
                            on = true;
                            missing = missing + 1;
                        },
                    }
                },
                None => {},
            },
            None => {},
        }
        assert(on == site_state(site, file@, sv, windows).1);
        if on {
            insert_sorted(&mut enabled, event);
        }
        command = conf;
        k = k + 1;
    }
    assert(all.take(sites.len() as int) =~= all);
    let has_stop = has_name(&events, "Stop");
    let has_permission = has_name(&events, "PermissionRequest");
    let has_pre_tool = has_name(&events, "PreToolUse");
    let installed = has_stop && has_permission && has_pre_tool;
    let count = sites.len() as u64;
    let ts: &str = if !installed {
        "notInstalled"
    } else if states.is_none() {
        "unknown"
    } else if mismatched > 0 {
        "modified"
    } else if missing > 0 {
        "untrusted"
    } else if matched >= 3 {
        "trusted"
    } else {
        "unknown"
    };
    let trusted = same_text(ts, "trusted");
    let review = same_text(ts, "untrusted") || same_text(ts, "modified");
    let all_enabled = installed && has_name(&enabled, "PreToolUse") && has_name(&enabled, "PermissionRequest")
        && has_name(&enabled, "Stop");
    HookStatus {
        hooks_path: owned(file),
        exists,
        installed,
        handler_count: sat_of(sites.len()),
        installed_events: events,
        path_current: installed && current == count,
        configured_command: command,
        trusted,
        trust_status: owned(ts),
        review_required: review,
        enabled: all_enabled,
    }
}

/// The status of this application's hook; see `status_of`. `config` is the
/// text of Codex's configuration (empty when the file does not exist, `None`
/// when it could not be read).
pub fn status(doc: &Json, file: &str, exists: bool, binary: &str, windows: bool, config: Option<&str>) -> (r: HookStatus)
    ensures
        status_rel(
            r,
            doc@,
            file@,
            exists,
            binary@,
            windows,
            match config {
                Some(t) => stored_states_spec(t@),
                None => None,
            },
        ),
{
    let states = stored_hook_states(config);
    status_of(doc, file, exists, binary, windows, &states)
}

/// The handlers among `hs` that are this application's (`mine`) or not.
pub open spec fn select_handlers(hs: Seq<JsonV>, mine: bool) -> Seq<JsonV>
    decreases hs.len(),
{
    if hs.len() == 0 {
        Seq::empty()
    } else if ours_spec(hs.last()) == mine {
        select_handlers(hs.drop_last(), mine).push(hs.last())
    } else {
        select_handlers(hs.drop_last(), mine)
    }
}

/// Each handler with the event it belongs to.
pub open spec fn tag(event: Seq<char>, hs: Seq<JsonV>) -> Seq<(Seq<char>, JsonV)> {
    Seq::new(hs.len(), |i: int| (event, hs[i]))
}

/// Handlers with their events, without their positions.
pub open spec fn site_handlers(s: Seq<Site>) -> Seq<(Seq<char>, JsonV)> {
    Seq::new(s.len(), |i: int| (s[i].0, s[i].3))
}

/// The handlers that an uninstall keeps.
pub open spec fn other_hooks(doc: JsonV) -> Seq<(Seq<char>, JsonV)> {
    site_handlers(doc_handlers(doc, false))
}

proof fn lemma_kept_is_select(hs: Seq<JsonV>)
    ensures
        kept_handlers(hs) == select_handlers(hs, false),
    decreases hs.len(),
{
    if hs.len() > 0 {
        lemma_kept_is_select(hs.drop_last());
    }
}

proof fn lemma_select_select(hs: Seq<JsonV>, m: bool)
    ensures
        select_handlers(select_handlers(hs, false), m) == if m {
            Seq::<JsonV>::empty()
        } else {
            select_handlers(hs, false)
        },
    decreases hs.len(),
{
    if hs.len() > 0 {
        lemma_select_select(hs.drop_last(), m);
        let p = select_handlers(hs.drop_last(), false);
        if !ours_spec(hs.last()) {
            assert(select_handlers(hs, false).drop_last() =~= p);
        }
    }
}

proof fn lemma_site_handlers_concat(a: Seq<Site>, b: Seq<Site>)
    ensures
        site_handlers(a + b) == site_handlers(a) + site_handlers(b),
{
    assert(site_handlers(a + b) =~= site_handlers(a) + site_handlers(b));
}

proof fn lemma_handler_sites_proj(event: Seq<char>, g: int, hs: Seq<JsonV>, m: bool)
    ensures
        site_handlers(handler_sites(event, g, hs, m)) == tag(event, select_handlers(hs, m)),
        handler_sites(event, g, hs, m).len() == select_handlers(hs, m).len(),
    decreases hs.len(),
{
    if hs.len() > 0 {
        lemma_handler_sites_proj(event, g, hs.drop_last(), m);
        let p = handler_sites(event, g, hs.drop_last(), m);
        let q = select_handlers(hs.drop_last(), m);
        if ours_spec(hs.last()) == m {
            let site = (event, g, hs.len() - 1, hs.last());
            assert(site_handlers(p.push(site)) =~= site_handlers(p).push((event, hs.last())));
            assert(tag(event, q.push(hs.last())) =~= tag(event, q).push((event, hs.last())));
        }
    }
}

/// What a group contributes, without positions.
pub open spec fn group_part(event: Seq<char>, g: JsonV, m: bool) -> Seq<(Seq<char>, JsonV)> {
    match array_of(get_v(g, "hooks"@)) {
        Some(hs) => tag(event, select_handlers(hs, m)),
        None => Seq::empty(),
    }
}

pub open spec fn groups_part(event: Seq<char>, gs: Seq<JsonV>, m: bool) -> Seq<(Seq<char>, JsonV)>
    decreases gs.len(),
{
    if gs.len() == 0 {
        Seq::empty()
    } else {
        groups_part(event, gs.drop_last(), m) + group_part(event, gs.last(), m)
    }
}

proof fn lemma_group_sites_proj(event: Seq<char>, gs: Seq<JsonV>, m: bool)
    ensures
        site_handlers(group_sites(event, gs, m)) == groups_part(event, gs, m),
    decreases gs.len(),
{
    if gs.len() > 0 {
        lemma_group_sites_proj(event, gs.drop_last(), m);
        let part = match array_of(get_v(gs.last(), "hooks"@)) {
            Some(hs) => handler_sites(event, gs.len() - 1, hs, m),
            None => Seq::empty(),
        };
        lemma_site_handlers_concat(group_sites(event, gs.drop_last(), m), part);
        match array_of(get_v(gs.last(), "hooks"@)) {
            Some(hs) => lemma_handler_sites_proj(event, gs.len() - 1, hs, m),
            None => assert(site_handlers(part) =~= Seq::<(Seq<char>, JsonV)>::empty()),
        }
    }
}

proof fn lemma_strip_group_part(event: Seq<char>, g: JsonV, m: bool)
    ensures
        match strip_group(g) {
            Some(x) => group_part(event, x, m) == if m {
                Seq::<(Seq<char>, JsonV)>::empty()
            } else {
                group_part(event, g, false)
            },
            None => group_part(event, g, false).len() == 0,
        },
{
    match g {
        JsonV::Object(e) => match lookup(e, "hooks"@) {
            Some(JsonV::Array(hs)) => {
                lemma_kept_is_select(hs);
                lemma_select_select(hs, m);
                if kept_handlers(hs).len() > 0 {
                    lemma_lookup_set_entry(e, "hooks"@, JsonV::Array(kept_handlers(hs)));
                }
                assert(tag(event, Seq::<JsonV>::empty()) =~= Seq::<(Seq<char>, JsonV)>::empty());
            },
            _ => {
                if m {
                    assert(group_part(event, g, true) =~= Seq::<(Seq<char>, JsonV)>::empty());
                }
            },
        },
        _ => {},
    }
}

proof fn lemma_strip_groups_part(event: Seq<char>, gs: Seq<JsonV>, m: bool)
    ensures
        groups_part(event, strip_groups(gs), m) == if m {
            Seq::<(Seq<char>, JsonV)>::empty()
        } else {
            groups_part(event, gs, false)
        },
    decreases gs.len(),
{
    if gs.len() > 0 {
        lemma_strip_groups_part(event, gs.drop_last(), m);
        lemma_strip_group_part(event, gs.last(), m);
        let p = strip_groups(gs.drop_last());
        match strip_group(gs.last()) {
            Some(x) => {
                assert(strip_groups(gs).drop_last() =~= p);
                assert(strip_groups(gs).last() == x);
            },
            None => {
                assert(groups_part(event, gs, false) =~= groups_part(event, gs.drop_last(), false));
            },
        }
        if m {
            assert(groups_part(event, strip_groups(gs), m) =~= Seq::<(Seq<char>, JsonV)>::empty());
        }
    }
}

pub open spec fn entries_part(e: Seq<(Seq<char>, JsonV)>, m: bool) -> Seq<(Seq<char>, JsonV)> {
    site_handlers(entry_sites(e, m))
}

proof fn lemma_strip_entries_part(e: Seq<(Seq<char>, JsonV)>, m: bool)
    ensures
        entries_part(strip_entries(e), m) == if m {
            Seq::<(Seq<char>, JsonV)>::empty()
        } else {
            entries_part(e, false)
        },
    decreases e.len(),
{
    if e.len() > 0 {
        lemma_strip_entries_part(e.drop_last(), m);
        let se = strip_entries(e);
        assert(se.drop_last() =~= strip_entries(e.drop_last()));
        lemma_site_handlers_concat(entry_sites(se.drop_last(), m), value_sites(se.last().0, se.last().1, m));
        lemma_site_handlers_concat(entry_sites(e.drop_last(), false), value_sites(e.last().0, e.last().1, false));
        match e.last().1 {
            JsonV::Array(gs) => {
                lemma_group_sites_proj(e.last().0, strip_groups(gs), m);
                lemma_group_sites_proj(e.last().0, gs, false);
                lemma_strip_groups_part(e.last().0, gs, m);
            },
            _ => {
                assert(site_handlers(Seq::<Site>::empty()) =~= Seq::<(Seq<char>, JsonV)>::empty());
            },
        }
        if m {
            assert(entries_part(strip_entries(e), m) =~= Seq::<(Seq<char>, JsonV)>::empty());
        }
    } else {
        assert(strip_entries(e) =~= e);
        assert(site_handlers(Seq::<Site>::empty()) =~= Seq::<(Seq<char>, JsonV)>::empty());
    }
}

/// Uninstalling keeps every other hook: the handlers that are not this
/// application's, with their events and in order, are those of the document
/// before.
pub proof fn lemma_uninstall_keeps_other_hooks(doc: JsonV)
    ensures
        other_hooks(strip_doc(doc)) == other_hooks(doc),
{
    lemma_strip_doc(doc, false);
}

/// Uninstalling leaves none of this application's handlers.
pub proof fn lemma_uninstall_removes_ours(doc: JsonV)
    ensures
        doc_sites(strip_doc(doc)).len() == 0,
{
    lemma_strip_doc(doc, true);
    assert(site_handlers(doc_handlers(strip_doc(doc), true)).len() == doc_handlers(strip_doc(doc), true).len());
}

proof fn lemma_strip_doc(doc: JsonV, m: bool)
    ensures
        site_handlers(doc_handlers(strip_doc(doc), m)) == if m {
            Seq::<(Seq<char>, JsonV)>::empty()
        } else {
            site_handlers(doc_handlers(doc, false))
        },
{
    match doc {
        JsonV::Object(e) => match lookup(e, "hooks"@) {
            Some(JsonV::Object(he)) => {
                lemma_lookup_set_entry(e, "hooks"@, JsonV::Object(strip_entries(he)));
                lemma_strip_entries_part(he, m);
            },
            _ => {
                if m {
                    assert(site_handlers(Seq::<Site>::empty()) =~= Seq::<(Seq<char>, JsonV)>::empty());
                }
            },
        },
        _ => {
            assert(site_handlers(Seq::<Site>::empty()) =~= Seq::<(Seq<char>, JsonV)>::empty());
        },
    }
}

proof fn lemma_entry_sites_concat(a: Seq<(Seq<char>, JsonV)>, b: Seq<(Seq<char>, JsonV)>, m: bool)
    ensures
        entry_sites(a + b, m) == entry_sites(a, m) + entry_sites(b, m),
    decreases b.len(),
{
    if b.len() == 0 {
        assert(a + b =~= a);
        assert(entry_sites(a, m) + entry_sites(b, m) =~= entry_sites(a, m));
    } else {
        lemma_entry_sites_concat(a, b.drop_last(), m);
        assert((a + b).drop_last() =~= a + b.drop_last());
        assert((a + b).last() == b.last());
        assert(entry_sites(a + b, m) =~= entry_sites(a, m) + entry_sites(b, m));
    }
}

proof fn lemma_entry_sites_single(x: (Seq<char>, JsonV), m: bool)
    ensures
        entry_sites(seq![x], m) == value_sites(x.0, x.1, m),
{
    let e = seq![x];
    assert(e.len() == 1);
    assert(e.last() == x);
    assert(e.drop_last() =~= Seq::<(Seq<char>, JsonV)>::empty());
    assert(entry_sites(e.drop_last(), m) == Seq::<Site>::empty());
    assert(Seq::<Site>::empty() + value_sites(x.0, x.1, m) =~= value_sites(x.0, x.1, m));
}

/// Where `insert_spec` puts a key that is not there yet.
proof fn lemma_insert_split(e: Seq<(Seq<char>, JsonV)>, k: Seq<char>, v: JsonV) -> (r: (
    Seq<(Seq<char>, JsonV)>,
    Seq<(Seq<char>, JsonV)>,
))
    requires
        lookup(e, k) is None,
    ensures
        e == r.0 + r.1,
        insert_spec(e, k, v) == r.0 + seq![(k, v)] + r.1,
    decreases e.len(),
{
    if e.len() == 0 {
        assert(e =~= Seq::<(Seq<char>, JsonV)>::empty() + Seq::<(Seq<char>, JsonV)>::empty());
        assert(insert_spec(e, k, v) =~= Seq::<(Seq<char>, JsonV)>::empty() + seq![(k, v)] + Seq::<(Seq<char>, JsonV)>::empty());
        (Seq::empty(), Seq::empty())
    } else if key_lt(k, e[0].0) {
        assert(e =~= Seq::<(Seq<char>, JsonV)>::empty() + e);
        assert(insert_spec(e, k, v) =~= Seq::<(Seq<char>, JsonV)>::empty() + seq![(k, v)] + e);
        (Seq::empty(), e)
    } else {
        assert(e[0].0 != k);
        assert(lookup(e.drop_first(), k) is None);
        let (a, c) = lemma_insert_split(e.drop_first(), k, v);
        assert(e =~= seq![e[0]] + e.drop_first());
        assert(e =~= (seq![e[0]] + a) + c);
        assert(insert_spec(e, k, v) =~= (seq![e[0]] + a) + seq![(k, v)] + c);
        (seq![e[0]] + a, c)
    }
}

/// Where `set_entry` changes the entry for a key that is there.
proof fn lemma_set_split(e: Seq<(Seq<char>, JsonV)>, k: Seq<char>, v: JsonV) -> (r: (
    Seq<(Seq<char>, JsonV)>,
    Seq<(Seq<char>, JsonV)>,
))
    requires
        lookup(e, k) is Some,
    ensures
        e == r.0 + seq![(k, lookup(e, k)->0)] + r.1,
        set_entry(e, k, v) == r.0 + seq![(k, v)] + r.1,
    decreases e.len(),
{
    if e[0].0 == k {
        assert(e =~= Seq::<(Seq<char>, JsonV)>::empty() + seq![(k, lookup(e, k)->0)] + e.drop_first());
        assert(set_entry(e, k, v) =~= Seq::<(Seq<char>, JsonV)>::empty() + seq![(k, v)] + e.drop_first());
        (Seq::empty(), e.drop_first())
    } else {
        assert(lookup(e, k) == lookup(e.drop_first(), k));
        let (a, c) = lemma_set_split(e.drop_first(), k, v);
        assert(e =~= seq![e[0]] + e.drop_first());
        assert(e =~= (seq![e[0]] + a) + seq![(k, lookup(e, k)->0)] + c);
        assert(set_entry(e, k, v) =~= (seq![e[0]] + a) + seq![(k, v)] + c);
        (seq![e[0]] + a, c)
    }
}

/// The handler of this application is recognized as its own.
pub proof fn lemma_handler_is_ours(b: Seq<char>)
    ensures
        ours_spec(handler_spec(b)),
{
    reveal_strlit("async");
    reveal_strlit("command");
    reveal_strlit("commandWindows");
    let e = handler_spec(b)->Object_0;
    assert("async"@ != "command"@) by {
        assert("async"@[0] != "command"@[0]);
    }
    assert("async"@ != "commandWindows"@) by {
        assert("async"@[0] != "commandWindows"@[0]);
    }
    assert("command"@ != "commandWindows"@) by {
        assert("command"@.len() != "commandWindows"@.len());
    }
    assert(e[0].0 == "async"@);
    assert(e.drop_first()[0].0 == "command"@);
    assert(lookup(e.drop_first(), "command"@) == Some(JsonV::Str(quote_posix_spec(b) + " "@ + NEW_MARKER@)));
    assert(lookup(e, "command"@) == lookup(e.drop_first(), "command"@));
    assert(e.drop_first().drop_first()[0].0 == "commandWindows"@);
    assert(lookup(e.drop_first().drop_first(), "commandWindows"@) == Some(JsonV::Str(windows_command_spec(b))));
    assert(lookup(e.drop_first(), "commandWindows"@) == lookup(e.drop_first().drop_first(), "commandWindows"@));
    assert(lookup(e, "commandWindows"@) == lookup(e.drop_first(), "commandWindows"@));
    assert(lookup(e, "commandWindows"@) == Some(JsonV::Str(windows_command_spec(b))));
    let c = configured_spec(handler_spec(b));
    let pre = quote_posix_spec(b) + " "@;
    assert(c =~= pre + NEW_MARKER@ + " "@ + windows_command_spec(b));
    assert(c.subrange(pre.len() as int, pre.len() + NEW_MARKER@.len() as int) =~= NEW_MARKER@);
    assert(occurs_at(c, NEW_MARKER@, pre.len() as int));
}

/// Every site holds the handler `h`.
pub open spec fn all_handler(s: Seq<Site>, h: JsonV) -> bool {
    forall|i: int| 0 <= i < s.len() ==> (#[trigger] s[i]).3 == h
}

proof fn lemma_site_events_concat(p: Seq<Site>, q: Seq<Site>)
    ensures
        site_events(p + q) == site_events(p).union(site_events(q)),
    decreases q.len(),
{
    if q.len() == 0 {
        assert(p + q =~= p);
        assert(site_events(p).union(site_events(q)) =~= site_events(p));
    } else {
        lemma_site_events_concat(p, q.drop_last());
        assert((p + q).drop_last() =~= p + q.drop_last());
        assert(site_events(p + q) =~= site_events(p).union(site_events(q)));
    }
}

/// The group holding the handler for `b`, for `PreToolUse` or another event.
pub open spec fn group_spec(b: Seq<char>, input: bool) -> JsonV {
    if input {
        input_group(b)
    } else {
        plain_group(b)
    }
}

proof fn lemma_group_hooks(b: Seq<char>, input: bool)
    ensures
        array_of(get_v(group_spec(b, input), "hooks"@)) == Some(seq![handler_spec(b)]),
{
    reveal_strlit("hooks");
    reveal_strlit("matcher");
}

proof fn lemma_single_handler(event: Seq<char>, g: int, b: Seq<char>, m: bool)
    ensures
        handler_sites(event, g, seq![handler_spec(b)], m) == if m {
            seq![(event, g, 0int, handler_spec(b))]
        } else {
            Seq::<Site>::empty()
        },
{
    lemma_handler_is_ours(b);
    let hs = seq![handler_spec(b)];
    assert(hs.len() == 1);
    assert(hs.last() == handler_spec(b));
    assert(hs.drop_last() =~= Seq::<JsonV>::empty());
    assert(handler_sites(event, g, hs.drop_last(), m) == Seq::<Site>::empty());
    assert(Seq::<Site>::empty().push((event, g, 0int, handler_spec(b))) =~= seq![(event, g, 0int, handler_spec(b))]);
}

/// What appending the group for `b` to `event` does to the handlers.
proof fn lemma_add_group_sites(h: Seq<(Seq<char>, JsonV)>, event: Seq<char>, b: Seq<char>, input: bool)
    requires
        add_group(h, event, group_spec(b, input)) is Some,
    ensures
        ({
            let n = add_group(h, event, group_spec(b, input))->0;
            &&& entry_sites(n, true).len() == entry_sites(h, true).len() + 1
            &&& site_events(entry_sites(n, true)) == site_events(entry_sites(h, true)).insert(event)
            &&& all_handler(entry_sites(h, true), handler_spec(b)) ==> all_handler(entry_sites(n, true), handler_spec(b))
            &&& site_handlers(entry_sites(n, false)) == site_handlers(entry_sites(h, false))
        }),
{
    let g = group_spec(b, input);
    let hb = handler_spec(b);
    let n = add_group(h, event, g)->0;
    lemma_group_hooks(b, input);
    match lookup(h, event) {
        None => {
            let (a, c) = lemma_insert_split(h, event, JsonV::Array(seq![g]));
            let gs1 = seq![g];
            assert(gs1.drop_last() =~= Seq::<JsonV>::empty());
            assert(gs1.last() == g);
            assert(gs1.len() == 1);
            assert(group_sites(event, gs1.drop_last(), true) == Seq::<Site>::empty());
            assert(group_sites(event, gs1.drop_last(), false) == Seq::<Site>::empty());
            assert(group_sites(event, gs1, true) =~= Seq::<Site>::empty() + handler_sites(event, 0, seq![hb], true));
            assert(group_sites(event, gs1, false) =~= Seq::<Site>::empty() + handler_sites(event, 0, seq![hb], false));
            lemma_single_handler(event, 0, b, true);
            lemma_single_handler(event, 0, b, false);
            let x = seq![(event, 0int, 0int, hb)];
            assert(value_sites(event, JsonV::Array(gs1), true) =~= x);
            assert(value_sites(event, JsonV::Array(gs1), false) =~= Seq::<Site>::empty());
            lemma_entry_sites_concat(a, seq![(event, JsonV::Array(gs1))] + c, true);
            lemma_entry_sites_concat(seq![(event, JsonV::Array(gs1))], c, true);
            lemma_entry_sites_concat(a, c, true);
            lemma_entry_sites_concat(a, seq![(event, JsonV::Array(gs1))] + c, false);
            lemma_entry_sites_concat(seq![(event, JsonV::Array(gs1))], c, false);
            lemma_entry_sites_concat(a, c, false);
            lemma_entry_sites_single((event, JsonV::Array(gs1)), true);
            lemma_entry_sites_single((event, JsonV::Array(gs1)), false);
            assert(a + seq![(event, JsonV::Array(gs1))] + c =~= a + (seq![(event, JsonV::Array(gs1))] + c));
            let sa = entry_sites(a, true);
            let sc = entry_sites(c, true);
            assert(entry_sites(n, true) =~= sa + x + sc);
            assert(entry_sites(h, true) =~= sa + sc);
            lemma_site_events_concat(sa + x, sc);
            lemma_site_events_concat(sa, x);
            lemma_site_events_concat(sa, sc);
            assert(x.drop_last() =~= Seq::<Site>::empty());
            assert(x.last().0 == event);
            assert(site_events(x.drop_last()) == Set::<Seq<char>>::empty());
            assert(site_events(x) =~= Set::<Seq<char>>::empty().insert(event));
            assert(site_events(entry_sites(n, true)) =~= site_events(entry_sites(h, true)).insert(event));
            assert(entry_sites(n, false) =~= entry_sites(a, false) + entry_sites(c, false));
            assert(entry_sites(h, false) =~= entry_sites(a, false) + entry_sites(c, false));
            if all_handler(entry_sites(h, true), hb) {
                let s2 = entry_sites(n, true);
                assert forall|i: int| 0 <= i < s2.len() implies (#[trigger] s2[i]).3 == hb by {
                    if i < sa.len() {
                        assert(s2[i] == (sa + sc)[i]);
                    } else if i > sa.len() {
                        assert(s2[i] == (sa + sc)[i - 1]);
                    }
                }
            }
        },
        Some(v) => {
            let gs = v->Array_0;
            let nv = JsonV::Array(gs.push(g));
            let (a, c) = lemma_set_split(h, event, nv);
            let idx = gs.len() as int;
            lemma_single_handler(event, idx, b, true);
            lemma_single_handler(event, idx, b, false);
            assert(gs.push(g).drop_last() =~= gs);
            let x = seq![(event, idx, 0int, hb)];
            assert(value_sites(event, nv, true) =~= value_sites(event, v, true) + x);
            assert(value_sites(event, nv, false) =~= value_sites(event, v, false));
            lemma_entry_sites_concat(a, seq![(event, nv)] + c, true);
            lemma_entry_sites_concat(seq![(event, nv)], c, true);
            lemma_entry_sites_concat(a, seq![(event, v)] + c, true);
            lemma_entry_sites_concat(seq![(event, v)], c, true);
            lemma_entry_sites_concat(a, seq![(event, nv)] + c, false);
            lemma_entry_sites_concat(seq![(event, nv)], c, false);
            lemma_entry_sites_concat(a, seq![(event, v)] + c, false);
            lemma_entry_sites_concat(seq![(event, v)], c, false);
            lemma_entry_sites_single((event, nv), true);
            lemma_entry_sites_single((event, v), true);
            lemma_entry_sites_single((event, nv), false);
            lemma_entry_sites_single((event, v), false);
            assert(a + seq![(event, nv)] + c =~= a + (seq![(event, nv)] + c));
            assert(a + seq![(event, v)] + c =~= a + (seq![(event, v)] + c));
            let sa = entry_sites(a, true);
            let sc = entry_sites(c, true);
            let sv = value_sites(event, v, true);
            assert(entry_sites(n, true) =~= sa + (sv + x) + sc);
            assert(entry_sites(h, true) =~= sa + sv + sc);
            lemma_site_events_concat(sa + (sv + x), sc);
            lemma_site_events_concat(sa, sv + x);
            lemma_site_events_concat(sv, x);
            lemma_site_events_concat(sa + sv, sc);
            lemma_site_events_concat(sa, sv);
            assert(x.drop_last() =~= Seq::<Site>::empty());
            assert(x.last().0 == event);
            assert(site_events(x.drop_last()) == Set::<Seq<char>>::empty());
            assert(site_events(x) =~= Set::<Seq<char>>::empty().insert(event));
            assert(site_events(entry_sites(n, true)) =~= site_events(entry_sites(h, true)).insert(event));
            assert(entry_sites(n, false) =~= entry_sites(h, false));
            if all_handler(entry_sites(h, true), hb) {
                let s2 = entry_sites(n, true);
                assert forall|i: int| 0 <= i < s2.len() implies (#[trigger] s2[i]).3 == hb by {
                    if i < sa.len() + sv.len() {
                        assert(s2[i] == (sa + sv + sc)[i]);
                    } else if i > sa.len() + sv.len() {
                        assert(s2[i] == (sa + sv + sc)[i - 1]);
                    }
                }
            }
        },
    }
}

proof fn lemma_install_steps(doc: JsonV, b: Seq<char>)
    requires
        doc_ready(doc),
        install_spec(doc, b) is Ok,
    ensures
        ({
            let x = install_spec(doc, b)->Ok_0;
            &&& doc_sites(x).len() == 3
            &&& site_events(doc_sites(x)) == Set::<Seq<char>>::empty().insert("Stop"@).insert("PermissionRequest"@).insert(
                "PreToolUse"@,
            )
            &&& all_handler(doc_sites(x), handler_spec(b))
            &&& other_hooks(x) == other_hooks(doc)
            &&& doc_ready(x)
        }),
{
    let e = doc->Object_0;
    let he = lookup(e, "hooks"@)->0->Object_0;
    let se = set_entry(e, "hooks"@, JsonV::Object(strip_entries(he)));
    lemma_lookup_set_entry(e, "hooks"@, JsonV::Object(strip_entries(he)));
    let s = strip_doc(doc);
    assert(s == JsonV::Object(se));
    let h0 = strip_entries(he);
    assert(hooks_of(s) == h0);
    lemma_strip_entries_part(he, true);
    lemma_strip_entries_part(he, false);
    assert(site_handlers(entry_sites(h0, true)).len() == entry_sites(h0, true).len());
    assert(plain_group(b) == group_spec(b, false));
    assert(input_group(b) == group_spec(b, true));
    let h1 = add_group(h0, "Stop"@, plain_group(b))->0;
    let h2 = add_group(h1, "PermissionRequest"@, plain_group(b))->0;
    let h3 = add_group(h2, "PreToolUse"@, input_group(b))->0;
    lemma_add_group_sites(h0, "Stop"@, b, false);
    lemma_add_group_sites(h1, "PermissionRequest"@, b, false);
    lemma_add_group_sites(h2, "PreToolUse"@, b, true);
    assert(entry_sites(h0, true) =~= Seq::<Site>::empty());
    assert(site_events(entry_sites(h0, true)) == Set::<Seq<char>>::empty());
    assert(all_handler(entry_sites(h0, true), handler_spec(b)));
    let x = install_spec(doc, b)->Ok_0;
    assert(x == with_hooks(s, h3));
    lemma_lookup_set_entry(se, "hooks"@, JsonV::Object(h3));
    assert(get_v(x, "hooks"@) == Some(JsonV::Object(h3)));
    assert(doc_sites(x) == entry_sites(h3, true));
    assert(other_hooks(doc) == site_handlers(entry_sites(he, false)));
}

/// Installing keeps every other hook: the handlers that are not this
/// application's, with their events and in order, are those of the document
/// before.
pub proof fn lemma_install_keeps_other_hooks(doc: JsonV, b: Seq<char>)
    requires
        doc_ready(doc),
        install_spec(doc, b) is Ok,
    ensures
        other_hooks(install_spec(doc, b)->Ok_0) == other_hooks(doc),
{
    lemma_install_steps(doc, b);
}

/// After installing, exactly three handlers of this application are
/// configured, for `Stop`, `PermissionRequest` and `PreToolUse`, each the
/// handler for the given binary; so installing twice leaves three as well.
pub proof fn lemma_install_installs(doc: JsonV, b: Seq<char>)
    requires
        doc_ready(doc),
        install_spec(doc, b) is Ok,
    ensures
        doc_sites(install_spec(doc, b)->Ok_0).len() == 3,
        installed_spec(site_events(doc_sites(install_spec(doc, b)->Ok_0))),
        all_handler(doc_sites(install_spec(doc, b)->Ok_0), handler_spec(b)),
        doc_ready(install_spec(doc, b)->Ok_0),
{
    lemma_install_steps(doc, b);
}

/// The name of a backup of the hook configuration made at `stamp` (a local
/// date and time); `counter` tells apart backups made in the same second.
pub open spec fn backup_name_spec(stamp: Seq<char>, counter: u32) -> Seq<char> {
    "hooks.json.bak."@ + stamp + if counter == 0 {
        Seq::<char>::empty()
    } else {
        "."@ + decimal_spec(counter as nat)
    }
}

/// The name of a backup of the hook configuration; see `backup_name_spec`.
pub fn backup_name(stamp: &str, counter: u32) -> (r: String)
    ensures
        r@ == backup_name_spec(stamp@, counter),
{
    let mut out = owned("hooks.json.bak.");
    push_str(&mut out, stamp);
    if counter != 0 {
        push_str(&mut out, ".");
        let n = decimal(counter as u64);
        push_str(&mut out, n.as_str());
    }
    proof {
        if counter == 0 {
            assert(out@ =~= backup_name_spec(stamp@, counter));
        }
    }
    out
}

} // verus!