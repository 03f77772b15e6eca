//! Reading a hook event from the JSON that Codex sends: fields in
//! snake_case or camelCase, some of which may be `null`.

use vstd::prelude::*;
use crate::json::{copy_json, get_v, Json, JsonV};
use crate::notification::HookEvent;

verus! {

/// The value given for a field: in an object, under its name or its other
/// spelling (both at once is refused, `Err`); in a list, at its position.
/// `Ok(None)` when it is not given.
pub open spec fn field_value(j: JsonV, index: int, name: Seq<char>, alias: Option<Seq<char>>) -> Result<
    Option<JsonV>,
    (),
> {
    match j {
        JsonV::Object(_) => {
            let a = get_v(j, name);
            let b = match alias {
                Some(x) => get_v(j, x),
                None => None,
            };
            if a is Some && b is Some {
                Err(())
            } else if a is Some {
                Ok(a)
            } else {
                Ok(b)
            }
        },
        JsonV::Array(items) => if index < items.len() {
            Ok(Some(items[index]))
        } else {
            Ok(None)
        },
        _ => Ok(None),
    }
}

/// A text field: empty when not given; a string as it is; `null` as empty
/// text where the field allows it (`nullable`); anything else is refused.
pub open spec fn text_field(
    j: JsonV,
    index: int,
    name: Seq<char>,
    alias: Option<Seq<char>>,
    nullable: bool,
) -> Option<Seq<char>> {
    match field_value(j, index, name, alias) {
        Err(()) => None,
        Ok(None) => Some(Seq::empty()),
        Ok(Some(JsonV::Str(s))) => Some(s),
        Ok(Some(JsonV::Null)) => if nullable {
            Some(Seq::empty())
        } else {
            None
        },
        Ok(Some(_)) => None,
    }
}

/// The tool input: any value, `null` when not given.
pub open spec fn input_field(j: JsonV) -> Option<JsonV> {
    match field_value(j, 9, "tool_input"@, Some("toolInput"@)) {
        Err(()) => None,
        Ok(None) => Some(JsonV::Null),
        Ok(Some(v)) => Some(v),
    }
}

/// The diagnostic flag: `false` when not given; a boolean as it is;
/// anything else is refused.
pub open spec fn flag_field(j: JsonV) -> Option<bool> {
    match field_value(j, 10, "diagnostic"@, None) {
        Err(()) => None,
        Ok(None) => Some(false),
        Ok(Some(JsonV::Bool(b))) => Some(b),
        Ok(Some(_)) => None,
    }
}

/// Whether the input has the shape of an event: an object, or a list of at
/// most the eleven fields in order.
pub open spec fn event_shape(j: JsonV) -> bool {
    match j {
        JsonV::Object(_) => true,
        JsonV::Array(items) => items.len() <= 11,
        _ => false,
    }
}

/// Whether every field of the input can be read.
pub open spec fn event_readable(j: JsonV) -> bool {
    &&& event_shape(j)
    &&& text_field(j, 0, "hook_event_name"@, Some("hookEventName"@), false) is Some
    &&& text_field(j, 1, "session_id"@, Some("sessionId"@), false) is Some
    &&& text_field(j, 2, "turn_id"@, Some("turnId"@), false) is Some
    &&& text_field(j, 3, "session_name"@, Some("sessionName"@), true) is Some
    &&& text_field(j, 4, "thread_name"@, Some("threadName"@), true) is Some
    &&& text_field(j, 5, "tool_use_id"@, Some("toolUseId"@), false) is Some
    &&& text_field(j, 6, "cwd"@, None, false) is Some
    &&& text_field(j, 7, "last_assistant_message"@, Some("lastAssistantMessage"@), true) is Some
    &&& text_field(j, 8, "tool_name"@, Some("toolName"@), false) is Some
    &&& input_field(j) is Some
    &&& flag_field(j) is Some
}

/// The event read from the input: each field as `text_field`, `input_field`
/// and `flag_field` read it.
pub open spec fn event_of(ev: HookEvent, j: JsonV) -> bool {
    &&& Some(ev.hook_event_name@) == text_field(j, 0, "hook_event_name"@, Some("hookEventName"@), false)
    &&& Some(ev.session_id@) == text_field(j, 1, "session_id"@, Some("sessionId"@), false)
    &&& Some(ev.turn_id@) == text_field(j, 2, "turn_id"@, Some("turnId"@), false)
    &&& Some(ev.session_name@) == text_field(j, 3, "session_name"@, Some("sessionName"@), true)
    &&& Some(ev.thread_name@) == text_field(j, 4, "thread_name"@, Some("threadName"@), true)
    &&& Some(ev.tool_use_id@) == text_field(j, 5, "tool_use_id"@, Some("toolUseId"@), false)
    &&& Some(ev.cwd@) == text_field(j, 6, "cwd"@, None, false)
    &&& Some(ev.last_assistant_message@) == text_field(
        j,
        7,
        "last_assistant_message"@,
        Some("lastAssistantMessage"@),
        true,
    )
    &&& Some(ev.tool_name@) == text_field(j, 8, "tool_name"@, Some("toolName"@), false)
    &&& Some(ev.tool_input@) == input_field(j)
    &&& Some(ev.diagnostic) == flag_field(j)
}

fn field<'a>(j: &'a Json, index: usize, name: &str, alias: Option<&str>) -> (r: Result<Option<&'a Json>, ()>)
    ensures
        match r {
            Err(()) => field_value(j@, index as int, name@, opt_str(alias)) is Err,
            Ok(None) => field_value(j@, index as int, name@, opt_str(alias)) == Ok::<Option<JsonV>, ()>(None),
            Ok(Some(v)) => field_value(j@, index as int, name@, opt_str(alias)) == Ok::<Option<JsonV>, ()>(Some(v@)),
        },
{
    match j {
        Json::Object(_) => {
            let a = j.get(name);
            let b = match alias {
                Some(x) => j.get(x),
                None => None,
            };
            match (a, b) {
                (Some(_), Some(_)) => Err(()),
                (Some(v), None) => Ok(Some(v)),
                (None, b) => Ok(b),
            }
        },
        Json::Array(items) => {
            proof {
                crate::json::lemma_jv_array(*items);
            }
            if index < items.len() {
                Ok(Some(&items[index]))
            } else {
                Ok(None)
            }
        },
        _ => Ok(None),
    }
}

pub open spec fn opt_str(o: Option<&str>) -> Option<Seq<char>> {
    match o {
        Some(s) => Some(s@),
        None => None,
    }
}

fn text(j: &Json, index: usize, name: &str, alias: Option<&str>, nullable: bool) -> (r: Option<String>)
    ensures
        match r {
            Some(t) => text_field(j@, index as int, name@, opt_str(alias), nullable) == Some(t@),
            None => text_field(j@, index as int, name@, opt_str(alias), nullable) is None,
        },
{
    match field(j, index, name, alias) {
        Err(()) => None,
        Ok(None) => Some(String::new()),
        Ok(Some(Json::Str(s))) => Some(s.clone()),
        Ok(Some(Json::Null)) => if nullable {
            Some(String::new())
        } else {
            None
        },
        Ok(Some(_)) => None,
    }
}

/// Reads a hook event from the JSON Codex sent; `None` when the input is not
/// an event (see `event_readable` and `event_of`). Fields it does not know
/// are passed over.
pub fn hook_event_from_json(j: &Json) -> (r: Option<HookEvent>)
    ensures
        event_readable(j@) ==> (r matches Some(ev) && event_of(ev, j@)),
        !event_readable(j@) ==> r is None,
{
    let shape = match j {
        Json::Object(_) => true,
        Json::Array(items) => {
            proof {
                crate::json::lemma_jv_array(*items);
            }
            items.len() <= 11
        },
        _ => false,
    };
    if !shape {
        return None;
    }
    let hook_event_name = text(j, 0, "hook_event_name", Some("hookEventName"), false);
    let session_id = text(j, 1, "session_id", Some("sessionId"), false);
    let turn_id = text(j, 2, "turn_id", Some("turnId"), false);
    let session_name = text(j, 3, "session_name", Some("sessionName"), true);
    let thread_name = text(j, 4, "thread_name", Some("threadName"), true);
    let tool_use_id = text(j, 5, "tool_use_id", Some("toolUseId"), false);
    let cwd = text(j, 6, "cwd", None, false);
    let last_assistant_message = text(j, 7, "last_assistant_message", Some("lastAssistantMessage"), true);
    let tool_name = text(j, 8, "tool_name", Some("toolName"), false);
    let tool_input = match field(j, 9, "tool_input", Some("toolInput")) {
        Err(()) => None,
        Ok(None) => Some(Json::Null),
        Ok(Some(v)) => Some(copy_json(v)),
    };
    let diagnostic = match field(j, 10, "diagnostic", None) {
        Err(()) => None,
        Ok(None) => Some(false),
        Ok(Some(Json::Bool(b))) => Some(*b),
        Ok(Some(_)) => None,
    };
    match (
        hook_event_name,
        session_id,
        turn_id,
        session_name,
        thread_name,
        tool_use_id,
        cwd,
        last_assistant_message,
        tool_name,
        tool_input,
        diagnostic,
    ) {
        (
            Some(hook_event_name),
            Some(session_id),
            Some(turn_id),
            Some(session_name),
            Some(thread_name),
            Some(tool_use_id),
            Some(cwd),
            Some(last_assistant_message),
            Some(tool_name),
            Some(tool_input),
            Some(diagnostic),
        ) => Some(
            HookEvent {
                hook_event_name,
                session_id,
                turn_id,
                session_name,
                thread_name,
                tool_use_id,
                cwd,
                last_assistant_message,
                tool_name,
                tool_input,
                diagnostic,
            },
        ),
        _ => None,
    }
}

} // verus!
