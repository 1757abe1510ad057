//! What a hook of the agent asks the bridge for, and what it tells the agent.
use vstd::prelude::*;
use vstd::string::*;

use crate::config::{failure, Failure};
use crate::json::{
    bool_tree, field, get_tree, is_record, lemma_members, lemma_trees, no_members, opt_tree,
    owed_text, read_spare_text, read_text, spare_text, text_tree, with_member, Json, Tree,
};
use crate::paths::{absolute, is_absolute};
use crate::protocol::{
    BridgeRequest, PermissionDecision, PermissionResult, StopDecision, StopResult,
    MAX_IPC_MESSAGE_BYTES,
};
use crate::text::{cat, cat3, is_blank, opt_view, str_eq, trim};

verus! {

broadcast use vstd::string::group_string_axioms;

/// The occasions on which the agent calls a hook.
#[derive(Clone, Copy, Debug, PartialEq, Eq, Structural)]
pub enum HookCommand {
    Prompt,
    PreTool,
    PostTool,
    Stop,
}

/// Whether a hook may read an input of that length.
pub fn check_input_length(len: usize) -> (r: Result<(), Failure>)
    ensures
        match r {
            Ok(()) => 0 < len <= MAX_IPC_MESSAGE_BYTES,
            Err(f) => if len == 0 {
                f.message@ == "Hook stdin was empty"@
            } else {
                len > MAX_IPC_MESSAGE_BYTES && f.message@ == "Hook stdin exceeded the size limit"@
            },
        },
{
    if len == 0 {
        return Err(failure("Hook stdin was empty"));
    }
    if len > MAX_IPC_MESSAGE_BYTES {
        return Err(failure("Hook stdin exceeded the size limit"));
    }
    Ok(())
}

// ---------------------------------------------------------------------------
// What is asked

/// The text that the input has to have under that name: one that is not blank.
pub open spec fn required(input: Tree, key: Seq<char>) -> Option<Seq<char>> {
    match text_tree(get_tree(input, key)) {
        Some(s) if trim(s).len() > 0 => Some(s),
        _ => None,
    }
}

/// What is said where the input lacks something.
pub open spec fn omitted(key: Seq<char>) -> Seq<char> {
    "Hook input omitted "@ + key
}

/// What is wrong with the directory that the input has to have under that name.
pub open spec fn path_fault(input: Tree, key: Seq<char>) -> Option<Seq<char>> {
    match required(input, key) {
        None => Some(omitted(key)),
        Some(s) => if absolute(s) {
            None
        } else {
            Some("Hook "@ + key + " must be absolute"@)
        },
    }
}

/// Whether a stop was held back before, as the input says.
pub open spec fn is_stop_active(input: Tree) -> bool {
    bool_tree(get_tree(input, "stop_hook_active"@)) == Some(true)
}

/// What is wrong with the input of a hook.
pub open spec fn input_fault(command: HookCommand, input: Tree, wait: u64) -> Option<Seq<char>> {
    if required(input, "session_id"@) is None {
        Some(omitted("session_id"@))
    } else {
        match command {
            HookCommand::Prompt => if path_fault(input, "cwd"@) is Some {
                path_fault(input, "cwd"@)
            } else if required(input, "hook_event_name"@) is None {
                Some(omitted("hook_event_name"@))
            } else {
                None
            },
            HookCommand::Stop => None,
            _ => if required(input, "tool_use_id"@) is None {
                Some(omitted("tool_use_id"@))
            } else if required(input, "tool_name"@) is None {
                Some(omitted("tool_name"@))
            } else if command == HookCommand::PostTool {
                None
            } else if get_tree(input, "tool_input"@) is None {
                Some(omitted("tool_input"@))
            } else if path_fault(input, "cwd"@) is Some {
                path_fault(input, "cwd"@)
            } else if wait + 15 > u64::MAX {
                Some("Bridge wait timeout overflow"@)
            } else {
                None
            },
        }
    }
}

/// Whether the request is what the hook has to ask for on that occasion.
pub open spec fn asks(command: HookCommand, input: Tree, request: BridgeRequest) -> bool {
    match command {
        HookCommand::Prompt => request matches BridgeRequest::RegisterPrompt { session_id, cwd }
            && Some(session_id@) == required(input, "session_id"@) && Some(cwd@) == required(
            input,
            "cwd"@,
        ),
        HookCommand::PreTool => request matches BridgeRequest::PreTool {
            session_id,
            tool_use_id,
            tool_name,
            tool_input,
            cwd,
        } && Some(session_id@) == required(input, "session_id"@) && Some(tool_use_id@) == required(
            input,
            "tool_use_id"@,
        ) && Some(tool_name@) == required(input, "tool_name"@) && Some(tool_input@) == get_tree(
            input,
            "tool_input"@,
        ) && Some(cwd@) == required(input, "cwd"@),
        HookCommand::PostTool => request matches BridgeRequest::PostTool {
            session_id,
            tool_use_id,
            tool_name,
        } && Some(session_id@) == required(input, "session_id"@) && Some(tool_use_id@) == required(
            input,
            "tool_use_id"@,
        ) && Some(tool_name@) == required(input, "tool_name"@),
        HookCommand::Stop => request matches BridgeRequest::Stop { session_id, stop_hook_active }
            && Some(session_id@) == required(input, "session_id"@) && stop_hook_active
            == is_stop_active(input),
    }
}

/// How many seconds the hook waits for the answer.
pub open spec fn patience(command: HookCommand, wait: u64) -> int {
    match command {
        HookCommand::PreTool => wait + 15,
        HookCommand::Stop => 20,
        _ => 10,
    }
}

fn required_string(input: &Json, key: &str) -> (r: Result<String, Failure>)
    ensures
        match r {
            Ok(s) => required(input@, key@) == Some(s@),
            Err(f) => required(input@, key@) is None && f.message@ == omitted(key@),
        },
{
    if let Some(s) = input.get_text(key) {
        if !is_blank(s.as_str()) {
            return Ok(s);
        }
    }
    let message = cat("Hook input omitted ", key);
    Err(failure(message.as_str()))
}

fn required_path(input: &Json, key: &str) -> (r: Result<String, Failure>)
    ensures
        match r {
            Ok(s) => required(input@, key@) == Some(s@) && path_fault(input@, key@) is None,
            Err(f) => path_fault(input@, key@) == Some(f.message@),
        },
{
    let path = match required_string(input, key) {
        Err(f) => {
            return Err(f);
        },
        Ok(path) => path,
    };
    if !is_absolute(path.as_str()) {
        let message = cat3("Hook ", key, " must be absolute");
        return Err(failure(message.as_str()));
    }
    Ok(path)
}

/// Whether a stop was held back before, as the input says.
pub fn stop_hook_active(input: &Json) -> (r: bool)
    ensures
        r == is_stop_active(input@),
{
    match input.get("stop_hook_active") {
        Some(j) => match j.as_bool() {
            Some(b) => b,
            None => false,
        },
        None => false,
    }
}

/// What the hook has to ask the bridge for, and how many seconds it waits for the
/// answer.
pub fn hook_request(command: HookCommand, input: &Json, bridge_wait_seconds: u64) -> (r: Result<
    (BridgeRequest, u64),
    Failure,
>)
    ensures
        match input_fault(command, input@, bridge_wait_seconds) {
            Some(message) => r matches Err(f) && f.message@ == message,
            None => r matches Ok((request, seconds)) && asks(command, input@, request) && seconds
                == patience(command, bridge_wait_seconds),
        },
{
    let session_id = match required_string(input, "session_id") {
        Err(f) => {
            return Err(f);
        },
        Ok(s) => s,
    };
    match command {
        HookCommand::Prompt => {
            let cwd = match required_path(input, "cwd") {
                Err(f) => {
                    return Err(f);
                },
                Ok(s) => s,
            };
            if let Err(f) = required_string(input, "hook_event_name") {
                return Err(f);
            }
            Ok((BridgeRequest::RegisterPrompt { session_id, cwd }, 10))
        },
        HookCommand::Stop => {
            let stop_hook_active = stop_hook_active(input);
            Ok((BridgeRequest::Stop { session_id, stop_hook_active }, 20))
        },
        _ => {
            let tool_use_id = match required_string(input, "tool_use_id") {
                Err(f) => {
                    return Err(f);
                },
                Ok(s) => s,
            };
            let tool_name = match required_string(input, "tool_name") {
                Err(f) => {
                    return Err(f);
                },
                Ok(s) => s,
            };
            if command == HookCommand::PostTool {
                return Ok((BridgeRequest::PostTool { session_id, tool_use_id, tool_name }, 10));
            }
            let tool_input = match input.get("tool_input") {
                None => {
                    return Err(failure_omitted("tool_input"));
                },
                Some(j) => j.duplicate(),
            };
            let cwd = match required_path(input, "cwd") {
                Err(f) => {
                    return Err(f);
                },
                Ok(s) => s,
            };
            if bridge_wait_seconds > u64::MAX - 15 {
                return Err(failure("Bridge wait timeout overflow"));
            }
            Ok(
                (
                    BridgeRequest::PreTool { session_id, tool_use_id, tool_name, tool_input, cwd },
                    bridge_wait_seconds + 15,
                ),
            )
        },
    }
}

fn failure_omitted(key: &str) -> (f: Failure)
    ensures
        f.message@ == omitted(key@),
{
    let message = cat("Hook input omitted ", key);
    failure(message.as_str())
}

// ---------------------------------------------------------------------------
// What is told

/// Whether the value names that choice.
pub open spec fn chooses(t: Option<Tree>, name: Seq<char>) -> bool {
    match t {
        Some(Tree::Text(s)) => s == name,
        Some(Tree::Object(ms)) => ms.len() == 1 && ms[0] == (name, Tree::Null),
        _ => false,
    }
}

/// The decision on a tool call that the value holds.
pub open spec fn permission(t: Tree) -> Option<(PermissionDecision, Seq<char>)> {
    let decision = field(t, 0, "decision"@);
    match owed_text(field(t, 1, "reason"@)) {
        Some(reason) if is_record(t, 2) => if chooses(decision, "allow"@) {
            Some((PermissionDecision::Allow, reason))
        } else if chooses(decision, "deny"@) {
            Some((PermissionDecision::Deny, reason))
        } else {
            None
        },
        _ => None,
    }
}

/// The decision on an agent's wish to stop that the value holds.
pub open spec fn stopping(t: Tree) -> Option<(StopDecision, Option<Seq<char>>)> {
    let decision = field(t, 0, "decision"@);
    match spare_text(field(t, 1, "reason"@)) {
        Some(reason) if is_record(t, 2) && (t matches Tree::Array(ts) ==> ts.len() == 2) =>
        if chooses(decision, "allow"@) {
            Some((StopDecision::Allow, reason))
        } else if chooses(decision, "block"@) {
            Some((StopDecision::Block, reason))
        } else {
            None
        },
        _ => None,
    }
}

fn names_choice(value: Option<&Json>, name: &str) -> (r: bool)
    ensures
        r == chooses(opt_tree(value), name@),
{
    match value {
        Some(Json::Text(s)) => str_eq(s.as_str(), name),
        Some(Json::Object(v)) => {
            proof {
                lemma_members(*v, v@.len());
            }
            v.len() == 1 && str_eq(v[0].key.as_str(), name) && is_null(&v[0].value)
        },
        _ => false,
    }
}

fn is_null(j: &Json) -> (r: bool)
    ensures
        r == (j@ == Tree::Null),
{
    match j {
        Json::Null => true,
        _ => false,
    }
}

/// Reads the decision on a tool call.
pub fn read_permission(value: &Json) -> (r: Option<PermissionResult>)
    ensures
        match permission(value@) {
            Some((decision, reason)) => r matches Some(p) && p.decision == decision && p.reason@
                == reason,
            None => r is None,
        },
{
    if !value.is_record(2) {
        return None;
    }
    let reason = match read_text(value.field(1, "reason")) {
        None => {
            return None;
        },
        Some(reason) => reason,
    };
    let decision = value.field(0, "decision");
    if names_choice(decision, "allow") {
        Some(PermissionResult { decision: PermissionDecision::Allow, reason })
    } else if names_choice(decision, "deny") {
        Some(PermissionResult { decision: PermissionDecision::Deny, reason })
    } else {
        None
    }
}

/// Reads the decision on an agent's wish to stop.
pub fn read_stop(value: &Json) -> (r: Option<StopResult>)
    ensures
        match stopping(value@) {
            Some((decision, reason)) => r matches Some(s) && s.decision == decision && opt_view(
                s.reason,
            ) == reason,
            None => r is None,
        },
{
    if !value.is_record(2) {
        return None;
    }
    if let Json::Array(v) = value {
        proof {
            lemma_trees(*v, v@.len());
        }
        if v.len() != 2 {
            return None;
        }
    }
    let reason = match read_spare_text(value.field(1, "reason")) {
        None => {
            return None;
        },
        Some(reason) => reason,
    };
    let decision = value.field(0, "decision");
    if names_choice(decision, "allow") {
        Some(StopResult { decision: StopDecision::Allow, reason })
    } else if names_choice(decision, "block") {
        Some(StopResult { decision: StopDecision::Block, reason })
    } else {
        None
    }
}

/// What the agent is told of the decision on a tool call.
pub open spec fn permission_told(decision: PermissionDecision, reason: Seq<char>) -> Tree {
    let word = match decision {
        PermissionDecision::Allow => "allow"@,
        PermissionDecision::Deny => "deny"@,
    };
    with_member(
        no_members(),
        "hookSpecificOutput"@,
        with_member(
            with_member(
                with_member(no_members(), "hookEventName"@, Tree::Text("PreToolUse"@)),
                "permissionDecision"@,
                Tree::Text(word),
            ),
            "permissionDecisionReason"@,
            Tree::Text(reason),
        ),
    )
}

/// What the agent is told that may not stop yet.
pub open spec fn block_told(reason: Seq<char>) -> Tree {
    with_member(
        no_members(),
        "hookSpecificOutput"@,
        with_member(
            with_member(
                with_member(no_members(), "hookEventName"@, Tree::Text("Stop"@)),
                "decision"@,
                Tree::Text("block"@),
            ),
            "reason"@,
            Tree::Text(reason),
        ),
    )
}

/// What the agent is told of the label of its session.
pub open spec fn label_told(label: Seq<char>) -> Tree {
    with_member(
        no_members(),
        "hookSpecificOutput"@,
        with_member(
            with_member(no_members(), "hookEventName"@, Tree::Text("SessionStart"@)),
            "additionalContext"@,
            Tree::Text(
                "The authenticated remote QQ session label for this Agent session is "@ + label
                    + ". Pass this exact label to QQ MCP tools when available."@,
            ),
        ),
    )
}

/// What the agent is told of the decision on a tool call.
pub fn pre_tool_output(decision: PermissionDecision, reason: &str) -> (r: Json)
    ensures
        r@ == permission_told(decision, reason@),
{
    let word = match decision {
        PermissionDecision::Allow => "allow",
        PermissionDecision::Deny => "deny",
    };
    let inner = Json::object().with("hookEventName", Json::text("PreToolUse")).with(
        "permissionDecision",
        Json::text(word),
    ).with("permissionDecisionReason", Json::text(reason));
    Json::object().with("hookSpecificOutput", inner)
}

/// What the agent is told that may not stop yet.
pub fn stop_block_output(reason: &str) -> (r: Json)
    ensures
        r@ == block_told(reason@),
{
    let inner = Json::object().with("hookEventName", Json::text("Stop")).with(
        "decision",
        Json::text("block"),
    ).with("reason", Json::text(reason));
    Json::object().with("hookSpecificOutput", inner)
}

fn label_output(label: &str) -> (r: Json)
    ensures
        r@ == label_told(label@),
{
    let context = cat3(
        "The authenticated remote QQ session label for this Agent session is ",
        label,
        ". Pass this exact label to QQ MCP tools when available.",
    );
    let inner = Json::object().with("hookEventName", Json::text("SessionStart")).with(
        "additionalContext",
        Json::text(context.as_str()),
    );
    Json::object().with("hookSpecificOutput", inner)
}

/// What the hook tells the agent, given the bridge's answer.
pub open spec fn told(command: HookCommand, input: Tree, result: Tree) -> Result<Tree, Seq<char>> {
    match command {
        HookCommand::Prompt => match text_tree(get_tree(result, "session_label"@)) {
            None => Err("Bridge response omitted session_label"@),
            Some(label) => match required(input, "hook_event_name"@) {
                None => Err(omitted("hook_event_name"@)),
                Some(event) => if event == "SessionStart"@ {
                    Ok(label_told(label))
                } else if event == "UserPromptSubmit"@ {
                    Ok(no_members())
                } else {
                    Err("prompt hook received unsupported event "@ + event)
                },
            },
        },
        HookCommand::PreTool => match permission(result) {
            None => Err("invalid permission response"@),
            Some((decision, reason)) => Ok(permission_told(decision, reason)),
        },
        HookCommand::PostTool => Ok(no_members()),
        HookCommand::Stop => match stopping(result) {
            None => Err("invalid Stop response"@),
            Some((StopDecision::Allow, _)) => Ok(no_members()),
            Some((StopDecision::Block, reason)) => Ok(
                block_told(
                    match reason {
                        Some(s) => s,
                        None => "Send the final QQ response before stopping."@,
                    },
                ),
            ),
        },
    }
}

/// What the hook tells the agent, given the bridge's answer.
pub fn hook_output(command: HookCommand, input: &Json, result: &Json) -> (r: Result<Json, Failure>)
    ensures
        match told(command, input@, result@) {
            Ok(t) => r matches Ok(j) && j@ == t,
            Err(message) => r matches Err(f) && f.message@ == message,
        },
{
    match command {
        HookCommand::Prompt => {
            let label = match result.get_text("session_label") {
                None => {
                    return Err(failure("Bridge response omitted session_label"));
                },
                Some(label) => label,
            };
            let event = match required_string(input, "hook_event_name") {
                Err(f) => {
                    return Err(f);
                },
                Ok(event) => event,
            };
            if str_eq(event.as_str(), "SessionStart") {
                Ok(label_output(label.as_str()))
            } else if str_eq(event.as_str(), "UserPromptSubmit") {
                Ok(Json::object())
            } else {
                let message = cat("prompt hook received unsupported event ", event.as_str());
                Err(failure(message.as_str()))
            }
        },
        HookCommand::PreTool => match read_permission(result) {
            None => Err(failure("invalid permission response")),
            Some(p) => Ok(pre_tool_output(p.decision, p.reason.as_str())),
        },
        HookCommand::PostTool => Ok(Json::object()),
        HookCommand::Stop => match read_stop(result) {
            None => Err(failure("invalid Stop response")),
            Some(s) => match s.decision {
                StopDecision::Allow => Ok(Json::object()),
                StopDecision::Block => match s.reason {
                    Some(reason) => Ok(stop_block_output(reason.as_str())),
                    None => Ok(stop_block_output("Send the final QQ response before stopping.")),
                },
            },
        },
    }
}

/// What the hook tells the agent where the bridge could not be asked: a tool call
/// is denied, and a stop is held back once.
pub open spec fn fallback_told(command: HookCommand, stop_hook_active: bool) -> Tree {
    match command {
        HookCommand::PreTool => permission_told(
            PermissionDecision::Deny,
            "QQ remote approval was unavailable; denied fail-closed"@,
        ),
        HookCommand::Stop if !stop_hook_active => block_told(
            "Before stopping, call qq_send_final once. QQ Bridge was unavailable, so the one-time local fallback blocked this stop."@,
        ),
        _ => no_members(),
    }
}

/// What the hook tells the agent where the bridge could not be asked: a tool call
/// is denied, and a stop is held back once.
pub fn hook_fallback(command: HookCommand, stop_hook_active: bool) -> (r: Json)
    ensures
        r@ == fallback_told(command, stop_hook_active),
{
    match command {
        HookCommand::PreTool => pre_tool_output(
            PermissionDecision::Deny,
            "QQ remote approval was unavailable; denied fail-closed",
        ),
        HookCommand::Stop if !stop_hook_active => stop_block_output(
            "Before stopping, call qq_send_final once. QQ Bridge was unavailable, so the one-time local fallback blocked this stop.",
        ),
        _ => Json::object(),
    }
}

} // verus!
