//! What is said to agents and to the owner, and what is heard from them: which part of
//! what comes in reaches which part of what goes out.
use vstd::prelude::*;
use vstd::string::*;

use crate::config::Failure;
use crate::hook::{
    asks, fallback_told, input_fault, label_told, patience, told, HookCommand,
};
use crate::json::{
    canonical, compact, get_tree, member, no_members, number_of, number_tree, with_member, Json, Tree,
};
use crate::mcp::{
    call_outcome, is_question, response_tree, stepped, tool_failed, tool_worked, welcome,
    JsonRpcRequest, JsonRpcResponse, McpServer, McpStep,
};
use crate::protocol::BridgeRequest;
use crate::qq::{
    approval_message, button, choice_fault, choice_message, heard_outcome, heartbeat_tree,
    hello_heard, identify_tree, in_reply, is_interaction, is_message, payload_outcome, resume_tree,
    row_count, short_label, text_message, token_given, ApprovalButtons, C2cInteraction, C2cMessage,
    ChoiceButtons, GatewayEvent, GatewayLink, GatewayPayload, MockQqMessenger, SendReceipt,
};
use crate::store::Database;
use crate::text::{integer, opt_view, trim, views};

verus! {

broadcast use vstd::string::group_string_axioms;

// ---------------------------------------------------------------------------
// Members of values

/// A member that is added is found under its name, unless one of that name was there
/// before; the others are found as before.
pub proof fn added_members_are_found(
    ms: Seq<(Seq<char>, Tree)>,
    key: Seq<char>,
    value: Tree,
    name: Seq<char>,
)
    ensures
        get_tree(with_member(Tree::Object(ms), key, value), name) == (if get_tree(
            Tree::Object(ms),
            name,
        ) is Some {
            get_tree(Tree::Object(ms), name)
        } else if name == key {
            Some(value)
        } else {
            None
        }),
    decreases ms.len(),
{
    reveal_with_fuel(member, 2);
    let more = ms.push((key, value));
    if ms.len() == 0 {
        assert(more[0] == (key, value));
        assert(more.skip(1).len() == 0);
    } else if ms[0].0 == name {
        assert(more[0] == ms[0]);
    } else {
        assert(more[0] == ms[0]);
        assert(more.skip(1) =~= ms.skip(1).push((key, value)));
        added_members_are_found(ms.skip(1), key, value, name);
    }
}

/// The value under a path of two names.
pub open spec fn under(t: Tree, one: Seq<char>, two: Seq<char>) -> Option<Tree> {
    match get_tree(t, one) {
        Some(inner) => get_tree(inner, two),
        None => None,
    }
}

proof fn lemma_first_member(key: Seq<char>, value: Tree)
    ensures
        get_tree(with_member(no_members(), key, value), key) == Some(value),
        forall|q: Seq<char>| q != key ==> #[trigger] get_tree(
            with_member(no_members(), key, value),
            q,
        ) is None,
{
    added_members_are_found(Seq::empty(), key, value, key);
    assert forall|q: Seq<char>| q != key implies #[trigger] get_tree(
        with_member(no_members(), key, value),
        q,
    ) is None by {
        added_members_are_found(Seq::empty(), key, value, q);
    }
}

proof fn lemma_next_member(t: Tree, key: Seq<char>, value: Tree)
    requires
        t is Object,
        get_tree(t, key) is None,
    ensures
        with_member(t, key, value) is Object,
        get_tree(with_member(t, key, value), key) == Some(value),
        forall|q: Seq<char>| q != key ==> #[trigger] get_tree(with_member(t, key, value), q)
            == get_tree(t, q),
{
    let ms = t->Object_0;
    added_members_are_found(ms, key, value, key);
    assert forall|q: Seq<char>| q != key implies #[trigger] get_tree(with_member(t, key, value), q)
        == get_tree(t, q) by {
        added_members_are_found(ms, key, value, q);
    }
}

// ---------------------------------------------------------------------------
// Hooks

/// The decision on a tool call reaches the agent as it was taken, with its reason; what is
/// no decision is none.
pub proof fn decisions_reach_the_agent(input: Tree, result: Tree, word: Seq<char>, reason: Seq<char>)
    requires
        result is Object,
        get_tree(result, "decision"@) == Some(Tree::Text(word)),
        get_tree(result, "reason"@) == Some(Tree::Text(reason)),
    ensures
        ({
            let out = told(HookCommand::PreTool, input, result);
            &&& word == "allow"@ || word == "deny"@ ==> {
                &&& out is Ok
                &&& under(out->Ok_0, "hookSpecificOutput"@, "permissionDecision"@) == Some(
                    Tree::Text(word),
                )
                &&& under(out->Ok_0, "hookSpecificOutput"@, "permissionDecisionReason"@) == Some(
                    Tree::Text(reason),
                )
                &&& under(out->Ok_0, "hookSpecificOutput"@, "hookEventName"@) == Some(
                    Tree::Text("PreToolUse"@),
                )
            }
            &&& word != "allow"@ && word != "deny"@ ==> out is Err
        }),
{
    reveal_strlit("allow");
    reveal_strlit("deny");
    assert("allow"@.len() != "deny"@.len());
    if word == "allow"@ || word == "deny"@ {
        lemma_permission(word, reason);
    }
}

proof fn lemma_permission(word: Seq<char>, reason: Seq<char>)
    ensures
        ({
            let one = with_member(no_members(), "hookEventName"@, Tree::Text("PreToolUse"@));
            let two = with_member(one, "permissionDecision"@, Tree::Text(word));
            let three = with_member(two, "permissionDecisionReason"@, Tree::Text(reason));
            let out = with_member(no_members(), "hookSpecificOutput"@, three);
            &&& under(out, "hookSpecificOutput"@, "permissionDecision"@) == Some(Tree::Text(word))
            &&& under(out, "hookSpecificOutput"@, "permissionDecisionReason"@) == Some(
                Tree::Text(reason),
            )
            &&& under(out, "hookSpecificOutput"@, "hookEventName"@) == Some(
                Tree::Text("PreToolUse"@),
            )
        }),
{
    reveal_strlit("hookEventName");
    reveal_strlit("permissionDecision");
    reveal_strlit("permissionDecisionReason");
    assert("hookEventName"@.len() != "permissionDecision"@.len());
    assert("hookEventName"@.len() != "permissionDecisionReason"@.len());
    assert("permissionDecision"@.len() != "permissionDecisionReason"@.len());
    let one = with_member(no_members(), "hookEventName"@, Tree::Text("PreToolUse"@));
    let two = with_member(one, "permissionDecision"@, Tree::Text(word));
    let three = with_member(two, "permissionDecisionReason"@, Tree::Text(reason));
    lemma_first_member("hookEventName"@, Tree::Text("PreToolUse"@));
    lemma_next_member(one, "permissionDecision"@, Tree::Text(word));
    lemma_next_member(two, "permissionDecisionReason"@, Tree::Text(reason));
    lemma_first_member("hookSpecificOutput"@, three);
}

proof fn lemma_block(reason: Seq<char>)
    ensures
        ({
            let out = crate::hook::block_told(reason);
            &&& under(out, "hookSpecificOutput"@, "decision"@) == Some(Tree::Text("block"@))
            &&& under(out, "hookSpecificOutput"@, "reason"@) == Some(Tree::Text(reason))
            &&& under(out, "hookSpecificOutput"@, "hookEventName"@) == Some(Tree::Text("Stop"@))
        }),
{
    reveal_strlit("hookEventName");
    reveal_strlit("decision");
    reveal_strlit("reason");
    assert("hookEventName"@.len() != "decision"@.len());
    assert("hookEventName"@.len() != "reason"@.len());
    assert("decision"@.len() != "reason"@.len());
    let one = with_member(no_members(), "hookEventName"@, Tree::Text("Stop"@));
    let two = with_member(one, "decision"@, Tree::Text("block"@));
    let three = with_member(two, "reason"@, Tree::Text(reason));
    lemma_first_member("hookEventName"@, Tree::Text("Stop"@));
    lemma_next_member(one, "decision"@, Tree::Text("block"@));
    lemma_next_member(two, "reason"@, Tree::Text(reason));
    lemma_first_member("hookSpecificOutput"@, three);
}

/// An agent that is held back is told so, with the reason; one that is not is told
/// nothing.
pub proof fn stops_reach_the_agent(input: Tree, result: Tree, word: Seq<char>, reason: Seq<char>)
    requires
        result is Object,
        get_tree(result, "decision"@) == Some(Tree::Text(word)),
        get_tree(result, "reason"@) == Some(Tree::Text(reason)),
    ensures
        ({
            let out = told(HookCommand::Stop, input, result);
            &&& word == "allow"@ ==> out == Ok::<Tree, Seq<char>>(no_members())
            &&& word == "block"@ ==> {
                &&& out is Ok
                &&& under(out->Ok_0, "hookSpecificOutput"@, "decision"@) == Some(
                    Tree::Text("block"@),
                )
                &&& under(out->Ok_0, "hookSpecificOutput"@, "reason"@) == Some(Tree::Text(reason))
            }
            &&& word != "allow"@ && word != "block"@ ==> out is Err
        }),
{
    reveal_strlit("allow");
    reveal_strlit("block");
    assert("allow"@[0] != "block"@[0]);
    lemma_block(reason);
}

/// Where the bridge cannot be asked, a tool call is denied and a stop is held back once;
/// nothing else is told.
pub proof fn silence_denies(command: HookCommand, active: bool)
    ensures
        ({
            let out = fallback_told(command, active);
            &&& command == HookCommand::PreTool ==> under(
                out,
                "hookSpecificOutput"@,
                "permissionDecision"@,
            ) == Some(Tree::Text("deny"@))
            &&& command == HookCommand::Stop && !active ==> under(
                out,
                "hookSpecificOutput"@,
                "decision"@,
            ) == Some(Tree::Text("block"@))
            &&& command == HookCommand::Stop && active ==> out == no_members()
            &&& command == HookCommand::Prompt || command == HookCommand::PostTool ==> out
                == no_members()
        }),
{
    lemma_permission("deny"@, "QQ remote approval was unavailable; denied fail-closed"@);
    lemma_block(
        "Before stopping, call qq_send_final once. QQ Bridge was unavailable, so the one-time local fallback blocked this stop."@,
    );
}

/// The label of a session is told when the session starts, and only then.
pub proof fn labels_are_told_at_the_start(input: Tree, result: Tree, label: Seq<char>, event: Seq<char>)
    requires
        get_tree(result, "session_label"@) == Some(Tree::Text(label)),
        get_tree(input, "hook_event_name"@) == Some(Tree::Text(event)),
        trim(event).len() > 0,
    ensures
        event == "SessionStart"@ ==> told(HookCommand::Prompt, input, result) == Ok::<
            Tree,
            Seq<char>,
        >(label_told(label)),
        event == "UserPromptSubmit"@ ==> told(HookCommand::Prompt, input, result) == Ok::<
            Tree,
            Seq<char>,
        >(no_members()),
        event != "SessionStart"@ && event != "UserPromptSubmit"@ ==> told(
            HookCommand::Prompt,
            input,
            result,
        ) is Err,
        told(HookCommand::PostTool, input, result) == Ok::<Tree, Seq<char>>(no_members()),
{
    reveal_strlit("SessionStart");
    reveal_strlit("UserPromptSubmit");
    assert("SessionStart"@.len() != "UserPromptSubmit"@.len());
}

/// What is told at the start holds the label.
pub proof fn the_label_is_in_what_is_told(label: Seq<char>) -> (at: int)
    ensures
        under(label_told(label), "hookSpecificOutput"@, "additionalContext"@) is Some,
        under(label_told(label), "hookSpecificOutput"@, "additionalContext"@)->0 is Text,
        ({
            let text = (under(label_told(label), "hookSpecificOutput"@, "additionalContext"@)->0)->Text_0;
            &&& 0 <= at
            &&& at + label.len() <= text.len()
            &&& text.subrange(at, at + label.len()) == label
        }),
        under(label_told(label), "hookSpecificOutput"@, "hookEventName"@) == Some(
            Tree::Text("SessionStart"@),
        ),
{
    reveal_strlit("hookEventName");
    reveal_strlit("additionalContext");
    assert("hookEventName"@.len() != "additionalContext"@.len());
    let head = "The authenticated remote QQ session label for this Agent session is "@;
    let tail = ". Pass this exact label to QQ MCP tools when available."@;
    let text = head + label + tail;
    let one = with_member(no_members(), "hookEventName"@, Tree::Text("SessionStart"@));
    let two = with_member(one, "additionalContext"@, Tree::Text(text));
    lemma_first_member("hookEventName"@, Tree::Text("SessionStart"@));
    lemma_next_member(one, "additionalContext"@, Tree::Text(text));
    lemma_first_member("hookSpecificOutput"@, two);
    assert(text.subrange(head.len() as int, (head.len() + label.len()) as int) =~= label);
    head.len() as int
}

/// What a hook asks the bridge for holds what its input says.
pub proof fn hooks_pass_their_input_on(
    command: HookCommand,
    input: Tree,
    request: BridgeRequest,
    session: Seq<char>,
    call: Seq<char>,
    name: Seq<char>,
    arguments: Tree,
    dir: Seq<char>,
)
    requires
        asks(command, input, request),
        get_tree(input, "session_id"@) == Some(Tree::Text(session)),
        get_tree(input, "tool_use_id"@) == Some(Tree::Text(call)),
        get_tree(input, "tool_name"@) == Some(Tree::Text(name)),
        get_tree(input, "tool_input"@) == Some(arguments),
        get_tree(input, "cwd"@) == Some(Tree::Text(dir)),
    ensures
        match request {
            BridgeRequest::RegisterPrompt { session_id, cwd } => command == HookCommand::Prompt
                && session_id@ == session && cwd@ == dir,
            BridgeRequest::PreTool { session_id, tool_use_id, tool_name, tool_input, cwd } => command
                == HookCommand::PreTool && session_id@ == session && tool_use_id@ == call
                && tool_name@ == name && tool_input@ == arguments && cwd@ == dir,
            BridgeRequest::PostTool { session_id, tool_use_id, tool_name } => command
                == HookCommand::PostTool && session_id@ == session && tool_use_id@ == call
                && tool_name@ == name,
            BridgeRequest::Stop { session_id, stop_hook_active } => command == HookCommand::Stop
                && session_id@ == session && stop_hook_active == (get_tree(
                input,
                "stop_hook_active"@,
            ) == Some(Tree::Bool(true))),
            _ => false,
        },
{
}

/// A hook without a session's identifier asks for nothing; a stop with one can always be
/// asked about.
pub proof fn hooks_need_a_session(command: HookCommand, input: Tree, wait: u64)
    ensures
        !(get_tree(input, "session_id"@) matches Some(Tree::Text(s)) && trim(s).len() > 0)
            ==> input_fault(command, input, wait) is Some,
        (get_tree(input, "session_id"@) matches Some(Tree::Text(s)) && trim(s).len() > 0)
            ==> input_fault(HookCommand::Stop, input, wait) is None,
        command == HookCommand::PreTool && get_tree(input, "tool_input"@) is None ==> input_fault(
            command,
            input,
            wait,
        ) is Some,
        patience(HookCommand::PreTool, wait) == wait + 15,
        patience(HookCommand::Stop, wait) == 20,
        patience(HookCommand::PostTool, wait) == 10,
        patience(HookCommand::Prompt, wait) == 10,
{
}

// ---------------------------------------------------------------------------
// Tools

/// Each answer bears the identifier of its request and either a result or an error, but
/// never both.
pub proof fn answers_bear_their_identifier(
    a: McpServer,
    b: McpServer,
    r: JsonRpcRequest,
    step: McpStep,
)
    requires
        stepped(a, b, r, step),
    ensures
        r.id matches Some(j) ==> (step matches McpStep::Reply(x) ==> x.id@ == j@),
        r.id matches Some(j) ==> (step matches McpStep::Call { id, .. } ==> id@ == j@),
        step matches McpStep::Reply(x) ==> x.jsonrpc@ == "2.0"@ && (x.result is Some
            <==> x.error is None),
        r.id is None && r.method@ != "initialize"@ ==> step is Silent,
        b.session_id == a.session_id && b.version == a.version,
        a.initialized ==> b.initialized,
        !a.initialized && b.initialized ==> r.method@ == "initialize"@,
{
}

/// A client is greeted in the version of the protocol that it asks for where that is
/// known, and can use the tools from then on.
pub proof fn clients_are_greeted(
    a: McpServer,
    b: McpServer,
    r: JsonRpcRequest,
    step: McpStep,
    params: Json,
    version: Seq<char>,
)
    requires
        stepped(a, b, r, step),
        r.jsonrpc@ == "2.0"@,
        r.method@ == "initialize"@,
        r.params == Some(params),
        params@ is Object,
        get_tree(params@, "protocolVersion"@) == Some(Tree::Text(version)),
    ensures
        b.initialized,
        step matches McpStep::Reply(x) && x.result matches Some(j) && j@ == welcome(
            if version == "2025-11-25"@ || version == "2025-06-18"@ || version == "2025-03-26"@
                || version == "2024-11-05"@ {
                version
            } else {
                "2025-06-18"@
            },
            a.version@,
        ),
{
    reveal_strlit("initialize");
    assert("initialize"@[0] == 'i' && "initialize"@.last() == 'e');
    assert(trim("initialize"@) == "initialize"@);
}

/// What a client is greeted with tells the version of the protocol, and who greets.
pub proof fn the_greeting_tells_the_version(selected: Seq<char>, version: Seq<char>)
    ensures
        get_tree(welcome(selected, version), "protocolVersion"@) == Some(Tree::Text(selected)),
        under(welcome(selected, version), "serverInfo"@, "version"@) == Some(Tree::Text(version)),
        under(welcome(selected, version), "serverInfo"@, "name"@) == Some(
            Tree::Text("qq-copilot-remote"@),
        ),
{
    reveal_strlit("protocolVersion");
    reveal_strlit("capabilities");
    reveal_strlit("serverInfo");
    reveal_strlit("instructions");
    assert("protocolVersion"@.len() != "capabilities"@.len());
    assert("protocolVersion"@.len() != "serverInfo"@.len());
    assert("protocolVersion"@.len() != "instructions"@.len());
    assert("capabilities"@.len() != "serverInfo"@.len());
    assert("capabilities"@[0] != "instructions"@[0]);
    assert("serverInfo"@.len() != "instructions"@.len());
    reveal_strlit("name");
    reveal_strlit("version");
    assert("name"@.len() != "version"@.len());
    let tools = with_member(
        no_members(),
        "tools"@,
        with_member(no_members(), "listChanged"@, Tree::Bool(false)),
    );
    let name = with_member(no_members(), "name"@, Tree::Text("qq-copilot-remote"@));
    let server = with_member(name, "version"@, Tree::Text(version));
    lemma_first_member("name"@, Tree::Text("qq-copilot-remote"@));
    lemma_next_member(name, "version"@, Tree::Text(version));
    let one = with_member(no_members(), "protocolVersion"@, Tree::Text(selected));
    let two = with_member(one, "capabilities"@, tools);
    let three = with_member(two, "serverInfo"@, server);
    lemma_first_member("protocolVersion"@, Tree::Text(selected));
    lemma_next_member(one, "capabilities"@, tools);
    lemma_next_member(two, "serverInfo"@, server);
    lemma_next_member(
        three,
        "instructions"@,
        Tree::Text(
            "QQ tools always target the locally bound Owner. Do not send secrets, URLs, file paths, hidden reasoning, raw transcripts, or unredacted tool input."@,
        ),
    );
}

/// What a tool that did not work says is told as an error; what a tool that worked says
/// is told as it is.
pub proof fn results_are_told(result: Tree, message: Seq<char>)
    ensures
        get_tree(tool_worked(result), "structuredContent"@) == Some(result),
        get_tree(tool_worked(result), "isError"@) == Some(Tree::Bool(false)),
        get_tree(tool_failed(message), "isError"@) == Some(Tree::Bool(true)),
        get_tree(tool_failed(message), "content"@) matches Some(Tree::Array(ts)) && ts.len() == 1
            && get_tree(ts[0], "text"@) == Some(Tree::Text(message)),
        get_tree(tool_worked(result), "content"@) matches Some(Tree::Array(ts)) && ts.len() == 1
            && get_tree(ts[0], "text"@) == Some(Tree::Text(compact(canonical(result)))),
{
    reveal_strlit("content");
    reveal_strlit("structuredContent");
    reveal_strlit("isError");
    assert("content"@.len() != "structuredContent"@.len());
    assert("content"@[0] != "isError"@[0]);
    assert("structuredContent"@.len() != "isError"@.len());
    reveal_strlit("type");
    reveal_strlit("text");
    assert("type"@[1] != "text"@[1]);
    lemma_first_member("type"@, Tree::Text("text"@));
    let typed = with_member(no_members(), "type"@, Tree::Text("text"@));
    lemma_next_member(typed, "text"@, Tree::Text(message));
    lemma_next_member(typed, "text"@, Tree::Text(compact(canonical(result))));
    let worked = crate::json::with_element(
        crate::json::no_elements(),
        with_member(typed, "text"@, Tree::Text(compact(canonical(result)))),
    );
    let failed = crate::json::with_element(
        crate::json::no_elements(),
        with_member(typed, "text"@, Tree::Text(message)),
    );
    lemma_first_member("content"@, worked);
    lemma_first_member("content"@, failed);
    let one = with_member(no_members(), "content"@, worked);
    lemma_next_member(one, "structuredContent"@, result);
    lemma_next_member(
        with_member(one, "structuredContent"@, result),
        "isError"@,
        Tree::Bool(false),
    );
    lemma_next_member(
        with_member(no_members(), "content"@, failed),
        "isError"@,
        Tree::Bool(true),
    );
}

/// The answer as it is sent tells its identifier and its result or error.
pub proof fn answers_are_sent(r: JsonRpcResponse)
    ensures
        get_tree(response_tree(r), "jsonrpc"@) == Some(Tree::Text(r.jsonrpc@)),
        get_tree(response_tree(r), "id"@) == Some(canonical(r.id@)),
        get_tree(response_tree(r), "result"@) == (match r.result {
            Some(j) => Some(canonical(j@)),
            None => None,
        }),
        r.error is None ==> get_tree(response_tree(r), "error"@) is None,
        r.error matches Some(e) ==> under(response_tree(r), "error"@, "code"@) == Some(
            Tree::Number(integer(e.code as int)),
        ) && under(response_tree(r), "error"@, "message"@) == Some(Tree::Text(e.message@)),
{
    reveal_strlit("jsonrpc");
    reveal_strlit("id");
    reveal_strlit("result");
    reveal_strlit("error");
    assert("jsonrpc"@.len() != "id"@.len());
    assert("jsonrpc"@.len() != "result"@.len());
    assert("jsonrpc"@.len() != "error"@.len());
    assert("id"@.len() != "result"@.len());
    assert("id"@.len() != "error"@.len());
    assert("result"@.len() != "error"@.len());
    reveal_strlit("code");
    reveal_strlit("message");
    assert("code"@.len() != "message"@.len());
    let one = with_member(no_members(), "jsonrpc"@, Tree::Text(r.jsonrpc@));
    lemma_first_member("jsonrpc"@, Tree::Text(r.jsonrpc@));
    lemma_next_member(one, "id"@, canonical(r.id@));
    let head = with_member(one, "id"@, canonical(r.id@));
    let body = match r.result {
        Some(j) => with_member(head, "result"@, canonical(j@)),
        None => head,
    };
    if r.result is Some {
        lemma_next_member(head, "result"@, canonical(r.result->0@));
    }
    if r.error is Some {
        let e = r.error->0;
        let coded = with_member(no_members(), "code"@, Tree::Number(integer(e.code as int)));
        lemma_first_member("code"@, Tree::Number(integer(e.code as int)));
        lemma_next_member(coded, "message"@, Tree::Text(e.message@));
        lemma_next_member(
            body,
            "error"@,
            with_member(coded, "message"@, Tree::Text(e.message@)),
        );
    }
}

/// What a tool asks the bridge for is for the session that the tools are offered to, and
/// holds what the agent gave.
pub proof fn tools_pass_their_arguments_on(
    session: Option<Seq<char>>,
    name: Seq<char>,
    t: Tree,
    request: BridgeRequest,
    seconds: u64,
)
    requires
        call_outcome(session, name, t, Ok((request, seconds))),
        t is Object,
    ensures
        match request {
            BridgeRequest::SendProgress { session_id, session_label, content } => {
                &&& name == "qq_send_progress"@
                &&& opt_view(session_id) == session
                &&& get_tree(t, "content"@) == Some(Tree::Text(content@))
                &&& session_label matches Some(l) ==> get_tree(t, "session_label"@) == Some(
                    Tree::Text(l@),
                )
                &&& seconds == 30
            },
            BridgeRequest::SendFinal { session_id, session_label, content, idempotency_key } => {
                &&& name == "qq_send_final"@
                &&& opt_view(session_id) == session
                &&& get_tree(t, "content"@) == Some(Tree::Text(content@))
                &&& get_tree(t, "idempotency_key"@) == Some(Tree::Text(idempotency_key@))
                &&& session_label matches Some(l) ==> get_tree(t, "session_label"@) == Some(
                    Tree::Text(l@),
                )
                &&& seconds == 30
            },
            BridgeRequest::AskUser {
                session_id,
                session_label,
                question,
                choices,
                allow_freeform,
                timeout_seconds,
            } => {
                &&& name == "qq_ask_user"@
                &&& opt_view(session_id) == session
                &&& get_tree(t, "question"@) == Some(Tree::Text(question@))
                &&& get_tree(t, "allow_freeform"@) == Some(Tree::Bool(allow_freeform))
                &&& number_tree(get_tree(t, "timeout_seconds"@)) == Some(timeout_seconds as nat)
                &&& get_tree(t, "choices"@) matches Some(Tree::Array(ts)) && ts.len()
                    == choices@.len() && forall|i: int|
                    0 <= i < ts.len() ==> #[trigger] ts[i] == Tree::Text(views(choices@)[i])
                &&& session_label matches Some(l) ==> get_tree(t, "session_label"@) == Some(
                    Tree::Text(l@),
                )
                &&& seconds == timeout_seconds + 15
            },
            BridgeRequest::WaitForMessage { session_id, session_label, timeout_seconds } => {
                &&& name == "qq_wait_for_message"@
                &&& opt_view(session_id) == session
                &&& number_tree(get_tree(t, "timeout_seconds"@)) == Some(timeout_seconds as nat)
                &&& session_label matches Some(l) ==> get_tree(t, "session_label"@) == Some(
                    Tree::Text(l@),
                )
                &&& seconds == timeout_seconds + 15
            },
            _ => false,
        },
{
    reveal_strlit("qq_send_progress");
    reveal_strlit("qq_send_final");
    reveal_strlit("qq_ask_user");
    reveal_strlit("qq_wait_for_message");
    assert("qq_send_progress"@.len() != "qq_send_final"@.len());
    assert("qq_send_progress"@.len() != "qq_ask_user"@.len());
    assert("qq_send_progress"@.len() != "qq_wait_for_message"@.len());
    assert("qq_send_final"@.len() != "qq_ask_user"@.len());
    assert("qq_send_final"@.len() != "qq_wait_for_message"@.len());
    assert("qq_ask_user"@.len() != "qq_wait_for_message"@.len());
    if name == "qq_ask_user"@ {
        let a = choose|a: crate::mcp::AskUserArgs| #[trigger]
            is_question(t, a) && seconds == a.timeout_seconds + 15 && crate::mcp::asks_user(
                request,
                session,
                a,
            );
        let ts = (get_tree(t, "choices"@)->0)->Array_0;
        let texts = views(a.choices@);
        assert forall|i: int| 0 <= i < ts.len() implies #[trigger] ts[i] == Tree::Text(
            texts[i],
        ) by {
            assert(ts[i] is Text);
        }
        assert(texts.len() == ts.len());
    }
}

// ---------------------------------------------------------------------------
// Messages to the owner

/// The data that a button hands over when it is pressed.
pub open spec fn data_of_button(t: Tree) -> Option<Tree> {
    under(t, "action"@, "data"@)
}

proof fn lemma_button(
    id: Seq<char>,
    label: Seq<char>,
    visited: Seq<char>,
    style: nat,
    data: Seq<char>,
    hint: Seq<char>,
)
    ensures
        get_tree(button(id, label, visited, style, data, hint), "id"@) == Some(Tree::Text(id)),
        data_of_button(button(id, label, visited, style, data, hint)) == Some(Tree::Text(data)),
        under(button(id, label, visited, style, data, hint), "render_data"@, "label"@) == Some(
            Tree::Text(label),
        ),
{
    reveal_strlit("id");
    reveal_strlit("render_data");
    reveal_strlit("action");
    assert("id"@.len() != "render_data"@.len());
    assert("id"@.len() != "action"@.len());
    assert("render_data"@.len() != "action"@.len());
    reveal_strlit("label");
    reveal_strlit("visited_label");
    reveal_strlit("style");
    assert("label"@.len() != "visited_label"@.len());
    assert("label"@[0] != "style"@[0]);
    assert("visited_label"@.len() != "style"@.len());
    reveal_strlit("type");
    reveal_strlit("permission");
    reveal_strlit("data");
    reveal_strlit("unsupport_tips");
    assert("type"@.len() != "permission"@.len());
    assert("type"@[0] != "data"@[0]);
    assert("type"@.len() != "unsupport_tips"@.len());
    assert("permission"@.len() != "data"@.len());
    assert("permission"@.len() != "unsupport_tips"@.len());
    assert("data"@.len() != "unsupport_tips"@.len());
    let a = with_member(no_members(), "type"@, number_of(1));
    let p = with_member(no_members(), "type"@, number_of(2));
    let b = with_member(a, "permission"@, p);
    let c = with_member(b, "data"@, Tree::Text(data));
    let action = with_member(c, "unsupport_tips"@, Tree::Text(hint));
    lemma_first_member("type"@, number_of(1));
    lemma_next_member(a, "permission"@, p);
    lemma_next_member(b, "data"@, Tree::Text(data));
    lemma_next_member(c, "unsupport_tips"@, Tree::Text(hint));
    let x = with_member(no_members(), "label"@, Tree::Text(label));
    let y = with_member(x, "visited_label"@, Tree::Text(visited));
    let shown = with_member(y, "style"@, number_of(style));
    lemma_first_member("label"@, Tree::Text(label));
    lemma_next_member(x, "visited_label"@, Tree::Text(visited));
    lemma_next_member(y, "style"@, number_of(style));
    let one = with_member(no_members(), "id"@, Tree::Text(id));
    let two = with_member(one, "render_data"@, shown);
    lemma_first_member("id"@, Tree::Text(id));
    lemma_next_member(one, "render_data"@, shown);
    lemma_next_member(two, "action"@, action);
}

proof fn lemma_keyboard(markdown: Seq<char>, rows: Tree)
    ensures
        ({
            let t = crate::qq::keyboard_message(markdown, rows);
            &&& under(t, "markdown"@, "content"@) == Some(Tree::Text(markdown))
            &&& get_tree(t, "msg_type"@) == Some(number_of(2))
            &&& get_tree(t, "keyboard"@) is Some
            &&& under(get_tree(t, "keyboard"@)->0, "content"@, "rows"@) == Some(rows)
        }),
{
    reveal_strlit("msg_type");
    reveal_strlit("markdown");
    reveal_strlit("keyboard");
    assert("msg_type"@[1] != "markdown"@[1]);
    assert("msg_type"@[0] != "keyboard"@[0]);
    assert("markdown"@[0] != "keyboard"@[0]);
    let text = with_member(no_members(), "content"@, Tree::Text(markdown));
    let inner = with_member(no_members(), "rows"@, rows);
    let board = with_member(no_members(), "content"@, inner);
    lemma_first_member("content"@, Tree::Text(markdown));
    lemma_first_member("rows"@, rows);
    lemma_first_member("content"@, inner);
    let one = with_member(no_members(), "msg_type"@, number_of(2));
    let two = with_member(one, "markdown"@, text);
    lemma_first_member("msg_type"@, number_of(2));
    lemma_next_member(one, "markdown"@, text);
    lemma_next_member(two, "keyboard"@, board);
}

/// The rows of buttons of a message.
pub open spec fn rows_of(t: Tree) -> Option<Tree> {
    match get_tree(t, "keyboard"@) {
        Some(board) => under(board, "content"@, "rows"@),
        None => None,
    }
}

/// The message that asks for an approval has two buttons in one row: one that approves
/// and hands over the data for that, and one that denies and hands over the data for
/// that.
pub proof fn approvals_are_shown_with_their_buttons(b: ApprovalButtons)
    ensures
        ({
            let t = approval_message(b);
            &&& under(t, "markdown"@, "content"@) == Some(Tree::Text(b.markdown@))
            &&& rows_of(t) matches Some(Tree::Array(rows)) && rows.len() == 1 && (get_tree(
                rows[0],
                "buttons"@,
            ) matches Some(Tree::Array(bs)) && bs.len() == 2 && {
                &&& get_tree(bs[0], "id"@) == Some(Tree::Text("approve"@))
                &&& data_of_button(bs[0]) == Some(Tree::Text(b.allow_button_data@))
                &&& get_tree(bs[1], "id"@) == Some(Tree::Text("deny"@))
                &&& data_of_button(bs[1]) == Some(Tree::Text(b.deny_button_data@))
            })
        }),
{
    lemma_button("approve"@, "批准一次"@, "已批准"@, 1, b.allow_button_data@, "请使用 /allow 审批码"@);
    lemma_button("deny"@, "拒绝"@, "已拒绝"@, 0, b.deny_button_data@, "请使用 /deny 审批码"@);
    let yes = button("approve"@, "批准一次"@, "已批准"@, 1, b.allow_button_data@, "请使用 /allow 审批码"@);
    let no = button("deny"@, "拒绝"@, "已拒绝"@, 0, b.deny_button_data@, "请使用 /deny 审批码"@);
    let bs = crate::json::with_element(
        crate::json::with_element(crate::json::no_elements(), yes),
        no,
    );
    lemma_first_member("buttons"@, bs);
    let row = crate::qq::button_row(bs);
    lemma_keyboard(b.markdown@, crate::json::with_element(crate::json::no_elements(), row));
}

/// The message that asks for a choice has a button for each choice, five to a row, which
/// hands over the data of that choice and shows how its label begins.
pub proof fn choices_are_shown_with_their_buttons(b: ChoiceButtons, i: int)
    requires
        0 <= i < b.choices@.len(),
    ensures
        ({
            let t = choice_message(b);
            &&& under(t, "markdown"@, "content"@) == Some(Tree::Text(b.markdown@))
            &&& rows_of(t) matches Some(Tree::Array(rows)) && i / 5 < rows.len() && (get_tree(
                rows[i / 5],
                "buttons"@,
            ) matches Some(Tree::Array(bs)) && i % 5 < bs.len() && bs.len() <= 5 && {
                let label = b.choices@[i].label@;
                &&& data_of_button(bs[i % 5]) == Some(Tree::Text(b.choices@[i].button_data@))
                &&& label.len() <= 10 ==> under(bs[i % 5], "render_data"@, "label"@) == Some(
                    Tree::Text(label),
                )
                &&& label.len() > 10 ==> under(bs[i % 5], "render_data"@, "label"@) == Some(
                    Tree::Text(label.take(10)),
                )
            })
        }),
{
    let n = b.choices@.len();
    let r = i / 5;
    let c = i % 5;
    assert(i == 5 * r + c);
    lemma_keyboard(
        b.markdown@,
        Tree::Array(Seq::new(row_count(n), |r: int| crate::qq::choice_row(b, r))),
    );
    let rows = Seq::new(row_count(n), |r: int| crate::qq::choice_row(b, r));
    assert(r < row_count(n));
    assert(rows[r] == crate::qq::choice_row(b, r));
    let bs = Seq::new(
        crate::qq::row_width(n, r),
        |c: int| crate::qq::choice_button(b, r * crate::qq::ROW_BUTTONS + c),
    );
    lemma_first_member("buttons"@, Tree::Array(bs));
    assert(c < crate::qq::row_width(n, r));
    assert(bs[c] == crate::qq::choice_button(b, i));
    lemma_button(
        b.button_id_prefix@ + "_"@ + crate::text::decimal(i as nat),
        short_label(b.choices@[i].label@),
        "已选择"@,
        1,
        b.choices@[i].button_data@,
        "请直接回复选项文本"@,
    );
}

/// No more buttons are shown than there are choices, and a message has one to twenty-five
/// of them.
pub proof fn choices_are_few(b: ChoiceButtons)
    ensures
        choice_fault(b) is None <==> 1 <= b.choices@.len() <= 25 && (b.button_id_prefix@
            == "choice"@ || b.button_id_prefix@ == "session"@),
        b.choices@.len() <= 25 ==> row_count(b.choices@.len()) <= 5,
        b.choices@.len() > 0 ==> 5 * (row_count(b.choices@.len()) - 1) < b.choices@.len(),
{
}

/// A message of text holds the text, and names the message that it answers.
pub proof fn texts_are_sent(content: Seq<char>, reply_to: Option<Seq<char>>, sequence: u32)
    ensures
        ({
            let t = in_reply(text_message(content), reply_to, sequence);
            &&& get_tree(t, "content"@) == Some(Tree::Text(content))
            &&& get_tree(t, "msg_type"@) == Some(number_of(0))
            &&& get_tree(t, "msg_id"@) == (match reply_to {
                Some(id) => Some(Tree::Text(id)),
                None => None,
            })
            &&& reply_to is Some ==> get_tree(t, "msg_seq"@) == Some(number_of(sequence as nat))
            &&& reply_to is None ==> get_tree(t, "msg_seq"@) is None
        }),
{
    reveal_strlit("content");
    reveal_strlit("msg_type");
    reveal_strlit("msg_id");
    reveal_strlit("msg_seq");
    assert("content"@.len() != "msg_type"@.len());
    assert("content"@.len() != "msg_id"@.len());
    assert("content"@[0] != "msg_seq"@[0]);
    assert("msg_type"@.len() != "msg_id"@.len());
    assert("msg_type"@.len() != "msg_seq"@.len());
    assert("msg_id"@.len() != "msg_seq"@.len());
    let one = with_member(no_members(), "content"@, Tree::Text(content));
    lemma_first_member("content"@, Tree::Text(content));
    lemma_next_member(one, "msg_type"@, number_of(0));
    let two = text_message(content);
    if reply_to is Some {
        let id = reply_to->0;
        lemma_next_member(two, "msg_id"@, Tree::Text(id));
        lemma_next_member(
            with_member(two, "msg_id"@, Tree::Text(id)),
            "msg_seq"@,
            number_of(sequence as nat),
        );
    }
}

// ---------------------------------------------------------------------------
// The gateway

/// A session of the gateway is resumed where it was left, and begun where there is none;
/// a heartbeat tells how far it has come.
pub proof fn the_gateway_is_told_where_to_go_on(
    token: Seq<char>,
    session: Seq<char>,
    sequence: u64,
    intents: nat,
)
    ensures
        get_tree(resume_tree(token, session, sequence as nat), "op"@) == Some(number_of(6)),
        under(resume_tree(token, session, sequence as nat), "d"@, "token"@) == Some(
            Tree::Text("QQBot "@ + token),
        ),
        under(resume_tree(token, session, sequence as nat), "d"@, "session_id"@) == Some(
            Tree::Text(session),
        ),
        under(resume_tree(token, session, sequence as nat), "d"@, "seq"@) == Some(
            number_of(sequence as nat),
        ),
        get_tree(identify_tree(token, intents), "op"@) == Some(number_of(2)),
        under(identify_tree(token, intents), "d"@, "token"@) == Some(Tree::Text("QQBot "@ + token)),
        under(identify_tree(token, intents), "d"@, "intents"@) == Some(number_of(intents)),
        get_tree(heartbeat_tree(Some(sequence)), "op"@) == Some(number_of(1)),
        get_tree(heartbeat_tree(Some(sequence)), "d"@) == Some(number_of(sequence as nat)),
        get_tree(heartbeat_tree(None), "d"@) == Some(Tree::Null),
{
    reveal_strlit("op");
    reveal_strlit("d");
    assert("op"@.len() != "d"@.len());
    reveal_strlit("token");
    reveal_strlit("session_id");
    reveal_strlit("seq");
    assert("token"@.len() != "session_id"@.len());
    assert("token"@.len() != "seq"@.len());
    assert("session_id"@.len() != "seq"@.len());
    reveal_strlit("token");
    reveal_strlit("intents");
    reveal_strlit("shard");
    reveal_strlit("properties");
    assert("token"@.len() != "intents"@.len());
    assert("token"@[0] != "shard"@[0]);
    assert("token"@.len() != "properties"@.len());
    assert("intents"@.len() != "shard"@.len());
    assert("intents"@.len() != "properties"@.len());
    assert("shard"@.len() != "properties"@.len());
    let shown = Tree::Text("QQBot "@ + token);
    let one = with_member(no_members(), "token"@, shown);
    lemma_first_member("token"@, shown);
    let two = with_member(one, "session_id"@, Tree::Text(session));
    lemma_next_member(one, "session_id"@, Tree::Text(session));
    let three = with_member(two, "seq"@, number_of(sequence as nat));
    lemma_next_member(two, "seq"@, number_of(sequence as nat));
    lemma_first_member("op"@, number_of(6));
    lemma_next_member(with_member(no_members(), "op"@, number_of(6)), "d"@, three);
    let meant = with_member(one, "intents"@, number_of(intents));
    lemma_next_member(one, "intents"@, number_of(intents));
    let shard = crate::json::with_element(
        crate::json::with_element(crate::json::no_elements(), number_of(0)),
        number_of(1),
    );
    let parted = with_member(meant, "shard"@, shard);
    lemma_next_member(meant, "shard"@, shard);
    let props = with_member(
        with_member(
            with_member(no_members(), "$os"@, Tree::Text("windows"@)),
            "$browser"@,
            Tree::Text("qq-copilot-remote"@),
        ),
        "$device"@,
        Tree::Text("qq-copilot-remote"@),
    );
    let d = with_member(parted, "properties"@, props);
    lemma_next_member(parted, "properties"@, props);
    lemma_first_member("op"@, number_of(2));
    lemma_next_member(with_member(no_members(), "op"@, number_of(2)), "d"@, d);
    lemma_first_member("op"@, number_of(1));
    lemma_next_member(
        with_member(no_members(), "op"@, number_of(1)),
        "d"@,
        number_of(sequence as nat),
    );
    lemma_next_member(with_member(no_members(), "op"@, number_of(1)), "d"@, Tree::Null);
}

/// A connection goes on counting: what the gateway sends last is what the next heartbeat
/// tells, and what bears no number changes nothing of it.
pub proof fn connections_count_on(
    a: Database,
    b: Database,
    link: GatewayLink,
    p: GatewayPayload,
    after: GatewayLink,
    now: i64,
    event: GatewayEvent,
)
    requires
        heard_outcome(a, b, link, p, after, now, Ok(event)),
    ensures
        p.s is Some ==> after.sequence == p.s,
        p.s is None ==> after.sequence == link.sequence,
        p.op == 11 ==> after.acknowledged,
        p.op != 11 ==> after.acknowledged == link.acknowledged,
        p.op != 7,
        p.op != 9,
        p.op != 0 ==> after.session_id == link.session_id,
        p.op != 0 ==> event is Quiet,
{
    let m = choose|m: Database| #[trigger]
        crate::qq::sequence_kept(a, m, opt_view(link.session_id), p.s, now) && payload_outcome(
            m,
            b,
            link,
            p,
            after,
            now,
            Ok(event),
        );
}

/// A connection begins with a greeting that says how often it is to be kept alive.
pub proof fn connections_begin_with_a_greeting(hello: GatewayPayload)
    ensures
        hello_heard(hello) is Ok ==> hello.op == 10 && hello_heard(hello)->Ok_0 >= 1000,
        hello.op != 10 ==> hello_heard(hello) is Err,
        (hello.d matches Some(j) && number_tree(get_tree(j@, "heartbeat_interval"@)) matches Some(n)
            && n >= 1000 && hello.op == 10) ==> hello_heard(hello) == Ok::<nat, Seq<char>>(
            number_tree(get_tree(hello.d->0@, "heartbeat_interval"@))->0,
        ),
{
}

/// A message is heard as it was written, by whom and under which identifier.
pub proof fn messages_are_heard(t: Tree, m: C2cMessage)
    requires
        is_message(t, m),
        t is Object,
        get_tree(t, "author"@) matches Some(author) && author is Object,
    ensures
        get_tree(t, "id"@) == Some(Tree::Text(m.id@)),
        get_tree(t, "content"@) == Some(Tree::Text(m.content@)),
        under(t, "author"@, "user_openid"@) == Some(Tree::Text(m.user_openid@)),
{
}

/// The press of a button is heard as it was made: which button, by whom and where.
pub proof fn presses_are_heard(t: Tree, x: C2cInteraction)
    requires
        is_interaction(t, x),
        t is Object,
        get_tree(t, "data"@) matches Some(d) && d is Object && (get_tree(
            d,
            "resolved"@,
        ) matches Some(r) && r is Object),
    ensures
        get_tree(t, "id"@) == Some(Tree::Text(x.id@)),
        get_tree(t, "application_id"@) == Some(Tree::Text(x.application_id@)),
        get_tree(t, "scene"@) == Some(Tree::Text(x.scene@)),
        get_tree(t, "user_openid"@) == Some(Tree::Text(x.user_openid@)),
        number_tree(get_tree(t, "chat_type"@)) == Some(x.chat_type as nat),
        number_tree(get_tree(t, "type"@)) == Some(x.interaction_type as nat),
        number_tree(under(t, "data"@, "type"@)) == Some(x.data_type as nat),
        under(get_tree(t, "data"@)->0, "resolved"@, "button_data"@) == Some(
            Tree::Text(x.button_data@),
        ),
        under(get_tree(t, "data"@)->0, "resolved"@, "button_id"@) == Some(Tree::Text(x.button_id@)),
{
}

/// An access token is used for less time than it is good for, by as much as it is to be
/// renewed early.
pub proof fn tokens_are_renewed_early(body: Tree, skew: u64, token: Seq<char>, n: nat)
    requires
        get_tree(body, "access_token"@) == Some(Tree::Text(token)),
        number_tree(get_tree(body, "expires_in"@)) == Some(n),
    ensures
        token.len() > 0 && n > skew ==> token_given(body, skew) == Ok::<(Seq<char>, int), Seq<char>>(
            (token, n - skew),
        ),
        token.len() == 0 || n <= skew ==> token_given(body, skew) is Err,
{
}

// ---------------------------------------------------------------------------
// Limits, and a messenger that sends nothing

/// A request is refused by its length where it is empty or too long, and only there.
pub proof fn requests_have_a_length(len: usize, r: Option<crate::protocol::RpcResponse>)
    requires
        crate::ipc::length_refused(len, r),
    ensures
        r is None <==> 0 < len <= crate::protocol::MAX_IPC_MESSAGE_BYTES,
        r matches Some(x) ==> x.result is None && x.request_id == 0,
        len == 0 ==> r->0.error->0.code@ == "empty_request"@,
        len > crate::protocol::MAX_IPC_MESSAGE_BYTES ==> r->0.error->0.code@ == "request_too_large"@,
{
}

/// A line is refused by its length where it is too long, and only there.
pub proof fn lines_have_a_length(len: usize, r: Option<JsonRpcResponse>)
    requires
        crate::mcp::line_refused(len, r),
    ensures
        r is None <==> len <= crate::protocol::MAX_IPC_MESSAGE_BYTES,
        r matches Some(x) ==> x.id@ is Null && x.result is None && x.error is Some,
{
}

/// What an agent wants sent is sent without the white space around it and without
/// credentials, where there is something to send and no more than may be sent.
pub proof fn content_is_sent_within_limits(
    content: Seq<char>,
    max_chars: usize,
    r: Result<String, String>,
)
    requires
        crate::security::content_outcome(content, max_chars, r),
    ensures
        r is Ok <==> 0 < trim(content).len() <= max_chars,
        r matches Ok(text) ==> text@ == crate::security::regex_replaced(
            crate::security::SECRET_VALUE@,
            trim(content),
            crate::security::REDACTED@,
        ),
{
}

/// A messenger that sends nothing keeps each text as it was to be sent, behind what it
/// kept before, unless it is to fail.
pub proof fn kept_texts_are_found(
    a: MockQqMessenger,
    b: MockQqMessenger,
    user: Seq<char>,
    content: Seq<char>,
    reply: Option<Seq<char>>,
    sequence: u32,
    r: Result<SendReceipt, Failure>,
)
    requires
        crate::qq::text_kept(a, b, user, content, reply, sequence, r),
    ensures
        r is Err <==> a.fail_sends,
        r is Err ==> b == a,
        r is Ok ==> b.messages@.len() == a.messages@.len() + 1 && b.messages@.drop_last()
            == a.messages@,
        r is Ok ==> ({
            let m = b.messages@.last();
            &&& m.kind@ == "text"@
            &&& m.user_openid@ == user
            &&& m.content@ == content
            &&& opt_view(m.reply_to_message_id) == reply
            &&& m.message_sequence == sequence
        }),
{
    if r is Ok {
        assert(b.messages@.drop_last() =~= a.messages@);
    }
}

/// Buttons and signs of writing are kept in the same way.
pub proof fn kept_buttons_are_found(
    a: MockQqMessenger,
    b: MockQqMessenger,
    c: MockQqMessenger,
    d: MockQqMessenger,
    user: Seq<char>,
    markdown: Seq<char>,
    reply: Option<Seq<char>>,
    sequence: u32,
    seconds: u8,
    r: Result<SendReceipt, Failure>,
    s: Result<SendReceipt, Failure>,
    t: Result<(), Failure>,
)
    requires
        crate::qq::approval_kept(a, b, user, markdown, r),
        crate::qq::choice_kept(b, c, user, markdown, reply, sequence, s),
        crate::qq::typing_kept(c, d, user, seconds, t),
    ensures
        r is Err <==> a.fail_sends,
        s is Err <==> a.fail_sends,
        t is Err <==> a.fail_sends,
        a.fail_sends ==> d == a,
        !a.fail_sends ==> ({
            let n = a.messages@.len() as int;
            let m = d.messages@;
            &&& m.len() == n + 3
            &&& m.take(n) == a.messages@
            &&& m[n].kind@ == "approval_buttons"@
            &&& m[n].user_openid@ == user
            &&& m[n].content@ == markdown
            &&& m[n + 1].kind@ == "choice_buttons"@
            &&& m[n + 1].user_openid@ == user
            &&& m[n + 1].content@ == markdown
            &&& opt_view(m[n + 1].reply_to_message_id) == reply
            &&& m[n + 1].message_sequence == sequence
            &&& m[n + 2].kind@ == "typing"@
            &&& m[n + 2].user_openid@ == user
            &&& m[n + 2].content@ == crate::text::decimal(seconds as nat)
        }),
{
    if !a.fail_sends {
        assert(d.messages@.take(a.messages@.len() as int) =~= a.messages@);
    }
}

/// A server answers a ping with nothing, lists its tools once it was greeted, and knows
/// no methods but those and calls of its tools.
pub proof fn methods_are_answered(
    a: McpServer,
    id: Tree,
    method: Seq<char>,
    params: Tree,
    step: McpStep,
)
    requires
        crate::mcp::offered(a, id, method, params, step),
    ensures
        method == "ping"@ ==> (step matches McpStep::Reply(r) && r.id@ == id && r.error is None
            && r.result is Some && r.result->0@ == Tree::Object(Seq::empty())),
        method == "tools/list"@ && a.initialized ==> (step matches McpStep::Reply(r) && r.id@ == id
            && r.error is None && r.result is Some && get_tree(r.result->0@, "tools"@) is Some),
        method != "ping"@ && !a.initialized ==> (step matches McpStep::Reply(r) && r.id@ == id
            && r.result is None && r.error is Some),
        method != "ping"@ && method != "tools/list"@ && method != "tools/call"@ ==> (
        step matches McpStep::Reply(r) && r.id@ == id && r.result is None && r.error is Some
            && r.error->0.code == -32601),
{
    reveal_with_fuel(member, 2);
    reveal_strlit("ping");
    reveal_strlit("tools/list");
    assert("ping"@.len() != "tools/list"@.len());
}

} // verus!
