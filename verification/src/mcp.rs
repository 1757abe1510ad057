//! The tools that the agent can call, and the lines by which it calls them.
use vstd::prelude::*;
use vstd::string::*;

use crate::config::{failure, Failure};
use crate::json::{
    bool_tree, canonical, canonical_json, canonicalize, compact, compact_text, field, is_record,
    is_strict_record, lemma_trees_are, no_elements, no_members, number_of, number_tree, owed_text,
    owed_texts, read_bool, read_number, read_spare_text, read_text, read_texts, spare_text, tree,
    with_element, with_member, Json, Tree,
};
use crate::protocol::{BridgeRequest, MAX_IPC_MESSAGE_BYTES};
use crate::text::{
    cat, integer, integer_text, is_blank, opt_str_view, opt_view, owned, str_eq, trim, views,
};

verus! {

broadcast use vstd::string::group_string_axioms;

/// The version of the protocol that is spoken where the client asks for another
/// than those that are known.
pub const DEFAULT_PROTOCOL_VERSION: &'static str = "2025-06-18";

/// The versions of the protocol that are known.
pub open spec fn is_supported(version: Seq<char>) -> bool {
    version == "2025-11-25"@ || version == "2025-06-18"@ || version == "2025-03-26"@ || version
        == "2024-11-05"@
}

/// The version of the protocol that is spoken.
pub open spec fn spoken_version(requested: Seq<char>) -> Seq<char> {
    if is_supported(requested) {
        requested
    } else {
        DEFAULT_PROTOCOL_VERSION@
    }
}

/// The version of the protocol that is spoken: the one that was asked for where
/// it is known.
pub fn select_protocol_version(requested: &str) -> (r: &'static str)
    ensures
        r@ == spoken_version(requested@),
{
    if str_eq(requested, "2025-11-25") {
        "2025-11-25"
    } else if str_eq(requested, "2025-06-18") {
        "2025-06-18"
    } else if str_eq(requested, "2025-03-26") {
        "2025-03-26"
    } else if str_eq(requested, "2024-11-05") {
        "2024-11-05"
    } else {
        DEFAULT_PROTOCOL_VERSION
    }
}

// ---------------------------------------------------------------------------
// Requests and answers

/// A request of the agent.
#[derive(Debug)]
pub struct JsonRpcRequest {
    pub jsonrpc: String,
    pub id: Option<Json>,
    pub method: String,
    pub params: Option<Json>,
}

/// Why a request was not met.
#[derive(Debug)]
pub struct JsonRpcError {
    pub code: i64,
    pub message: String,
}

/// The answer to a request.
#[derive(Debug)]
pub struct JsonRpcResponse {
    pub jsonrpc: &'static str,
    pub id: Json,
    pub result: Option<Json>,
    pub error: Option<JsonRpcError>,
}

/// Whether the answer is this result.
pub open spec fn succeeds(r: JsonRpcResponse, id: Tree, result: Tree) -> bool {
    &&& r.jsonrpc@ == "2.0"@
    &&& r.id@ == id
    &&& r.result matches Some(j) && j@ == result
    &&& r.error is None
}

/// Whether the answer is this refusal.
pub open spec fn fails(r: JsonRpcResponse, id: Tree, code: int, message: Seq<char>) -> bool {
    &&& r.jsonrpc@ == "2.0"@
    &&& r.id@ == id
    &&& r.result is None
    &&& r.error matches Some(e) && e.code == code && e.message@ == message
}

/// The answer with that result.
pub fn success_response(id: Json, result: Json) -> (r: JsonRpcResponse)
    ensures
        succeeds(r, id@, result@),
{
    JsonRpcResponse { jsonrpc: "2.0", id, result: Some(result), error: None }
}

/// The answer that refuses.
pub fn error_response(id: Json, code: i64, message: &str) -> (r: JsonRpcResponse)
    ensures
        fails(r, id@, code as int, message@),
{
    JsonRpcResponse {
        jsonrpc: "2.0",
        id,
        result: None,
        error: Some(JsonRpcError { code, message: message.to_owned() }),
    }
}

/// The answer as one value.
pub open spec fn response_tree(r: JsonRpcResponse) -> Tree {
    let head = with_member(
        with_member(no_members(), "jsonrpc"@, Tree::Text(r.jsonrpc@)),
        "id"@,
        canonical(r.id@),
    );
    let body = match r.result {
        Some(j) => with_member(head, "result"@, canonical(j@)),
        None => head,
    };
    match r.error {
        Some(e) => with_member(
            body,
            "error"@,
            with_member(
                with_member(no_members(), "code"@, Tree::Number(integer(e.code as int))),
                "message"@,
                Tree::Text(e.message@),
            ),
        ),
        None => body,
    }
}

/// The line that carries the answer.
pub fn response_line(r: &JsonRpcResponse) -> (s: String)
    ensures
        s@ == compact(response_tree(*r)) + "\n"@,
{
    let mut j = Json::object().with("jsonrpc", Json::text(r.jsonrpc)).with(
        "id",
        canonicalize(&r.id),
    );
    if let Some(result) = &r.result {
        j = j.with("result", canonicalize(result));
    }
    if let Some(e) = &r.error {
        let code = Json::Number(integer_text(e.code));
        let inner = Json::object().with("code", code).with(
            "message",
            Json::text(e.message.as_str()),
        );
        j = j.with("error", inner);
    }
    let text = compact_text(&j);
    cat(text.as_str(), "\n")
}

// ---------------------------------------------------------------------------
// Parameters

/// What a client says of itself first.
#[derive(Debug)]
pub struct InitializeParams {
    pub protocol_version: String,
}

/// Which tool is called, and with what.
#[derive(Debug)]
pub struct CallToolParams {
    pub name: String,
    pub arguments: Json,
}

/// The parameters of a request; none are an object without members.
pub open spec fn given_params(params: Option<Json>) -> Tree {
    match params {
        Some(j) => j@,
        None => no_members(),
    }
}

/// The version of the protocol that the parameters ask for.
pub open spec fn asked_version(t: Tree) -> Option<Seq<char>> {
    if is_record(t, 1) {
        owed_text(field(t, 0, "protocolVersion"@))
    } else {
        None
    }
}

/// The tool that the parameters call, and what with.
pub open spec fn called_tool(t: Tree) -> Option<(Seq<char>, Tree)> {
    if is_record(t, 2) {
        match owed_text(field(t, 0, "name"@)) {
            Some(name) => Some(
                (
                    name,
                    match field(t, 1, "arguments"@) {
                        Some(x) => x,
                        None => Tree::Null,
                    },
                ),
            ),
            None => None,
        }
    } else {
        None
    }
}

fn params_or_none(params: Option<Json>) -> (r: Json)
    ensures
        r@ == given_params(params),
{
    match params {
        Some(j) => j,
        None => Json::object(),
    }
}

impl InitializeParams {
    /// Reads what a client says of itself first.
    pub fn read(params: &Json) -> (r: Option<InitializeParams>)
        ensures
            match r {
                Some(p) => asked_version(params@) == Some(p.protocol_version@),
                None => asked_version(params@) is None,
            },
    {
        if !params.is_record(1) {
            return None;
        }
        match read_text(params.field(0, "protocolVersion")) {
            Some(protocol_version) => Some(InitializeParams { protocol_version }),
            None => None,
        }
    }
}

impl CallToolParams {
    /// Reads which tool is called, and with what.
    pub fn read(params: &Json) -> (r: Option<CallToolParams>)
        ensures
            match r {
                Some(p) => called_tool(params@) == Some((p.name@, p.arguments@)),
                None => called_tool(params@) is None,
            },
    {
        if !params.is_record(2) {
            return None;
        }
        match read_text(params.field(0, "name")) {
            None => None,
            Some(name) => {
                let arguments = match params.field(1, "arguments") {
                    Some(j) => j.duplicate(),
                    None => Json::Null,
                };
                Some(CallToolParams { name, arguments })
            },
        }
    }
}

// ---------------------------------------------------------------------------
// Calling a tool

/// The arguments of the tool that sends word of progress.
#[derive(Debug)]
pub struct SendProgressArgs {
    pub session_label: Option<String>,
    pub content: String,
}

/// The arguments of the tool that sends the final answer.
#[derive(Debug)]
pub struct SendFinalArgs {
    pub session_label: Option<String>,
    pub content: String,
    pub idempotency_key: String,
}

/// The arguments of the tool that asks the owner.
#[derive(Debug)]
pub struct AskUserArgs {
    pub session_label: Option<String>,
    pub question: String,
    pub choices: Vec<String>,
    pub allow_freeform: bool,
    pub timeout_seconds: u64,
}

/// The arguments of the tool that waits for a message.
#[derive(Debug)]
pub struct WaitForMessageArgs {
    pub session_label: Option<String>,
    pub timeout_seconds: u64,
}

/// Whether the arguments are these.
pub open spec fn is_progress(t: Tree, a: SendProgressArgs) -> bool {
    &&& is_strict_record(t, seq!["session_label", "content"])
    &&& spare_text(field(t, 0, "session_label"@)) == Some(opt_view(a.session_label))
    &&& owed_text(field(t, 1, "content"@)) == Some(a.content@)
}

/// Whether the arguments are these.
pub open spec fn is_final(t: Tree, a: SendFinalArgs) -> bool {
    &&& is_strict_record(t, seq!["session_label", "content", "idempotency_key"])
    &&& spare_text(field(t, 0, "session_label"@)) == Some(opt_view(a.session_label))
    &&& owed_text(field(t, 1, "content"@)) == Some(a.content@)
    &&& owed_text(field(t, 2, "idempotency_key"@)) == Some(a.idempotency_key@)
}

/// Whether the arguments are these.
pub open spec fn is_question(t: Tree, a: AskUserArgs) -> bool {
    &&& is_strict_record(
        t,
        seq!["session_label", "question", "choices", "allow_freeform", "timeout_seconds"],
    )
    &&& spare_text(field(t, 0, "session_label"@)) == Some(opt_view(a.session_label))
    &&& owed_text(field(t, 1, "question"@)) == Some(a.question@)
    &&& owed_texts(field(t, 2, "choices"@)) == Some(views(a.choices@))
    &&& bool_tree(field(t, 3, "allow_freeform"@)) == Some(a.allow_freeform)
    &&& number_tree(field(t, 4, "timeout_seconds"@)) == Some(a.timeout_seconds as nat)
}

/// Whether the arguments are these.
pub open spec fn is_wait(t: Tree, a: WaitForMessageArgs) -> bool {
    &&& is_strict_record(t, seq!["session_label", "timeout_seconds"])
    &&& spare_text(field(t, 0, "session_label"@)) == Some(opt_view(a.session_label))
    &&& number_tree(field(t, 1, "timeout_seconds"@)) == Some(a.timeout_seconds as nat)
}

impl SendProgressArgs {
    /// Reads the arguments of the tool that sends word of progress.
    pub fn read(arguments: &Json) -> (r: Option<SendProgressArgs>)
        ensures
            match r {
                Some(a) => is_progress(arguments@, a),
                None => forall|a: SendProgressArgs| !#[trigger] is_progress(arguments@, a),
            },
    {
        let names = vec!["session_label", "content"];
        if !arguments.is_strict_record(&names) {
            return None;
        }
        let session_label = match read_spare_text(arguments.field(0, "session_label")) {
            Some(s) => s,
            None => {
                return None;
            },
        };
        let content = match read_text(arguments.field(1, "content")) {
            Some(s) => s,
            None => {
                return None;
            },
        };
        Some(SendProgressArgs { session_label, content })
    }
}

impl SendFinalArgs {
    /// Reads the arguments of the tool that sends the final answer.
    pub fn read(arguments: &Json) -> (r: Option<SendFinalArgs>)
        ensures
            match r {
                Some(a) => is_final(arguments@, a),
                None => forall|a: SendFinalArgs| !#[trigger] is_final(arguments@, a),
            },
    {
        let names = vec!["session_label", "content", "idempotency_key"];
        if !arguments.is_strict_record(&names) {
            return None;
        }
        let session_label = match read_spare_text(arguments.field(0, "session_label")) {
            Some(s) => s,
            None => {
                return None;
            },
        };
        let content = match read_text(arguments.field(1, "content")) {
            Some(s) => s,
            None => {
                return None;
            },
        };
        let idempotency_key = match read_text(arguments.field(2, "idempotency_key")) {
            Some(s) => s,
            None => {
                return None;
            },
        };
        Some(SendFinalArgs { session_label, content, idempotency_key })
    }
}

impl AskUserArgs {
    /// Reads the arguments of the tool that asks the owner.
    pub fn read(arguments: &Json) -> (r: Option<AskUserArgs>)
        ensures
            match r {
                Some(a) => is_question(arguments@, a),
                None => forall|a: AskUserArgs| !#[trigger] is_question(arguments@, a),
            },
    {
        let names = vec![
            "session_label",
            "question",
            "choices",
            "allow_freeform",
            "timeout_seconds",
        ];
        if !arguments.is_strict_record(&names) {
            return None;
        }
        let session_label = match read_spare_text(arguments.field(0, "session_label")) {
            Some(s) => s,
            None => {
                return None;
            },
        };
        let question = match read_text(arguments.field(1, "question")) {
            Some(s) => s,
            None => {
                return None;
            },
        };
        let choices = match read_texts(arguments.field(2, "choices")) {
            Some(v) => v,
            None => {
                return None;
            },
        };
        let allow_freeform = match read_bool(arguments.field(3, "allow_freeform")) {
            Some(b) => b,
            None => {
                return None;
            },
        };
        let timeout_seconds = match read_number(arguments.field(4, "timeout_seconds")) {
            Some(n) => n,
            None => {
                return None;
            },
        };
        Some(AskUserArgs { session_label, question, choices, allow_freeform, timeout_seconds })
    }
}

impl WaitForMessageArgs {
    /// Reads the arguments of the tool that waits for a message.
    pub fn read(arguments: &Json) -> (r: Option<WaitForMessageArgs>)
        ensures
            match r {
                Some(a) => is_wait(arguments@, a),
                None => forall|a: WaitForMessageArgs| !#[trigger] is_wait(arguments@, a),
            },
    {
        let names = vec!["session_label", "timeout_seconds"];
        if !arguments.is_strict_record(&names) {
            return None;
        }
        let session_label = match read_spare_text(arguments.field(0, "session_label")) {
            Some(s) => s,
            None => {
                return None;
            },
        };
        let timeout_seconds = match read_number(arguments.field(1, "timeout_seconds")) {
            Some(n) => n,
            None => {
                return None;
            },
        };
        Some(WaitForMessageArgs { session_label, timeout_seconds })
    }
}

/// What comes of calling a tool: a request to the bridge and the seconds to wait
/// for it, or why there is none.
pub open spec fn call_outcome(
    session: Option<Seq<char>>,
    name: Seq<char>,
    t: Tree,
    r: Result<(BridgeRequest, u64), Failure>,
) -> bool {
    if name == "qq_send_progress"@ {
        match r {
            Ok((request, seconds)) => seconds == 30 && exists|a: SendProgressArgs| #[trigger]
                is_progress(t, a) && sends_progress(request, session, a),
            Err(f) => f.message@ == "invalid qq_send_progress arguments"@ && forall|
                a: SendProgressArgs,
            | !#[trigger] is_progress(t, a),
        }
    } else if name == "qq_send_final"@ {
        match r {
            Ok((request, seconds)) => seconds == 30 && exists|a: SendFinalArgs| #[trigger]
                is_final(t, a) && sends_final(request, session, a),
            Err(f) => f.message@ == "invalid qq_send_final arguments"@ && forall|a: SendFinalArgs|
                !#[trigger] is_final(t, a),
        }
    } else if name == "qq_ask_user"@ {
        match r {
            Ok((request, seconds)) => exists|a: AskUserArgs| #[trigger]
                is_question(t, a) && seconds == a.timeout_seconds + 15 && asks_user(
                    request,
                    session,
                    a,
                ),
            Err(f) => if exists|a: AskUserArgs| #[trigger] is_question(t, a) {
                f.message@ == "question timeout overflow"@ && exists|a: AskUserArgs| #[trigger]
                    is_question(t, a) && a.timeout_seconds + 15 > u64::MAX
            } else {
                f.message@ == "invalid qq_ask_user arguments"@
            },
        }
    } else if name == "qq_wait_for_message"@ {
        match r {
            Ok((request, seconds)) => exists|a: WaitForMessageArgs| #[trigger]
                is_wait(t, a) && seconds == a.timeout_seconds + 15 && waits(request, session, a),
            Err(f) => if exists|a: WaitForMessageArgs| #[trigger] is_wait(t, a) {
                f.message@ == "wait timeout overflow"@ && exists|a: WaitForMessageArgs| #[trigger]
                    is_wait(t, a) && a.timeout_seconds + 15 > u64::MAX
            } else {
                f.message@ == "invalid qq_wait_for_message arguments"@
            },
        }
    } else {
        r matches Err(f) && f.message@ == "unknown QQ MCP tool "@ + name
    }
}

/// Whether a tool cannot be called like this, for that reason.
pub open spec fn is_bad_call(
    session: Option<Seq<char>>,
    name: Seq<char>,
    t: Tree,
    f: Failure,
) -> bool {
    call_outcome(session, name, t, Err(f))
}

/// Whether the request sends this word of progress.
pub open spec fn sends_progress(
    r: BridgeRequest,
    session: Option<Seq<char>>,
    a: SendProgressArgs,
) -> bool {
    r matches BridgeRequest::SendProgress { session_id, session_label, content } && opt_view(
        session_id,
    ) == session && opt_view(session_label) == opt_view(a.session_label) && content@ == a.content@
}

/// Whether the request sends this final answer.
pub open spec fn sends_final(
    r: BridgeRequest,
    session: Option<Seq<char>>,
    a: SendFinalArgs,
) -> bool {
    r matches BridgeRequest::SendFinal { session_id, session_label, content, idempotency_key }
        && opt_view(session_id) == session && opt_view(session_label) == opt_view(a.session_label)
        && content@ == a.content@ && idempotency_key@ == a.idempotency_key@
}

/// Whether the request asks the owner this.
pub open spec fn asks_user(r: BridgeRequest, session: Option<Seq<char>>, a: AskUserArgs) -> bool {
    r matches BridgeRequest::AskUser {
        session_id,
        session_label,
        question,
        choices,
        allow_freeform,
        timeout_seconds,
    } && opt_view(session_id) == session && opt_view(session_label) == opt_view(a.session_label)
        && question@ == a.question@ && views(choices@) == views(a.choices@) && allow_freeform
        == a.allow_freeform && timeout_seconds == a.timeout_seconds
}

/// Whether the request waits for a message like this.
pub open spec fn waits(r: BridgeRequest, session: Option<Seq<char>>, a: WaitForMessageArgs) -> bool {
    r matches BridgeRequest::WaitForMessage { session_id, session_label, timeout_seconds }
        && opt_view(session_id) == session && opt_view(session_label) == opt_view(a.session_label)
        && timeout_seconds == a.timeout_seconds
}

/// What a tool asks the bridge for, and how many seconds it waits for it.
pub fn call_tool(session_id: Option<&str>, params: &CallToolParams) -> (r: Result<
    (BridgeRequest, u64),
    Failure,
>)
    ensures
        call_outcome(opt_str_view(session_id), params.name@, params.arguments@, r),
{
    let name = params.name.as_str();
    let session = owned(session_id);
    if str_eq(name, "qq_send_progress") {
        let a = match SendProgressArgs::read(&params.arguments) {
            None => {
                return Err(failure("invalid qq_send_progress arguments"));
            },
            Some(a) => a,
        };
        let ghost given = a;
        let request = BridgeRequest::SendProgress {
            session_id: session,
            session_label: a.session_label,
            content: a.content,
        };
        assert(is_progress(params.arguments@, given) && sends_progress(
            request,
            opt_str_view(session_id),
            given,
        ));
        return Ok((request, 30));
    }
    if str_eq(name, "qq_send_final") {
        let a = match SendFinalArgs::read(&params.arguments) {
            None => {
                return Err(failure("invalid qq_send_final arguments"));
            },
            Some(a) => a,
        };
        let ghost given = a;
        let request = BridgeRequest::SendFinal {
            session_id: session,
            session_label: a.session_label,
            content: a.content,
            idempotency_key: a.idempotency_key,
        };
        assert(is_final(params.arguments@, given) && sends_final(
            request,
            opt_str_view(session_id),
            given,
        ));
        return Ok((request, 30));
    }
    if str_eq(name, "qq_ask_user") {
        let a = match AskUserArgs::read(&params.arguments) {
            None => {
                return Err(failure("invalid qq_ask_user arguments"));
            },
            Some(a) => a,
        };
        let ghost given = a;
        assert(is_question(params.arguments@, given));
        if a.timeout_seconds > u64::MAX - 15 {
            return Err(failure("question timeout overflow"));
        }
        let seconds: u64 = a.timeout_seconds + 15;
        let request = BridgeRequest::AskUser {
            session_id: session,
            session_label: a.session_label,
            question: a.question,
            choices: a.choices,
            allow_freeform: a.allow_freeform,
            timeout_seconds: a.timeout_seconds,
        };
        assert(asks_user(request, opt_str_view(session_id), given));
        return Ok((request, seconds));
    }
    if str_eq(name, "qq_wait_for_message") {
        let a = match WaitForMessageArgs::read(&params.arguments) {
            None => {
                return Err(failure("invalid qq_wait_for_message arguments"));
            },
            Some(a) => a,
        };
        let ghost given = a;
        assert(is_wait(params.arguments@, given));
        if a.timeout_seconds > u64::MAX - 15 {
            return Err(failure("wait timeout overflow"));
        }
        let seconds: u64 = a.timeout_seconds + 15;
        let request = BridgeRequest::WaitForMessage {
            session_id: session,
            session_label: a.session_label,
            timeout_seconds: a.timeout_seconds,
        };
        assert(waits(request, opt_str_view(session_id), given));
        return Ok((request, seconds));
    }
    let message = cat("unknown QQ MCP tool ", name);
    Err(failure(message.as_str()))
}

// ---------------------------------------------------------------------------
// The tools

/// What a text of a tool's input has to be like.
pub open spec fn text_rule(least: nat, most: nat) -> Tree {
    with_member(
        with_member(
            with_member(no_members(), "type"@, Tree::Text("string"@)),
            "minLength"@,
            number_of(least),
        ),
        "maxLength"@,
        number_of(most),
    )
}

/// What a number of a tool's input has to be like.
pub open spec fn number_rule(least: nat, most: nat) -> Tree {
    with_member(
        with_member(
            with_member(no_members(), "type"@, Tree::Text("integer"@)),
            "minimum"@,
            number_of(least),
        ),
        "maximum"@,
        number_of(most),
    )
}

/// What a tool is told to be.
pub open spec fn tool(
    name: Seq<char>,
    description: Seq<char>,
    properties: Tree,
    required: Tree,
) -> Tree {
    with_member(
        with_member(
            with_member(no_members(), "name"@, Tree::Text(name)),
            "description"@,
            Tree::Text(description),
        ),
        "inputSchema"@,
        with_member(
            with_member(
                with_member(
                    with_member(no_members(), "type"@, Tree::Text("object"@)),
                    "properties"@,
                    properties,
                ),
                "required"@,
                required,
            ),
            "additionalProperties"@,
            Tree::Bool(false),
        ),
    )
}

/// What the input of the tool that sends word of progress holds.
pub open spec fn progress_properties() -> Tree {
    with_member(
        with_member(no_members(), "session_label"@, text_rule(2, 16)),
        "content"@,
        text_rule(1, 6000),
    )
}

/// What the input of the tool that sends the final answer holds.
pub open spec fn final_properties() -> Tree {
    with_member(progress_properties(), "idempotency_key"@, text_rule(1, 256))
}

/// What the input of the tool that asks the owner holds.
pub open spec fn question_properties() -> Tree {
    let label = with_member(
        text_rule(2, 16),
        "description"@,
        Tree::Text("Optional when exactly one Agent session is active"@),
    );
    let choices = with_member(
        with_member(
            with_member(no_members(), "type"@, Tree::Text("array"@)),
            "items"@,
            text_rule(1, 200),
        ),
        "maxItems"@,
        number_of(10),
    );
    with_member(
        with_member(
            with_member(
                with_member(
                    with_member(no_members(), "session_label"@, label),
                    "question"@,
                    text_rule(1, 1000),
                ),
                "choices"@,
                choices,
            ),
            "allow_freeform"@,
            with_member(no_members(), "type"@, Tree::Text("boolean"@)),
        ),
        "timeout_seconds"@,
        number_rule(1, 600),
    )
}

/// What the input of the tool that waits for a message holds.
pub open spec fn wait_properties() -> Tree {
    with_member(
        with_member(no_members(), "session_label"@, text_rule(2, 16)),
        "timeout_seconds"@,
        number_rule(1, 300),
    )
}

/// The tools that the agent can call.
pub open spec fn tool_trees() -> Seq<Tree> {
    seq![
        tool(
            "qq_send_progress"@,
            "Send a short, redacted progress update to the single locally bound QQ Owner. This tool never accepts a recipient."@,
            progress_properties(),
            with_element(no_elements(), Tree::Text("content"@)),
        ),
        tool(
            "qq_send_final"@,
            "Send exactly the same user-visible final answer to the bound QQ Owner once. Never include hidden reasoning, secrets, transcripts, URLs, or absolute paths."@,
            final_properties(),
            with_element(
                with_element(no_elements(), Tree::Text("content"@)),
                Tree::Text("idempotency_key"@),
            ),
        ),
        tool(
            "qq_ask_user"@,
            "Ask the authenticated QQ Owner a question and block until an answer, cancellation, or timeout. Do not ask for secrets."@,
            question_properties(),
            with_element(
                with_element(
                    with_element(
                        with_element(no_elements(), Tree::Text("question"@)),
                        Tree::Text("choices"@),
                    ),
                    Tree::Text("allow_freeform"@),
                ),
                Tree::Text("timeout_seconds"@),
            ),
        ),
        tool(
            "qq_wait_for_message"@,
            "Wait for the next authenticated /message command explicitly addressed to the current Agent session. This tool must be auto-allowed."@,
            wait_properties(),
            with_element(no_elements(), Tree::Text("timeout_seconds"@)),
        ),
    ]
}

fn text_schema(least: u64, most: u64) -> (r: Json)
    ensures
        r@ == text_rule(least as nat, most as nat),
{
    Json::object().with("type", Json::text("string")).with("minLength", Json::number(least)).with(
        "maxLength",
        Json::number(most),
    )
}

fn number_schema(least: u64, most: u64) -> (r: Json)
    ensures
        r@ == number_rule(least as nat, most as nat),
{
    Json::object().with("type", Json::text("integer")).with("minimum", Json::number(least)).with(
        "maximum",
        Json::number(most),
    )
}

fn tool_definition(name: &str, description: &str, properties: Json, required: Json) -> (r: Json)
    ensures
        r@ == tool(name@, description@, properties@, required@),
{
    let schema = Json::object().with("type", Json::text("object")).with(
        "properties",
        properties,
    ).with("required", required).with("additionalProperties", Json::Bool(false));
    Json::object().with("name", Json::text(name)).with("description", Json::text(description)).with(
        "inputSchema",
        schema,
    )
}

fn progress_schema() -> (r: Json)
    ensures
        r@ == progress_properties(),
{
    Json::object().with("session_label", text_schema(2, 16)).with("content", text_schema(1, 6000))
}

fn question_schema() -> (r: Json)
    ensures
        r@ == question_properties(),
{
    let label = text_schema(2, 16).with(
        "description",
        Json::text("Optional when exactly one Agent session is active"),
    );
    let choices = Json::object().with("type", Json::text("array")).with(
        "items",
        text_schema(1, 200),
    ).with("maxItems", Json::number(10));
    let flag = Json::object().with("type", Json::text("boolean"));
    Json::object().with("session_label", label).with("question", text_schema(1, 1000)).with(
        "choices",
        choices,
    ).with("allow_freeform", flag).with("timeout_seconds", number_schema(1, 600))
}

/// The data of the values.
pub open spec fn data_of(v: Seq<Json>) -> Seq<Tree> {
    v.map_values(|j: Json| j@)
}

/// The tools that the agent can call.
pub fn tool_definitions() -> (r: Vec<Json>)
    ensures
        data_of(r@) == tool_trees(),
{
    let progress = tool_definition(
        "qq_send_progress",
        "Send a short, redacted progress update to the single locally bound QQ Owner. This tool never accepts a recipient.",
        progress_schema(),
        Json::array().and(Json::text("content")),
    );
    let answer = tool_definition(
        "qq_send_final",
        "Send exactly the same user-visible final answer to the bound QQ Owner once. Never include hidden reasoning, secrets, transcripts, URLs, or absolute paths.",
        progress_schema().with("idempotency_key", text_schema(1, 256)),
        Json::array().and(Json::text("content")).and(Json::text("idempotency_key")),
    );
    let question = tool_definition(
        "qq_ask_user",
        "Ask the authenticated QQ Owner a question and block until an answer, cancellation, or timeout. Do not ask for secrets.",
        question_schema(),
        Json::array().and(Json::text("question")).and(Json::text("choices")).and(
            Json::text("allow_freeform"),
        ).and(Json::text("timeout_seconds")),
    );
    let wait = tool_definition(
        "qq_wait_for_message",
        "Wait for the next authenticated /message command explicitly addressed to the current Agent session. This tool must be auto-allowed.",
        Json::object().with("session_label", text_schema(2, 16)).with(
            "timeout_seconds",
            number_schema(1, 300),
        ),
        Json::array().and(Json::text("timeout_seconds")),
    );
    let r = vec![progress, answer, question, wait];
    assert(data_of(r@) =~= tool_trees());
    r
}

fn tool_list() -> (r: Json)
    ensures
        r@ == Tree::Array(tool_trees()),
{
    let tools = tool_definitions();
    proof {
        assert forall|i: int| 0 <= i < tools@.len() implies tree(#[trigger] tools@[i])
            == tool_trees()[i] by {
            assert(data_of(tools@)[i] == tools@[i]@);
        }
        assert(data_of(tools@).len() == tools@.len());
        lemma_trees_are(tools, tool_trees());
    }
    Json::Array(tools)
}

// ---------------------------------------------------------------------------
// The conversation

/// What the agent is told of a tool that worked.
pub open spec fn tool_worked(result: Tree) -> Tree {
    with_member(
        with_member(
            with_member(
                no_members(),
                "content"@,
                with_element(
                    no_elements(),
                    with_member(
                        with_member(no_members(), "type"@, Tree::Text("text"@)),
                        "text"@,
                        Tree::Text(compact(canonical(result))),
                    ),
                ),
            ),
            "structuredContent"@,
            result,
        ),
        "isError"@,
        Tree::Bool(false),
    )
}

/// What the agent is told of a tool that did not work.
pub open spec fn tool_failed(message: Seq<char>) -> Tree {
    with_member(
        with_member(
            no_members(),
            "content"@,
            with_element(
                no_elements(),
                with_member(
                    with_member(no_members(), "type"@, Tree::Text("text"@)),
                    "text"@,
                    Tree::Text(message),
                ),
            ),
        ),
        "isError"@,
        Tree::Bool(true),
    )
}

/// What the agent is told first.
pub open spec fn welcome(selected: Seq<char>, version: Seq<char>) -> Tree {
    with_member(
        with_member(
            with_member(
                with_member(no_members(), "protocolVersion"@, Tree::Text(selected)),
                "capabilities"@,
                with_member(
                    no_members(),
                    "tools"@,
                    with_member(no_members(), "listChanged"@, Tree::Bool(false)),
                ),
            ),
            "serverInfo"@,
            with_member(
                with_member(no_members(), "name"@, Tree::Text("qq-copilot-remote"@)),
                "version"@,
                Tree::Text(version),
            ),
        ),
        "instructions"@,
        Tree::Text(
            "QQ tools always target the locally bound Owner. Do not send secrets, URLs, file paths, hidden reasoning, raw transcripts, or unredacted tool input."@,
        ),
    )
}

/// What the agent is told of a tool that worked.
pub fn tool_success(result: Json) -> (r: Json)
    ensures
        r@ == tool_worked(result@),
{
    let text = canonical_json(&result);
    let content = Json::array().and(
        Json::object().with("type", Json::text("text")).with("text", Json::text(text.as_str())),
    );
    Json::object().with("content", content).with("structuredContent", result).with(
        "isError",
        Json::Bool(false),
    )
}

/// What the agent is told of a tool that did not work.
pub fn tool_error(message: &str) -> (r: Json)
    ensures
        r@ == tool_failed(message@),
{
    let content = Json::array().and(
        Json::object().with("type", Json::text("text")).with("text", Json::text(message)),
    );
    Json::object().with("content", content).with("isError", Json::Bool(true))
}

fn welcome_value(selected: &str, version: &str) -> (r: Json)
    ensures
        r@ == welcome(selected@, version@),
{
    let tools = Json::object().with("listChanged", Json::Bool(false));
    let server = Json::object().with("name", Json::text("qq-copilot-remote")).with(
        "version",
        Json::text(version),
    );
    Json::object().with("protocolVersion", Json::text(selected)).with(
        "capabilities",
        Json::object().with("tools", tools),
    ).with("serverInfo", server).with(
        "instructions",
        Json::text(
            "QQ tools always target the locally bound Owner. Do not send secrets, URLs, file paths, hidden reasoning, raw transcripts, or unredacted tool input.",
        ),
    )
}

/// The side of the conversation that offers the tools.
#[derive(Debug)]
pub struct McpServer {
    pub initialized: bool,
    pub session_id: Option<String>,
    pub version: String,
}

/// What a line of the agent leads to.
#[derive(Debug)]
pub enum McpStep {
    /// Nothing.
    Silent,
    /// An answer.
    Reply(JsonRpcResponse),
    /// A request to the bridge; its outcome is the answer.
    Call { id: Json, request: BridgeRequest, timeout_seconds: u64 },
}

/// Whether the step is an answer with that result.
pub open spec fn replies(step: McpStep, id: Tree, result: Tree) -> bool {
    step matches McpStep::Reply(r) && succeeds(r, id, result)
}

/// Whether the step is an answer that refuses.
pub open spec fn declines(step: McpStep, id: Tree, code: int, message: Seq<char>) -> bool {
    step matches McpStep::Reply(r) && fails(r, id, code, message)
}

/// What the call of a tool leads to.
pub open spec fn called(
    a: McpServer,
    id: Tree,
    name: Seq<char>,
    arguments: Tree,
    step: McpStep,
) -> bool {
    match step {
        McpStep::Call { id: asked, request, timeout_seconds } => asked@ == id && call_outcome(
            opt_view(a.session_id),
            name,
            arguments,
            Ok((request, timeout_seconds)),
        ),
        McpStep::Reply(r) => exists|f: Failure| #[trigger]
            is_bad_call(opt_view(a.session_id), name, arguments, f) && succeeds(
                r,
                id,
                tool_failed(f.message@),
            ),
        McpStep::Silent => false,
    }
}

/// What a request with that identifier leads to where the tools are offered.
pub open spec fn offered(
    a: McpServer,
    id: Tree,
    method: Seq<char>,
    params: Tree,
    step: McpStep,
) -> bool {
    if method == "ping"@ {
        replies(step, id, no_members())
    } else if method == "tools/list"@ {
        if !a.initialized {
            declines(step, id, -32002, "Server has not been initialized"@)
        } else {
            replies(step, id, with_member(no_members(), "tools"@, Tree::Array(tool_trees())))
        }
    } else if method == "tools/call"@ {
        if !a.initialized {
            declines(step, id, -32002, "Server has not been initialized"@)
        } else {
            match called_tool(params) {
                None => declines(step, id, -32602, "invalid method parameters"@),
                Some((name, arguments)) => called(a, id, name, arguments, step),
            }
        }
    } else {
        declines(step, id, -32601, "Method not found"@)
    }
}

/// What a request leads to.
pub open spec fn stepped(a: McpServer, b: McpServer, r: JsonRpcRequest, step: McpStep) -> bool {
    let id = match r.id {
        Some(j) => j@,
        None => Tree::Null,
    };
    let params = given_params(r.params);
    if r.jsonrpc@ != "2.0"@ || trim(r.method@).len() == 0 {
        &&& b == a
        &&& if r.id is Some {
            declines(step, id, -32600, "Invalid Request"@)
        } else {
            step is Silent
        }
    } else if r.method@ == "initialize"@ {
        match asked_version(params) {
            Some(v) => {
                &&& b == (McpServer { initialized: true, ..a })
                &&& replies(step, id, welcome(spoken_version(v), a.version@))
            },
            None => b == a && declines(step, id, -32602, "invalid method parameters"@),
        }
    } else {
        &&& b == a
        &&& if r.method@ == "notifications/initialized"@ || r.method@ == "notifications/cancelled"@
            || r.id is None {
            step is Silent
        } else {
            offered(a, id, r.method@, params, step)
        }
    }
}

/// What comes of the length of a line.
pub open spec fn line_refused(
    len: usize,
    r: Option<JsonRpcResponse>,
) -> bool {
    if len > MAX_IPC_MESSAGE_BYTES {
        r matches Some(x) && fails(
            x,
            Tree::Null,
            -32600,
            "MCP request exceeded the size limit"@,
        )
    } else {
        r is None
    }
}

impl McpServer {
    /// The side that offers the tools, before it was spoken to.
    pub fn new(session_id: Option<String>, version: String) -> (r: McpServer)
        ensures
            !r.initialized,
            r.session_id == session_id,
            r.version == version,
    {
        McpServer { initialized: false, session_id, version }
    }

    /// The answer to a line that is too long to be read, if it is.
    pub fn refuse_line(&self, len: usize) -> (r: Option<JsonRpcResponse>)
        ensures
            line_refused(len, r),
    {
        if len > MAX_IPC_MESSAGE_BYTES {
            return Some(error_response(Json::Null, -32600, "MCP request exceeded the size limit"));
        }
        None
    }

    /// The answer to a line that could not be read.
    pub fn refuse_unreadable(&self) -> (r: JsonRpcResponse)
        ensures
            fails(r, Tree::Null, -32700, "Parse error"@),
    {
        error_response(Json::Null, -32700, "Parse error")
    }

    /// Hears a request of the agent.
    pub fn hear(&mut self, request: JsonRpcRequest) -> (step: McpStep)
        ensures
            stepped(*old(self), *final(self), request, step),
    {
        let JsonRpcRequest { jsonrpc, id, method, params } = request;
        let method = method.as_str();
        if !str_eq(jsonrpc.as_str(), "2.0") || is_blank(method) {
            return match id {
                Some(id) => McpStep::Reply(error_response(id, -32600, "Invalid Request")),
                None => McpStep::Silent,
            };
        }
        if str_eq(method, "initialize") {
            let id = match id {
                Some(id) => id,
                None => Json::Null,
            };
            let params = params_or_none(params);
            return match InitializeParams::read(&params) {
                None => McpStep::Reply(error_response(id, -32602, "invalid method parameters")),
                Some(p) => {
                    self.initialized = true;
                    let selected = select_protocol_version(p.protocol_version.as_str());
                    let told = welcome_value(selected, self.version.as_str());
                    McpStep::Reply(success_response(id, told))
                },
            };
        }
        if str_eq(method, "notifications/initialized") || str_eq(
            method,
            "notifications/cancelled",
        ) {
            return McpStep::Silent;
        }
        match id {
            None => McpStep::Silent,
            Some(id) => self.offer(id, method, params_or_none(params)),
        }
    }

    fn offer(&self, id: Json, method: &str, params: Json) -> (step: McpStep)
        ensures
            offered(*self, id@, method@, params@, step),
    {
        if str_eq(method, "ping") {
            return McpStep::Reply(success_response(id, Json::object()));
        }
        if str_eq(method, "tools/list") {
            if !self.initialized {
                return McpStep::Reply(
                    error_response(id, -32002, "Server has not been initialized"),
                );
            }
            let tools = Json::object().with("tools", tool_list());
            return McpStep::Reply(success_response(id, tools));
        }
        if str_eq(method, "tools/call") {
            if !self.initialized {
                return McpStep::Reply(
                    error_response(id, -32002, "Server has not been initialized"),
                );
            }
            let call = match CallToolParams::read(&params) {
                None => {
                    return McpStep::Reply(
                        error_response(id, -32602, "invalid method parameters"),
                    );
                },
                Some(call) => call,
            };
            return self.call(id, &call);
        }
        McpStep::Reply(error_response(id, -32601, "Method not found"))
    }

    fn call(&self, id: Json, call: &CallToolParams) -> (step: McpStep)
        ensures
            called(*self, id@, call.name@, call.arguments@, step),
    {
        let session = match &self.session_id {
            Some(s) => Some(s.as_str()),
            None => None,
        };
        let outcome = call_tool(session, call);
        let ghost kept = outcome;
        match outcome {
            Ok((request, timeout_seconds)) => {
                let step = McpStep::Call { id, request, timeout_seconds };
                assert(kept == Ok::<(BridgeRequest, u64), Failure>(
                    (step->request, step->timeout_seconds),
                ));
                step
            },
            Err(f) => {
                let told = tool_error(f.message.as_str());
                let reply = success_response(id, told);
                assert(is_bad_call(opt_view(self.session_id), call.name@, call.arguments@, f));
                McpStep::Reply(reply)
            },
        }
    }

    /// The answer to a tool call, once the bridge has been asked.
    pub fn conclude(&self, id: Json, outcome: Result<Json, Failure>) -> (r: JsonRpcResponse)
        ensures
            match outcome {
                Ok(result) => succeeds(r, id@, tool_worked(result@)),
                Err(f) => succeeds(r, id@, tool_failed(f.message@)),
            },
    {
        match outcome {
            Ok(result) => success_response(id, tool_success(result)),
            Err(f) => success_response(id, tool_error(f.message.as_str())),
        }
    }
}

/// Before a client has said what it is, no tool is listed or called for it.
pub proof fn tools_need_initialization(
    a: McpServer,
    b: McpServer,
    r: JsonRpcRequest,
    step: McpStep,
)
    requires
        !a.initialized,
        stepped(a, b, r, step),
        r.method@ == "tools/list"@ || r.method@ == "tools/call"@,
    ensures
        !b.initialized,
        !(step is Call),
        step matches McpStep::Reply(x) ==> x.result is None,
{
    reveal_strlit("tools/list");
    reveal_strlit("tools/call");
    reveal_strlit("initialize");
    reveal_strlit("ping");
    assert("tools/list"@[0] == 't' && "tools/call"@[0] == 't' && "initialize"@[0] == 'i');
    assert("ping"@.len() == 4 && "tools/list"@.len() == 10);
}

} // verus!
