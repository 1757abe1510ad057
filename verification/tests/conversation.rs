use qq_copilot_remote::config::Failure;
use qq_copilot_remote::hook::{
    check_input_length, hook_fallback, hook_output, hook_request, HookCommand,
};
use qq_copilot_remote::ipc::{
    answer, check_request_length, check_response_length, read_response, refuse_by_length,
    refuse_envelope, refuse_unreadable, unreachable_bridge,
};
use qq_copilot_remote::json::{canonical_json, compact_text, Json};
use qq_copilot_remote::mcp::{
    call_tool, response_line, tool_definitions, CallToolParams, JsonRpcRequest, McpServer, McpStep,
};
use qq_copilot_remote::messages::GatewayResume;
use qq_copilot_remote::protocol::{
    BridgeRequest, RpcEnvelope, IPC_PROTOCOL_VERSION, MAX_IPC_MESSAGE_BYTES,
};
use qq_copilot_remote::qq::{
    acknowledgement_payload, authenticate, delivery_failure, interaction_endpoint, judge_status,
    message_endpoint, parse_u64, read_gateway_url, read_receipt, read_token, resume_url,
    text_payload, token_payload, typing_payload, ApprovalButtons, ChoiceButton, ChoiceButtons,
    GatewayEvent, GatewayLink, GatewayPayload, GatewayRetry, MockQqMessenger, Verdict,
};
use qq_copilot_remote::store::Database;

const NOW: i64 = 1_788_000_000;

fn error_of<T>(r: Result<T, Failure>) -> String {
    match r {
        Ok(_) => panic!("it went well"),
        Err(f) => f.message,
    }
}

// Hooks

fn tool_call() -> Json {
    Json::object()
        .with("session_id", Json::text("session-1"))
        .with("tool_use_id", Json::text("tool-1"))
        .with("tool_name", Json::text("view"))
        .with("tool_input", Json::object().with("path", Json::text("a")))
        .with("cwd", Json::text(r"C:\work"))
}

#[test]
fn hooks_ask_for_what_they_are_called_for() {
    let (request, seconds) = hook_request(HookCommand::PreTool, &tool_call(), 100).expect("request");
    assert_eq!(seconds, 115);
    match request {
        BridgeRequest::PreTool {
            session_id,
            tool_use_id,
            tool_name,
            tool_input,
            cwd,
        } => {
            assert_eq!(session_id, "session-1");
            assert_eq!(tool_use_id, "tool-1");
            assert_eq!(tool_name, "view");
            assert_eq!(compact_text(&tool_input), "{\"path\":\"a\"}");
            assert_eq!(cwd, r"C:\work");
        }
        _ => panic!("another request"),
    }
    let (request, seconds) = hook_request(HookCommand::PostTool, &tool_call(), 100).expect("request");
    assert_eq!(seconds, 10);
    assert!(matches!(request, BridgeRequest::PostTool { .. }));
    let stop = Json::object()
        .with("session_id", Json::text("session-1"))
        .with("stop_hook_active", Json::Bool(true));
    let (request, seconds) = hook_request(HookCommand::Stop, &stop, 100).expect("request");
    assert_eq!(seconds, 20);
    assert!(matches!(
        request,
        BridgeRequest::Stop {
            stop_hook_active: true,
            ..
        }
    ));
}

#[test]
fn hooks_refuse_what_they_cannot_read() {
    assert_eq!(
        error_of(hook_request(HookCommand::Stop, &Json::object(), 1)),
        "Hook input omitted session_id"
    );
    let relative = Json::object()
        .with("session_id", Json::text("session-1"))
        .with("cwd", Json::text("work"));
    assert_eq!(
        error_of(hook_request(HookCommand::Prompt, &relative, 1)),
        "Hook cwd must be absolute"
    );
    assert_eq!(
        error_of(hook_request(HookCommand::PreTool, &tool_call(), u64::MAX)),
        "Bridge wait timeout overflow"
    );
    assert_eq!(error_of(check_input_length(0)), "Hook stdin was empty");
    assert_eq!(
        error_of(check_input_length(MAX_IPC_MESSAGE_BYTES + 1)),
        "Hook stdin exceeded the size limit"
    );
    assert!(check_input_length(MAX_IPC_MESSAGE_BYTES).is_ok());
}

#[test]
fn hooks_deny_without_a_bridge() {
    let denied = hook_fallback(HookCommand::PreTool, false);
    assert!(compact_text(&denied).contains("\"permissionDecision\":\"deny\""));
    let blocked = hook_fallback(HookCommand::Stop, false);
    assert!(compact_text(&blocked).contains("block"));
    assert_eq!(compact_text(&hook_fallback(HookCommand::Stop, true)), "{}");
}

#[test]
fn hooks_tell_the_decision_of_the_bridge() {
    let result = Json::object()
        .with("decision", Json::text("allow"))
        .with("reason", Json::text("fine"));
    let told = hook_output(HookCommand::PreTool, &tool_call(), &result).expect("output");
    let told = compact_text(&told);
    assert!(told.contains("\"permissionDecision\":\"allow\""));
    assert!(told.contains("\"permissionDecisionReason\":\"fine\""));
    assert!(hook_output(HookCommand::PreTool, &tool_call(), &Json::object()).is_err());
}

// The pipe

fn envelope(version: u32, token: &str) -> RpcEnvelope {
    RpcEnvelope {
        version,
        request_id: 7,
        auth_token: token.to_owned(),
        request: BridgeRequest::Health,
    }
}

#[test]
fn the_pipe_answers_only_who_knows_the_token() {
    assert!(refuse_envelope(&envelope(IPC_PROTOCOL_VERSION, "token"), "token").is_none());
    let refused = refuse_envelope(&envelope(IPC_PROTOCOL_VERSION, "other"), "token")
        .expect("refusal");
    assert_eq!(refused.request_id, 7);
    assert_eq!(refused.error.expect("error").code, "unauthorized");
    let refused = refuse_envelope(&envelope(2, "token"), "token").expect("refusal");
    assert_eq!(refused.error.expect("error").code, "unsupported_protocol");
    assert_eq!(
        refuse_by_length(0).expect("refusal").error.expect("error").code,
        "empty_request"
    );
    assert_eq!(
        refuse_by_length(MAX_IPC_MESSAGE_BYTES + 1)
            .expect("refusal")
            .error
            .expect("error")
            .code,
        "request_too_large"
    );
    assert!(refuse_by_length(1).is_none());
    assert_eq!(
        refuse_unreadable().error.expect("error").code,
        "invalid_json"
    );
}

#[test]
fn answers_come_back_as_they_were_given() {
    let given = Json::object().with("a", Json::number(1));
    let read = read_response(answer(7, Ok(given)), 7).expect("answer");
    assert_eq!(compact_text(&read), "{\"a\":1}");
    let failed = answer(
        7,
        Err(Failure {
            message: "no such session".to_owned(),
        }),
    );
    assert!(error_of(read_response(failed, 7)).contains("no such session"));
    assert_eq!(
        error_of(read_response(answer(7, Ok(Json::Null)), 8)),
        "Bridge response identity or protocol version did not match"
    );
    assert!(check_request_length(MAX_IPC_MESSAGE_BYTES).is_ok());
    assert!(check_request_length(MAX_IPC_MESSAGE_BYTES + 1).is_err());
    assert!(check_response_length(MAX_IPC_MESSAGE_BYTES + 1).is_err());
    assert!(!unreachable_bridge(None).message.is_empty());
}

#[test]
fn requests_have_identifiers_of_their_own() {
    let one = RpcEnvelope::new("token".to_owned(), BridgeRequest::Health);
    let two = RpcEnvelope::new("token".to_owned(), BridgeRequest::Health);
    assert_ne!(one.request_id, two.request_id);
    assert_eq!(one.version, IPC_PROTOCOL_VERSION);
    assert_eq!(one.auth_token, "token");
}

// Tools

fn request(id: Option<u64>, method: &str, params: Option<Json>) -> JsonRpcRequest {
    JsonRpcRequest {
        jsonrpc: "2.0".to_owned(),
        id: id.map(Json::number),
        method: method.to_owned(),
        params,
    }
}

fn reply(step: McpStep) -> String {
    match step {
        McpStep::Reply(response) => response_line(&response),
        _ => panic!("no reply"),
    }
}

fn initialize(server: &mut McpServer) -> String {
    reply(server.hear(request(
        Some(1),
        "initialize",
        Some(
            Json::object()
                .with("protocolVersion", Json::text("2025-06-18"))
                .with("capabilities", Json::object())
                .with(
                    "clientInfo",
                    Json::object()
                        .with("name", Json::text("client"))
                        .with("version", Json::text("1")),
                ),
        ),
    )))
}

#[test]
fn tools_are_offered_after_initialization() {
    let mut server = McpServer::new(Some("session-1".to_owned()), "0.1.0".to_owned());
    assert!(reply(server.hear(request(Some(1), "tools/list", None))).contains("-32002"));
    assert!(initialize(&mut server).contains("2025-06-18"));
    let listed = reply(server.hear(request(Some(2), "tools/list", None)));
    assert!(listed.contains("qq_send_final"));
    assert!(listed.contains("\"id\":2"));
    let call = Json::object()
        .with("name", Json::text("qq_send_progress"))
        .with(
            "arguments",
            Json::object().with("content", Json::text("working")),
        );
    match server.hear(request(Some(3), "tools/call", Some(call))) {
        McpStep::Call { request, .. } => {
            assert!(matches!(request, BridgeRequest::SendProgress { .. }));
        }
        _ => panic!("no call"),
    }
    assert!(reply(server.hear(request(Some(4), "mystery", None))).contains("-32601"));
    assert!(matches!(
        server.hear(request(None, "notifications/initialized", None)),
        McpStep::Silent
    ));
    assert!(response_line(&server.refuse_unreadable()).contains("-32700"));
    assert!(server.refuse_line(1).is_none());
    assert!(server.refuse_line(MAX_IPC_MESSAGE_BYTES + 1).is_some());
    assert!(response_line(&server.conclude(Json::number(3), Ok(Json::object()))).contains("\"id\":3"));
}

#[test]
fn tool_calls_name_the_session_of_the_server() {
    let params = CallToolParams {
        name: "qq_send_final".to_owned(),
        arguments: Json::object()
            .with("content", Json::text("done"))
            .with("idempotency_key", Json::text("session:turn:final")),
    };
    let (request, seconds) = call_tool(Some("session-1"), &params).expect("call");
    assert!(seconds > 0);
    match request {
        BridgeRequest::SendFinal {
            session_id,
            session_label,
            content,
            idempotency_key,
        } => {
            assert_eq!(session_id.as_deref(), Some("session-1"));
            assert!(session_label.is_none());
            assert_eq!(content, "done");
            assert_eq!(idempotency_key, "session:turn:final");
        }
        _ => panic!("another request"),
    }
    let unknown = CallToolParams {
        name: "mystery".to_owned(),
        arguments: Json::object(),
    };
    assert!(call_tool(None, &unknown).is_err());
    assert_eq!(tool_definitions().len(), 4);
}

// QQ

#[test]
fn addresses_and_bodies_are_those_of_the_api() {
    assert_eq!(
        message_endpoint("https://api.example.com/", "user/1"),
        "https://api.example.com/v2/users/user%2F1/messages"
    );
    assert_eq!(
        interaction_endpoint("https://api.example.com", "a b"),
        "https://api.example.com/interactions/a%20b"
    );
    assert_eq!(
        canonical_json(&token_payload("id", "secret")),
        "{\"appId\":\"id\",\"clientSecret\":\"secret\"}"
    );
    assert_eq!(
        canonical_json(&text_payload("hi", Some("m-1"), 2)),
        "{\"content\":\"hi\",\"msg_id\":\"m-1\",\"msg_seq\":2,\"msg_type\":0}"
    );
    assert_eq!(canonical_json(&acknowledgement_payload(0)), "{\"code\":0}");
    assert!(typing_payload(0).is_err());
    assert!(typing_payload(10).is_ok());
}

#[test]
fn answers_of_the_api_are_read() {
    let token = Json::object()
        .with("access_token", Json::text("t"))
        .with("expires_in", Json::text("7200"));
    assert_eq!(read_token(&token, 60).expect("token"), ("t".to_owned(), 7140));
    assert_eq!(
        error_of(read_token(&token, 7200)),
        "QQ App Access Token expires too soon"
    );
    assert_eq!(
        error_of(read_token(&Json::object(), 60)),
        "QQ App Access Token response omitted access_token"
    );
    let camel = Json::object()
        .with("accessToken", Json::text("t"))
        .with("expiresIn", Json::number(100));
    assert_eq!(read_token(&camel, 60).expect("token"), ("t".to_owned(), 40));
    assert_eq!(parse_u64(&Json::text("12")), Some(12));
    assert_eq!(parse_u64(&Json::text("x")), None);
    assert_eq!(
        read_gateway_url(&Json::object().with("url", Json::text("wss://a"))).expect("url"),
        "wss://a"
    );
    assert!(read_gateway_url(&Json::object()).is_err());
    assert_eq!(
        read_receipt(&Json::object().with("message_id", Json::text("m")))
            .expect("receipt")
            .message_id,
        "m"
    );
    assert!(read_receipt(&Json::object()).is_err());
    assert_eq!(judge_status(0, 401), Verdict::Refresh);
    assert_eq!(judge_status(1, 401), Verdict::Refused);
    assert_eq!(judge_status(0, 204), Verdict::Accepted);
    assert_eq!(judge_status(0, 500), Verdict::Refused);
    assert!(delivery_failure("500 Internal Server Error", None).message.contains("500"));
}

fn payload(op: u64, s: Option<u64>, t: Option<&str>, d: Option<Json>) -> GatewayPayload {
    GatewayPayload {
        id: Some("event-1".to_owned()),
        op,
        d,
        s,
        t: t.map(str::to_owned),
    }
}

#[test]
fn the_gateway_is_followed() {
    let hello = payload(
        10,
        None,
        None,
        Some(Json::object().with("heartbeat_interval", Json::number(41_250))),
    );
    let (mut link, interval) = GatewayLink::open(&hello, &None).expect("hello");
    assert_eq!(interval, 41_250);
    let mut database = Database::new();
    let ready = Json::object()
        .with("session_id", Json::text("gateway-1"))
        .with("resume_gateway_url", Json::text("wss://resume"));
    link.hear(&mut database, payload(0, Some(1), Some("READY"), Some(ready)), NOW)
        .expect("ready");
    let message = Json::object()
        .with("id", Json::text("m-1"))
        .with("content", Json::text("/status"))
        .with(
            "author",
            Json::object().with("user_openid", Json::text("owner-a")),
        );
    let event = link
        .hear(
            &mut database,
            payload(0, Some(2), Some("C2C_MESSAGE_CREATE"), Some(message)),
            NOW,
        )
        .expect("message");
    match event {
        GatewayEvent::Message(message) => {
            assert_eq!(message.id, "m-1");
            assert_eq!(message.user_openid, "owner-a");
            assert_eq!(message.content, "/status");
        }
        _ => panic!("another event"),
    }
    let resume = database.gateway_resume();
    let kept = resume.as_ref().expect("resume");
    assert_eq!(kept.session_id, "gateway-1");
    assert_eq!(kept.sequence, 2);
    assert_eq!(resume_url(&resume).as_deref(), Some("wss://resume"));
    assert_eq!(compact_text(&link.beat().expect("beat")), "{\"op\":1,\"d\":2}");
    assert_eq!(
        error_of(link.beat()),
        "QQ Gateway did not acknowledge the previous heartbeat"
    );
    link.hear(&mut database, payload(11, None, None, None), NOW)
        .expect("acknowledgement");
    assert!(link.beat().is_ok());
    assert_eq!(
        error_of(link.hear(&mut database, payload(7, None, None, None), NOW)),
        "QQ Gateway requested reconnect"
    );
    assert_eq!(
        error_of(link.hear(&mut database, payload(9, None, None, None), NOW)),
        "QQ Gateway rejected the resumable session"
    );
    assert!(database.gateway_resume().is_none());
}

#[test]
fn the_gateway_is_greeted() {
    let fresh = compact_text(&authenticate(&None, "t", 3));
    assert!(fresh.starts_with("{\"op\":2,"));
    assert!(fresh.contains("\"token\":\"QQBot t\""));
    assert!(fresh.contains("\"intents\":3"));
    let resumed = compact_text(&authenticate(
        &Some(GatewayResume {
            session_id: "gateway-1".to_owned(),
            sequence: 9,
            resume_gateway_url: None,
        }),
        "t",
        3,
    ));
    assert_eq!(
        resumed,
        "{\"op\":6,\"d\":{\"token\":\"QQBot t\",\"session_id\":\"gateway-1\",\"seq\":9}}"
    );
    let short = payload(
        10,
        None,
        None,
        Some(Json::object().with("heartbeat_interval", Json::number(999))),
    );
    assert_eq!(
        error_of(GatewayLink::open(&short, &None)),
        "QQ Gateway heartbeat interval is unexpectedly short"
    );
    assert_eq!(
        error_of(GatewayLink::open(&payload(0, None, None, None), &None)),
        "QQ Gateway first payload was not Hello"
    );
}

#[test]
fn waits_for_the_gateway_double() {
    let mut retry = GatewayRetry::new();
    let waits: Vec<u64> = (0..8).map(|_| retry.failed()).collect();
    assert_eq!(waits, vec![1, 2, 4, 8, 16, 32, 60, 60]);
    retry.succeeded();
    assert_eq!(retry.failed(), 1);
}

#[test]
fn the_mock_keeps_what_it_is_given() {
    let mut mock = MockQqMessenger::new();
    let receipt = mock.send_text("owner", "hi", Some("m-1"), 2).expect("text");
    assert_eq!(receipt.message_id, "message-1");
    let buttons = ApprovalButtons {
        markdown: "approve?".to_owned(),
        allow_button_data: "a".to_owned(),
        deny_button_data: "d".to_owned(),
    };
    assert_eq!(
        mock.send_approval_buttons("owner", &buttons)
            .expect("buttons")
            .message_id,
        "message-2"
    );
    let choices = ChoiceButtons {
        markdown: "choose".to_owned(),
        button_id_prefix: "c".to_owned(),
        choices: vec![ChoiceButton {
            label: "one".to_owned(),
            button_data: "1".to_owned(),
        }],
    };
    mock.send_choice_buttons("owner", &choices, None, 0)
        .expect("choices");
    mock.send_typing("owner", 10).expect("typing");
    mock.acknowledge_interaction("i-1", 0);
    assert_eq!(mock.messages().len(), 4);
    assert_eq!(mock.messages()[0].reply_to_message_id.as_deref(), Some("m-1"));
    assert_eq!(mock.messages()[3].content, "10");
    assert_eq!(mock.acknowledgements(), &vec![("i-1".to_owned(), 0)]);
    mock.set_send_failure(true);
    assert_eq!(
        error_of(mock.send_text("owner", "hi", None, 1)),
        "mock QQ delivery failure"
    );
    assert_eq!(mock.messages().len(), 4);
}
