use qq_copilot_remote::json::Json;
use qq_copilot_remote::mcp::{
    select_protocol_version, tool_definitions, CallToolParams, InitializeParams, JsonRpcRequest,
    SendFinalArgs, DEFAULT_PROTOCOL_VERSION,
};

fn final_arguments() -> Json {
    Json::object()
        .with("content", Json::text("done"))
        .with("idempotency_key", Json::text("session:turn:final"))
}

#[test]
fn tool_call_uses_protocol_name_field() {
    let request = JsonRpcRequest {
        jsonrpc: "2.0".to_owned(),
        id: Some(Json::number(1)),
        method: "tools/call".to_owned(),
        params: Some(
            Json::object()
                .with("name", Json::text("qq_send_progress"))
                .with(
                    "arguments",
                    Json::object()
                        .with("session_label", Json::text("SABCD"))
                        .with("content", Json::text("working")),
                ),
        ),
    };
    let params = CallToolParams::read(&request.params.expect("params")).expect("valid params");
    assert_eq!(params.name, "qq_send_progress");
}

#[test]
fn session_label_is_optional_for_unique_active_session() {
    let arguments = SendFinalArgs::read(&final_arguments()).expect("valid final arguments");
    assert!(arguments.session_label.is_none());
}

#[test]
fn tool_call_accepts_standard_request_metadata() {
    let params = CallToolParams::read(
        &Json::object()
            .with("name", Json::text("qq_send_final"))
            .with("arguments", final_arguments())
            .with(
                "_meta",
                Json::object().with("progressToken", Json::text("request-1")),
            ),
    )
    .expect("tool call with MCP metadata");
    assert_eq!(params.name, "qq_send_final");
}

#[test]
fn unsupported_protocol_falls_back_to_stable_version() {
    assert_eq!(
        select_protocol_version("2099-01-01"),
        DEFAULT_PROTOCOL_VERSION
    );
    assert_eq!(select_protocol_version("2024-11-05"), "2024-11-05");
}

#[test]
fn initialize_accepts_standard_client_fields() {
    let params = InitializeParams::read(
        &Json::object()
            .with("protocolVersion", Json::text("2025-06-18"))
            .with(
                "capabilities",
                Json::object().with("roots", Json::object().with("listChanged", Json::Bool(true))),
            )
            .with(
                "clientInfo",
                Json::object()
                    .with("name", Json::text("VS Code"))
                    .with("version", Json::text("1.0")),
            ),
    )
    .expect("standard initialize params");
    assert_eq!(params.protocol_version, "2025-06-18");
}

#[test]
fn all_tools_forbid_recipient_override() {
    for tool in tool_definitions() {
        let properties = tool
            .get("inputSchema")
            .expect("schema")
            .get("properties")
            .expect("properties");
        assert!(properties.get("user_openid").is_none());
        assert!(properties.get("recipient").is_none());
    }
}
