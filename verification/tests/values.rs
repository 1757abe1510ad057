use qq_copilot_remote::json::{canonical_json, canonicalize, compact_text, Json};
use qq_copilot_remote::paths::{
    child_path, is_absolute, normalize_path, path_is_within, path_text, plain_text,
};
use qq_copilot_remote::protocol::{
    AhpCommandKind, AhpCommandOutcome, AhpEventKind, AhpHostState, AhpTargetKind,
    ApprovalState, RiskLevel,
};
use qq_copilot_remote::security::{
    code_from_bytes, constant_time_eq, contains_secret_key, contains_secret_value,
    display_workspace_path, normalize_tool_name, random_code, redact_json, redact_text, sha256_hex,
    validate_agent_content, workspace_hash, REDACTED,
};
use qq_copilot_remote::text::{
    decimal_text, integer_text, parse_number, split_text, text_contains, text_lines, to_upper,
    trimmed, truncate_chars, words, Separator,
};

#[test]
fn digests_are_those_of_sha256() {
    assert_eq!(
        sha256_hex(b"abc"),
        "ba7816bf8f01cfea414140de5dae2223b00361a396177a9cb410ff61f20015ad"
    );
    assert_eq!(
        sha256_hex(b""),
        "e3b0c44298fc1c149afbf4c8996fb92427ae41e4649b934ca495991b7852b855"
    );
}

#[test]
fn workspace_hash_is_that_of_the_normal_path() {
    assert_eq!(
        workspace_hash(r"C:\work\.\repo\src\.."),
        workspace_hash(r"C:\work\repo")
    );
    assert_ne!(workspace_hash(r"C:\work\repo"), workspace_hash(r"C:\work\other"));
    assert_eq!(workspace_hash(r"C:\work\repo").len(), 64);
}

#[test]
fn texts_are_compared_whole() {
    assert!(constant_time_eq("token", "token"));
    assert!(!constant_time_eq("token", "tokem"));
    assert!(!constant_time_eq("token", "toke"));
    assert!(constant_time_eq("", ""));
}

#[test]
fn codes_are_drawn_from_their_alphabet() {
    assert_eq!(code_from_bytes(None, &vec![0, 1, 2, 31, 32]), "ABC9A");
    assert_eq!(code_from_bytes(Some('S'), &vec![0, 0]), "SAA");
    let code = random_code(Some('A'), 4);
    assert_eq!(code.len(), 5);
    assert!(code.starts_with('A'));
    assert!(code.chars().all(|c| c.is_ascii_uppercase() || c.is_ascii_digit()));
    assert_ne!(random_code(None, 20), random_code(None, 20));
}

#[test]
fn secrets_are_replaced_wherever_they_stand() {
    assert_eq!(redact_text("nothing to hide"), "nothing to hide");
    assert_eq!(redact_text("password = hunter2"), REDACTED);
    assert!(contains_secret_value("password = hunter2"));
    assert!(!contains_secret_value("tests passed"));
    let value = Json::object().with(
        "outer",
        Json::array().and(Json::object().with("api_key", Json::text("plain"))),
    );
    assert!(contains_secret_key(&value));
    assert!(!contains_secret_key(&Json::object().with("path", Json::text("a"))));
    assert!(!compact_text(&redact_json(&value)).contains("plain"));
}

#[test]
fn agent_content_has_bounds() {
    assert_eq!(validate_agent_content("  done  ", 10).expect("content"), "done");
    assert!(validate_agent_content("   ", 10).is_err());
    assert!(validate_agent_content("12345678901", 10).is_err());
    assert!(validate_agent_content("1234567890", 10).is_ok());
    assert_eq!(
        validate_agent_content("password = hunter2", 100).expect("content"),
        REDACTED
    );
    assert_eq!(
        validate_agent_content("12345678901", 10).expect_err("too long"),
        "content exceeds the 10-character limit"
    );
    assert_eq!(
        validate_agent_content(" ", 10).expect_err("empty"),
        "content must not be empty"
    );
}

#[test]
fn names_of_tools_are_brought_into_one_form() {
    assert_eq!(normalize_tool_name("Apply_Patch"), "apply-patch");
    assert_eq!(normalize_tool_name("mcp.tool_name"), "mcp-tool-name");
}

#[test]
fn workspaces_are_shown_by_their_last_name() {
    assert_eq!(display_workspace_path(r"C:\work\repo"), r"...\repo");
    assert_eq!(display_workspace_path(r"C:\"), "[workspace]");
}

#[test]
fn paths_are_held_against_their_root() {
    assert!(path_is_within(r"C:\work\repo\src", r"C:\work\repo"));
    assert!(path_is_within(r"c:\WORK\repo", r"C:\work\repo"));
    assert!(path_is_within("C:/work/repo/a", r"C:\work\repo"));
    assert!(!path_is_within(r"C:\work\repo\..\other", r"C:\work\repo"));
    assert!(!path_is_within(r"D:\work\repo", r"C:\work\repo"));
    assert!(path_is_within(r"\\server\share\a", r"\\server\share"));
    assert!(is_absolute(r"C:\work"));
    assert!(!is_absolute("work"));
    assert_eq!(plain_text(r"\\?\C:\work"), r"C:\work");
    assert_eq!(plain_text(r"\\?\UNC\server\share"), r"\\server\share");
    assert_eq!(path_text(&normalize_path(r"C:\a\.\b\..\c")), r"C:\a\c");
    assert_eq!(child_path(r"C:\a", "b"), r"C:\a\b");
}

#[test]
fn json_is_written_without_spaces() {
    let value = Json::object()
        .with("b", Json::array().and(Json::Null).and(Json::Bool(true)))
        .with("a", Json::text("say \"hi\"\n"))
        .with("n", Json::number(7));
    assert_eq!(
        compact_text(&value),
        "{\"b\":[null,true],\"a\":\"say \\\"hi\\\"\\n\",\"n\":7}"
    );
    assert_eq!(
        canonical_json(&value),
        "{\"a\":\"say \\\"hi\\\"\\n\",\"b\":[null,true],\"n\":7}"
    );
    assert_eq!(
        compact_text(&canonicalize(&value)),
        compact_text(&canonicalize(&canonicalize(&value)))
    );
}

#[test]
fn json_gives_what_it_holds() {
    let value = Json::object()
        .with("text", Json::text("a"))
        .with("number", Json::number(u64::MAX))
        .with("flag", Json::Bool(false));
    assert_eq!(value.get_text("text").as_deref(), Some("a"));
    assert_eq!(value.get("number").expect("number").as_u64(), Some(u64::MAX));
    assert_eq!(value.get("flag").expect("flag").as_bool(), Some(false));
    assert!(value.get("missing").is_none());
    assert!(value.get_text("flag").is_none());
    assert!(Json::Number("-1".to_owned()).as_u64().is_none());
    assert!(Json::Number("1.5".to_owned()).as_u64().is_none());
}

#[test]
fn texts_are_taken_apart() {
    assert_eq!(to_upper("ab-c1"), "AB-C1");
    assert_eq!(trimmed("\t a b \n"), "a b");
    assert_eq!(words("  cargo   test  "), vec!["cargo", "test"]);
    assert_eq!(text_lines("a\r\nb\n\nc"), vec!["a", "b", "", "c"]);
    assert_eq!(split_text("/a//b", Separator::Slash), vec!["", "a", "", "b"]);
    assert_eq!(decimal_text(0), "0");
    assert_eq!(decimal_text(1_050), "1050");
    assert_eq!(integer_text(-42), "-42");
    assert_eq!(parse_number("0042", 100), Some(42));
    assert_eq!(parse_number("101", 100), None);
    assert_eq!(parse_number("", 100), None);
    assert!(text_contains("abcabc", "cab"));
    assert!(!text_contains("abc", "abcd"));
    assert_eq!(truncate_chars("字符串", 2), "字符");
}

#[test]
fn names_are_read_back() {
    assert_eq!(AhpHostState::from_label("unreachable"), Some(AhpHostState::Unreachable));
    assert_eq!(AhpHostState::from_label("nowhere"), None);
    assert_eq!(AhpTargetKind::from_label(AhpTargetKind::Ssh.as_str()), Some(AhpTargetKind::Ssh));
    assert_eq!(AhpEventKind::ToolStatus.as_str(), "tool_status");
    assert_eq!(AhpCommandOutcome::Applied.as_str(), "acked");
    assert_eq!(
        AhpCommandKind::try_from("prepare_target"),
        Ok(AhpCommandKind::PrepareTarget)
    );
    assert!(AhpCommandKind::try_from("mystery").is_err());
    assert_eq!(ApprovalState::try_from("allowed"), Ok(ApprovalState::Allowed));
    assert!(ApprovalState::try_from("mystery").is_err());
    assert_eq!(RiskLevel::parse_risk("forbidden"), Ok(RiskLevel::Forbidden));
    assert!(RiskLevel::parse_risk("mystery").is_err());
}
