use qq_copilot_remote::interactions::{NewAhpApproval, NewAhpInput};
use qq_copilot_remote::json::Json;
use qq_copilot_remote::migration::{
    migrate_ahp_schema, needs_command_kinds, LegacyBinding, Step, TableInfo,
};
use qq_copilot_remote::protocol::{
    AhpAdapterRegistration, AhpBindingRecord, AhpCommandKind, AhpCommandOutcome, AhpEventKind,
    AhpHostDescriptor, AhpHostState, AhpPublishedEvent, AhpSessionDescriptor, AhpTargetKind,
};
use qq_copilot_remote::security::sha256_hex;
use qq_copilot_remote::store::{
    CommandRow, CommandState, Database, MAX_TRACKED_AHP_SESSIONS,
};
use qq_copilot_remote::wizard::AhpCreationWizardRecord;

const NOW: i64 = 1_788_000_000;

fn registration(instance: &str) -> AhpAdapterRegistration {
    AhpAdapterRegistration {
        adapter_id: "adapter-stable".to_owned(),
        adapter_instance_id: instance.to_owned(),
        version: "0.1.0".to_owned(),
        supported_protocols: vec!["1.0.0".to_owned()],
    }
}

fn host(instance: &str) -> AhpHostDescriptor {
    AhpHostDescriptor {
        endpoint_id: "endpoint-1".to_owned(),
        host_instance_id: instance.to_owned(),
        pid: 42,
        advertised_protocol: "1.0.0".to_owned(),
        selected_protocol: Some("1.0.0".to_owned()),
        state: AhpHostState::Connected,
        host_label: Some("local".to_owned()),
        ssh_alias: None,
        target_kind: Some(AhpTargetKind::Local),
        target_path: Some(r"C:\test".to_owned()),
        endpoint_type: Some("socket".to_owned()),
        editor_client_tools_available: Some(true),
        last_seen_at: Some(NOW),
    }
}

fn session(instance: &str) -> AhpSessionDescriptor {
    AhpSessionDescriptor {
        short_code: None,
        endpoint_id: "endpoint-1".to_owned(),
        host_instance_id: instance.to_owned(),
        session_uri: "copilot:/session-1".to_owned(),
        provider: "copilot".to_owned(),
        title: "Shared session".to_owned(),
        status: 1,
        workspace_uris: vec!["file:///c%3A/test".to_owned()],
        created_at: "2026-08-27T00:00:00Z".to_owned(),
        modified_at: "2026-08-27T00:00:00Z".to_owned(),
        host_label: Some("local".to_owned()),
        ssh_alias: None,
        target_kind: Some(AhpTargetKind::Local),
        target_path: Some(r"C:\test".to_owned()),
        editor_client_tools_available: Some(true),
        host_state: None,
        host_last_seen_at: None,
    }
}

fn numbered_session(number: usize, status: u32) -> AhpSessionDescriptor {
    AhpSessionDescriptor {
        short_code: None,
        endpoint_id: "endpoint-1".to_owned(),
        host_instance_id: "host-1".to_owned(),
        session_uri: format!("copilot:/session-{number}"),
        provider: "copilot".to_owned(),
        title: format!("Session {number}"),
        status,
        workspace_uris: vec![format!("file:///c%3A/session-{number}")],
        created_at: format!("2026-08-27T00:{number:02}:00Z"),
        modified_at: format!("2026-08-27T00:{number:02}:00Z"),
        host_label: Some("local".to_owned()),
        ssh_alias: None,
        target_kind: Some(AhpTargetKind::Local),
        target_path: Some(format!(r"C:\session-{number}")),
        editor_client_tools_available: Some(true),
        host_state: None,
        host_last_seen_at: None,
    }
}

fn catalogued() -> Database {
    let mut database = Database::new();
    database
        .ahp_register_adapter(&registration("adapter-run-1"), NOW)
        .expect("register");
    database
        .ahp_replace_catalog(
            "adapter-stable",
            "adapter-run-1",
            &[host("host-1")],
            &[session("host-1")],
            NOW,
        )
        .expect("catalogue");
    database
}

fn acknowledge_and_ready_binding(
    database: &mut Database,
    binding: &AhpBindingRecord,
    chat_uri: &str,
) {
    let commands = database
        .ahp_poll_commands("adapter-stable", "adapter-run-1", 60, NOW)
        .expect("bind command");
    let command = commands
        .iter()
        .find(|command| {
            command.binding_id == binding.binding_id && command.kind == AhpCommandKind::BindSession
        })
        .expect("target bind command");
    database
        .ahp_ack_command(
            "adapter-stable",
            "adapter-run-1",
            command.command_id,
            AhpCommandOutcome::Applied,
            None,
            None,
            NOW,
        )
        .expect("ack bind");
    database
        .ahp_binding_ready(
            "adapter-stable",
            "adapter-run-1",
            &binding.binding_id,
            &binding.endpoint_id,
            binding.host_instance_id.as_deref().expect("host instance"),
            binding.generation,
            &binding.session_uri,
            chat_uri,
            1,
            NOW,
        )
        .expect("binding ready");
}

fn bound_database() -> (Database, AhpBindingRecord) {
    let mut database = catalogued();
    let binding = database
        .ahp_bind_session("endpoint-1", "copilot:/session-1", NOW)
        .expect("bind");
    let bind_commands = database
        .ahp_poll_commands("adapter-stable", "adapter-run-1", 60, NOW)
        .expect("bind command");
    database
        .ahp_ack_command(
            "adapter-stable",
            "adapter-run-1",
            bind_commands[0].command_id,
            AhpCommandOutcome::Applied,
            None,
            None,
            NOW,
        )
        .expect("ack bind");
    database
        .ahp_binding_ready(
            "adapter-stable",
            "adapter-run-1",
            &binding.binding_id,
            "endpoint-1",
            "host-1",
            binding.generation,
            "copilot:/session-1",
            "ahp-chat://default/session",
            10,
            NOW,
        )
        .expect("binding ready");
    let binding = database.ahp_binding().expect("binding").expect("bound");
    (database, binding)
}

fn chat_snapshot(name: &str, sequence: u64, turn: Option<&str>, minute: u32) -> AhpPublishedEvent {
    let active = match turn {
        Some(turn) => Json::text(turn),
        None => Json::Null,
    };
    AhpPublishedEvent {
        event_id: sha256_hex(name.as_bytes()),
        host_instance_id: "host-1".to_owned(),
        server_sequence: Some(sequence),
        session_uri: "copilot:/session-1".to_owned(),
        chat_uri: Some("ahp-chat://default/session".to_owned()),
        turn_id: turn.map(str::to_owned),
        kind: AhpEventKind::ChatSnapshot,
        origin_client_id: None,
        occurred_at: format!("2026-08-27T00:{minute:02}:00Z"),
        data: Json::object()
            .with("active_turn_id", active)
            .with("queued_message_count", Json::number(0)),
    }
}

const LEGACY_COMMANDS: &str = "CREATE TABLE ahp_commands (
    command_id INTEGER PRIMARY KEY AUTOINCREMENT,
    command_key TEXT NOT NULL UNIQUE,
    binding_generation INTEGER NOT NULL,
    kind TEXT NOT NULL CHECK (
        kind IN (
            'bind_session', 'unbind_session', 'send_message', 'cancel_turn',
            'approve_tool', 'review_tool_result', 'complete_input'
        )
    ),
    data_json TEXT NOT NULL,
    state TEXT NOT NULL CHECK (
        state IN ('pending', 'leased', 'acked', 'rejected', 'failed')
    ),
    lease_owner TEXT,
    lease_expires_at INTEGER,
    error_code TEXT,
    created_at INTEGER NOT NULL,
    updated_at INTEGER NOT NULL
)";

fn legacy_commands() -> TableInfo {
    TableInfo {
        name: "ahp_commands".to_owned(),
        columns: [
            "command_id",
            "command_key",
            "binding_generation",
            "kind",
            "data_json",
            "state",
            "lease_owner",
            "lease_expires_at",
            "error_code",
            "created_at",
            "updated_at",
        ]
        .iter()
        .map(|name| (*name).to_owned())
        .collect(),
        sql: LEGACY_COMMANDS.to_owned(),
    }
}

#[test]
fn migration_expands_existing_command_kind_constraint() {
    assert!(needs_command_kinds(LEGACY_COMMANDS));
    let steps = migrate_ahp_schema(&vec![legacy_commands()]);
    assert_eq!(
        steps
            .iter()
            .filter(|step| matches!(step, Step::WidenCommands))
            .count(),
        1
    );
    assert!(steps.iter().any(
        |step| matches!(step, Step::AddColumn(sql) if sql.contains("ahp_commands")
            && sql.contains("binding_id"))
    ));

    let mut database = Database::new();
    database.commands.push(CommandRow {
        command_id: 1,
        command_key: "legacy-bind".to_owned(),
        binding_id: "__unbound__".to_owned(),
        binding_generation: 1,
        kind: AhpCommandKind::BindSession,
        data: Json::object(),
        state: CommandState::Acked,
        lease_owner: None,
        lease_expires_at: None,
        error_code: None,
        result: None,
        progress: None,
        created_at: 1,
        updated_at: 1,
    });
    database.next_command_id = 2;
    let prepared = database.ahp_enqueue_prepare_target("prepare", &Json::object(), NOW);
    assert_eq!(prepared, 2);
    let legacy_count = database
        .commands
        .iter()
        .filter(|command| command.command_key == "legacy-bind")
        .count();
    assert_eq!(legacy_count, 1);
}

#[test]
fn catalog_bind_and_command_ack_round_trip() {
    let mut database = catalogued();
    let binding = database
        .ahp_bind_session("endpoint-1", "copilot:/session-1", NOW)
        .expect("bind");
    assert_eq!(binding.state, "binding");
    let commands = database
        .ahp_poll_commands("adapter-stable", "adapter-run-1", 60, NOW)
        .expect("poll");
    assert_eq!(commands.len(), 1);
    assert_eq!(commands[0].kind, AhpCommandKind::BindSession);
    database
        .ahp_ack_command(
            "adapter-stable",
            "adapter-run-1",
            commands[0].command_id,
            AhpCommandOutcome::Applied,
            None,
            None,
            NOW,
        )
        .expect("ack");
}

#[test]
fn host_instance_change_fails_binding_and_pending_commands() {
    let mut database = catalogued();
    database
        .ahp_bind_session("endpoint-1", "copilot:/session-1", NOW)
        .expect("bind");
    database
        .ahp_replace_catalog(
            "adapter-stable",
            "adapter-run-1",
            &[host("host-2")],
            &[session("host-2")],
            NOW,
        )
        .expect("replacement catalogue");
    let binding = database.ahp_binding().expect("binding").expect("bound");
    assert_eq!(binding.state, "lost");
    assert_eq!(database.ahp_status(60, NOW).expect("status").pending_commands, 0);
}

#[test]
fn partial_catalogue_does_not_fail_bindings_on_other_hosts() {
    let mut database = catalogued();
    let binding = database
        .ahp_bind_session("endpoint-1", "copilot:/session-1", NOW)
        .expect("bind");

    let mut other_host = host("host-2");
    other_host.endpoint_id = "endpoint-2".to_owned();
    let mut other_session = session("host-2");
    other_session.endpoint_id = "endpoint-2".to_owned();
    other_session.session_uri = "copilot:/session-2".to_owned();
    database
        .ahp_replace_catalog_scoped(
            "adapter-stable",
            "adapter-run-1",
            &[other_host],
            &[other_session],
            false,
            NOW,
        )
        .expect("partial catalogue");

    let unchanged = database
        .ahp_binding_for_session(&binding.session_uri)
        .expect("binding query")
        .expect("binding");
    assert_eq!(unchanged.state, "binding");
    assert_eq!(database.ahp_status(60, NOW).expect("status").pending_commands, 1);
}

fn password_event() -> AhpPublishedEvent {
    AhpPublishedEvent {
        event_id: sha256_hex(b"event-1"),
        host_instance_id: "host-1".to_owned(),
        server_sequence: Some(11),
        session_uri: "copilot:/session-1".to_owned(),
        chat_uri: Some("ahp-chat://default/session".to_owned()),
        turn_id: Some("turn-1".to_owned()),
        kind: AhpEventKind::ToolStatus,
        origin_client_id: None,
        occurred_at: "2026-08-27T00:00:01Z".to_owned(),
        data: Json::object().with("password", Json::text("do-not-store")),
    }
}

#[test]
fn event_insert_is_idempotent_and_redacted() {
    let mut database = catalogued();
    let binding = database
        .ahp_bind_session("endpoint-1", "copilot:/session-1", NOW)
        .expect("bind");
    database
        .ahp_binding_ready(
            "adapter-stable",
            "adapter-run-1",
            &binding.binding_id,
            "endpoint-1",
            "host-1",
            binding.generation,
            "copilot:/session-1",
            "ahp-chat://default/session",
            10,
            NOW,
        )
        .expect("ready");
    assert_eq!(
        database
            .ahp_publish_events(
                "adapter-stable",
                "adapter-run-1",
                &binding.binding_id,
                binding.generation,
                &vec![password_event()],
                NOW,
            )
            .expect("first publish"),
        vec![sha256_hex(b"event-1")]
    );
    assert_eq!(database.events.len(), 1);
    assert!(!database.events[0].data_redacted.contains("do-not-store"));
    database
        .ahp_mark_event_processed(&sha256_hex(b"event-1"), NOW)
        .expect("mark processed");
    assert_eq!(
        database
            .ahp_publish_events(
                "adapter-stable",
                "adapter-run-1",
                &binding.binding_id,
                binding.generation,
                &vec![password_event()],
                NOW,
            )
            .expect("duplicate publish"),
        Vec::<String>::new()
    );
    assert_eq!(database.events.len(), 1);
}

fn approval(key: &str, binding: &AhpBindingRecord, turn: &str, tool: &str) -> NewAhpApproval {
    NewAhpApproval {
        approval_key: key.to_owned(),
        stage: "parameter".to_owned(),
        session_uri: binding.session_uri.clone(),
        chat_uri: binding.chat_uri.clone().expect("chat URI"),
        turn_id: turn.to_owned(),
        tool_call_id: tool.to_owned(),
        tool_name: "terminal".to_owned(),
        summary: "run tests".to_owned(),
        expires_at: NOW + 600,
    }
}

#[test]
fn qq_approval_submission_is_first_response_only() {
    let (mut database, binding) = bound_database();
    let approval = database
        .ahp_begin_approval(&approval("approval-1", &binding, "turn-1", "tool-1"), NOW)
        .expect("begin approval");
    assert!(approval.created);
    let submitted = database
        .ahp_submit_approval(&approval.record.short_code, true, "qq-message-1", NOW)
        .expect("submit approval")
        .expect("approval exists");
    assert_eq!(submitted.record.state, "submitted");
    assert!(submitted.accepted);
    let duplicate = database
        .ahp_submit_approval(&approval.record.short_code, false, "qq-message-2", NOW)
        .expect("duplicate decision")
        .expect("approval exists");
    assert_eq!(duplicate.record.state, "submitted");
    assert!(!duplicate.accepted);
    let commands = database
        .ahp_poll_commands("adapter-stable", "adapter-run-1", 60, NOW)
        .expect("approval command");
    assert_eq!(commands.len(), 1);
    assert_eq!(commands[0].kind, AhpCommandKind::ApproveTool);
    let resolved = database
        .ahp_resolve_approval("approval-1", true, Some("vscode-client"), NOW)
        .expect("approval");
    assert_eq!(resolved.state, "allowed");
}

#[test]
fn rejected_approval_submission_returns_to_pending_for_retry() {
    let (mut database, binding) = bound_database();
    let approval = database
        .ahp_begin_approval(
            &approval("approval-retry", &binding, "turn-retry", "tool-retry"),
            NOW,
        )
        .expect("begin approval");
    let first = database
        .ahp_submit_approval(&approval.record.short_code, true, "qq-message-1", NOW)
        .expect("submit approval")
        .expect("approval exists");
    assert!(first.accepted);
    let commands = database
        .ahp_poll_commands("adapter-stable", "adapter-run-1", 60, NOW)
        .expect("approval command");
    database
        .ahp_ack_command(
            "adapter-stable",
            "adapter-run-1",
            commands[0].command_id,
            AhpCommandOutcome::Rejected,
            Some("stale-request"),
            None,
            NOW,
        )
        .expect("reject command");

    let retried = database
        .ahp_submit_approval(&approval.record.short_code, false, "qq-message-2", NOW)
        .expect("retry approval")
        .expect("approval exists");
    assert!(retried.accepted);
    assert_eq!(retried.record.state, "submitted");
}

#[test]
fn pending_input_validates_choices_and_enqueues_answer() {
    let (mut database, binding) = bound_database();
    let input = database
        .ahp_begin_input(
            &NewAhpInput {
                input_key: "input-1".to_owned(),
                session_uri: binding.session_uri,
                chat_uri: binding.chat_uri.expect("chat URI"),
                request_id: "request-1".to_owned(),
                prompt: "Choose environment".to_owned(),
                choices: vec!["test".to_owned(), "production".to_owned()],
                allow_freeform: false,
                selection_mode: "single".to_owned(),
                expires_at: NOW + 600,
            },
            NOW,
        )
        .expect("begin input");
    assert!(input.created);
    assert!(
        database
            .ahp_submit_input("input-1", "invalid", "qq-message-1", NOW)
            .is_err()
    );
    assert!(
        database
            .ahp_submit_input("input-1", "test", "qq-message-2", NOW)
            .expect("valid input")
    );
    let commands = database
        .ahp_poll_commands("adapter-stable", "adapter-run-1", 60, NOW)
        .expect("input command");
    assert_eq!(commands.len(), 1);
    assert_eq!(commands[0].kind, AhpCommandKind::CompleteInput);
    let resolution = database
        .ahp_resolve_input("input-1", "answered", Some("adapter-stable"), NOW)
        .expect("resolve input")
        .expect("input exists");
    assert!(resolution.transitioned);
    assert_eq!(resolution.record.state, "answered");
    assert_eq!(resolution.decided_by_surface.as_deref(), Some("qq_text"));
    let duplicate = database
        .ahp_resolve_input("input-1", "answered", Some("adapter-stable"), NOW)
        .expect("repeat input resolution")
        .expect("input exists");
    assert!(!duplicate.transitioned);
    assert_eq!(duplicate.decided_by_surface.as_deref(), Some("qq_text"));
}

#[test]
fn rejected_input_completion_returns_input_to_pending_for_retry() {
    let (mut database, binding) = bound_database();
    let input = database
        .ahp_begin_input(
            &NewAhpInput {
                input_key: "input-retry".to_owned(),
                session_uri: binding.session_uri,
                chat_uri: binding.chat_uri.expect("chat URI"),
                request_id: "request-retry".to_owned(),
                prompt: "Choose or enter a value".to_owned(),
                choices: vec!["test".to_owned()],
                allow_freeform: true,
                selection_mode: "single".to_owned(),
                expires_at: NOW + 600,
            },
            NOW,
        )
        .expect("begin input");
    assert!(
        database
            .ahp_submit_input("input-retry", "custom", "qq-message-rejected", NOW)
            .expect("submit input")
    );
    let commands = database
        .ahp_poll_commands("adapter-stable", "adapter-run-1", 60, NOW)
        .expect("input command");
    database
        .ahp_ack_command(
            "adapter-stable",
            "adapter-run-1",
            commands[0].command_id,
            AhpCommandOutcome::Rejected,
            Some("invalid-command"),
            None,
            NOW,
        )
        .expect("reject command");

    let pending = database
        .ahp_pending_input(NOW)
        .expect("pending input")
        .expect("input restored");
    assert_eq!(pending.short_code, input.record.short_code);
    assert!(
        database
            .ahp_submit_input("input-retry", "test", "qq-message-retry", NOW)
            .expect("retry input")
    );
}

#[test]
fn session_codes_are_stable_and_active_turn_survives_focus_switch() {
    let (mut database, binding) = bound_database();
    let original = database
        .ahp_list_sessions()
        .into_iter()
        .find(|session| session.session_uri == "copilot:/session-1")
        .expect("original session");
    let original_code = original.short_code.expect("short code");
    let second = AhpSessionDescriptor {
        session_uri: "copilot:/session-2".to_owned(),
        title: "Second session".to_owned(),
        created_at: "2026-08-27T00:01:00Z".to_owned(),
        modified_at: "2026-08-27T00:01:00Z".to_owned(),
        ..session("host-1")
    };
    database
        .ahp_replace_catalog(
            "adapter-stable",
            "adapter-run-1",
            &[host("host-1")],
            &[session("host-1"), second],
            NOW,
        )
        .expect("refresh catalogue");
    assert_eq!(
        database
            .ahp_session_by_code(&original_code)
            .expect("original")
            .session_uri,
        "copilot:/session-1"
    );
    database
        .ahp_publish_events(
            "adapter-stable",
            "adapter-run-1",
            &binding.binding_id,
            binding.generation,
            &vec![chat_snapshot("active-chat", 11, Some("turn-active"), 2)],
            NOW,
        )
        .expect("active snapshot");
    let second_binding = database
        .ahp_bind_session("endpoint-1", "copilot:/session-2", NOW)
        .expect("focus second session");
    assert!(second_binding.foreground);
    let bindings = database.ahp_bindings().expect("tracked bindings");
    assert_eq!(bindings.len(), 2);
    assert_eq!(
        bindings
            .iter()
            .find(|binding| binding.session_uri == "copilot:/session-1")
            .and_then(|binding| binding.active_turn_id.as_deref()),
        Some("turn-active")
    );
    database
        .ahp_publish_events(
            "adapter-stable",
            "adapter-run-1",
            &binding.binding_id,
            binding.generation,
            &vec![chat_snapshot("idle-chat", 12, None, 3)],
            NOW,
        )
        .expect("idle snapshot");
    let session_uris = vec![
        "copilot:/session-1".to_owned(),
        "copilot:/session-2".to_owned(),
    ];
    let buttons = database
        .ahp_create_session_switch_buttons(&session_uris, 600, NOW)
        .expect("switch buttons");
    let second_button = buttons
        .iter()
        .find(|button| button.session.session_uri == "copilot:/session-2")
        .expect("second button");
    let switched = database
        .ahp_switch_session_by_button(&second_button.button_data, &session_uris, NOW)
        .expect("switch")
        .expect("button exists");
    assert!(switched.accepted);
    assert_eq!(switched.session.session_uri, "copilot:/session-2");
    assert_eq!(switched.binding.generation, binding.generation + 1);
    let replay = database
        .ahp_switch_session_by_button(&second_button.button_data, &session_uris, NOW)
        .expect("replay")
        .expect("button exists");
    assert!(!replay.accepted);
}

#[test]
fn switch_allows_busy_target_and_keeps_previous_binding() {
    let (mut database, original_binding) = bound_database();
    let busy = AhpSessionDescriptor {
        session_uri: "copilot:/busy-session".to_owned(),
        title: "Busy session".to_owned(),
        status: 1 << 3,
        workspace_uris: vec!["file:///c%3A/other".to_owned()],
        created_at: "2026-08-27T00:01:00Z".to_owned(),
        modified_at: "2026-08-27T00:01:00Z".to_owned(),
        ..session("host-1")
    };
    database
        .ahp_replace_catalog(
            "adapter-stable",
            "adapter-run-1",
            &[host("host-1")],
            &[session("host-1"), busy],
            NOW,
        )
        .expect("catalogue");

    let focused = database
        .ahp_bind_session("endpoint-1", "copilot:/busy-session", NOW)
        .expect("focus busy target");
    assert_eq!(focused.session_uri, "copilot:/busy-session");
    assert!(focused.foreground);
    let binding = database
        .ahp_binding()
        .expect("binding query")
        .expect("foreground binding");
    assert_eq!(binding.binding_id, focused.binding_id);
    let bindings = database.ahp_bindings().expect("tracked bindings");
    assert_eq!(bindings.len(), 2);
    assert!(bindings.iter().any(|binding| {
        binding.binding_id == original_binding.binding_id && !binding.foreground
    }));
}

#[test]
fn switch_button_cannot_bind_outside_allowed_session_set() {
    let (mut database, original_binding) = bound_database();
    let outside = AhpSessionDescriptor {
        session_uri: "copilot:/outside-session".to_owned(),
        title: "Outside session".to_owned(),
        workspace_uris: vec!["file:///c%3A/outside".to_owned()],
        created_at: "2026-08-27T00:01:00Z".to_owned(),
        modified_at: "2026-08-27T00:01:00Z".to_owned(),
        ..session("host-1")
    };
    database
        .ahp_replace_catalog(
            "adapter-stable",
            "adapter-run-1",
            &[host("host-1")],
            &[session("host-1"), outside],
            NOW,
        )
        .expect("catalogue");
    let buttons = database
        .ahp_create_session_switch_buttons(&vec!["copilot:/outside-session".to_owned()], 600, NOW)
        .expect("switch button");

    let rejected = database
        .ahp_switch_session_by_button(
            &buttons[0].button_data,
            &vec!["copilot:/session-1".to_owned()],
            NOW,
        )
        .expect("reject switch");
    assert!(rejected.is_none());
    let binding = database
        .ahp_binding()
        .expect("binding query")
        .expect("single binding");
    assert_eq!(binding.generation, original_binding.generation);
    assert_eq!(binding.session_uri, "copilot:/session-1");
}

#[test]
fn independent_focus_button_groups_do_not_invalidate_each_other() {
    let (mut database, _) = bound_database();
    let session_uris = vec!["copilot:/session-1".to_owned()];
    let first = database
        .ahp_create_session_switch_buttons(&session_uris, 600, NOW)
        .expect("first focus button")
        .remove(0);
    let second = database
        .ahp_create_session_switch_buttons(&session_uris, 600, NOW)
        .expect("second focus button")
        .remove(0);

    assert!(
        database
            .ahp_switch_session_by_button(&first.button_data, &session_uris, NOW)
            .expect("first switch")
            .expect("first button")
            .accepted
    );
    assert!(
        database
            .ahp_switch_session_by_button(&second.button_data, &session_uris, NOW)
            .expect("second switch")
            .expect("second button")
            .accepted
    );
}

fn first_code(database: &Database) -> String {
    database
        .ahp_list_sessions()
        .into_iter()
        .next()
        .expect("session")
        .short_code
        .expect("short code")
}

#[test]
fn session_code_survives_transient_empty_catalogue() {
    let mut database = catalogued();
    let original = first_code(&database);
    database
        .ahp_replace_catalog("adapter-stable", "adapter-run-1", &[], &[], NOW)
        .expect("empty catalogue");
    assert!(matches!(
        database
            .ahp_status(60, NOW)
            .expect("status")
            .hosts
            .first()
            .expect("cached host")
            .state,
        AhpHostState::Unreachable
    ));
    assert_eq!(first_code(&database), original);
    database
        .ahp_replace_catalog(
            "adapter-stable",
            "adapter-run-1",
            &[host("host-1")],
            &[session("host-1")],
            NOW,
        )
        .expect("restored catalogue");
    assert_eq!(first_code(&database), original);
}

#[test]
fn approval_command_targets_origin_binding_after_focus_change() {
    let (mut database, first_binding) = bound_database();
    let second = numbered_session(2, 1);
    database
        .ahp_replace_catalog(
            "adapter-stable",
            "adapter-run-1",
            &[host("host-1")],
            &[session("host-1"), second],
            NOW,
        )
        .expect("catalogue");
    let second_binding = database
        .ahp_bind_session("endpoint-1", "copilot:/session-2", NOW)
        .expect("focus second");
    acknowledge_and_ready_binding(
        &mut database,
        &second_binding,
        "ahp-chat://default/session-2",
    );

    let approval = database
        .ahp_begin_approval(
            &NewAhpApproval {
                approval_key: "approval-origin".to_owned(),
                stage: "parameter".to_owned(),
                session_uri: first_binding.session_uri.clone(),
                chat_uri: first_binding.chat_uri.clone().expect("first chat"),
                turn_id: "turn-first".to_owned(),
                tool_call_id: "tool-first".to_owned(),
                tool_name: "Terminal".to_owned(),
                summary: "Run command".to_owned(),
                expires_at: NOW + 600,
            },
            NOW,
        )
        .expect("approval");
    database
        .ahp_submit_approval(&approval.record.short_code, true, "qq-approval-origin", NOW)
        .expect("submit approval")
        .expect("approval exists");
    let commands = database
        .ahp_poll_commands("adapter-stable", "adapter-run-1", 60, NOW)
        .expect("approval command");
    assert_eq!(commands.len(), 1);
    assert_eq!(commands[0].binding_id, first_binding.binding_id);
    assert_eq!(commands[0].kind, AhpCommandKind::ApproveTool);
    assert_eq!(
        database
            .ahp_binding()
            .expect("foreground")
            .expect("binding")
            .binding_id,
        second_binding.binding_id
    );
}

fn six_sessions() -> Vec<AhpSessionDescriptor> {
    let mut sessions = vec![session("host-1")];
    sessions.extend((2..=6).map(|number| numbered_session(number, 1)));
    sessions
}

#[test]
fn sixth_session_evicts_only_an_idle_background_binding() {
    let (mut database, first_binding) = bound_database();
    database
        .ahp_replace_catalog(
            "adapter-stable",
            "adapter-run-1",
            &[host("host-1")],
            &six_sessions(),
            NOW,
        )
        .expect("catalogue");

    for number in 2..=5 {
        let binding = database
            .ahp_track_session("endpoint-1", &format!("copilot:/session-{number}"), NOW)
            .expect("track background Session");
        acknowledge_and_ready_binding(
            &mut database,
            &binding,
            &format!("ahp-chat://default/session-{number}"),
        );
    }
    assert_eq!(database.ahp_bindings().expect("five bindings").len(), 5);

    let sixth = database
        .ahp_track_session("endpoint-1", "copilot:/session-6", NOW)
        .expect("track sixth Session");
    let bindings = database.ahp_bindings().expect("tracked bindings");
    assert_eq!(bindings.len(), 5);
    assert!(
        bindings
            .iter()
            .any(|binding| binding.binding_id == sixth.binding_id)
    );
    assert!(
        bindings
            .iter()
            .any(|binding| binding.binding_id == first_binding.binding_id && binding.foreground)
    );
    let commands = database
        .ahp_poll_commands("adapter-stable", "adapter-run-1", 60, NOW)
        .expect("eviction commands");
    assert_eq!(commands.len(), 2);
    assert_eq!(commands[0].kind, AhpCommandKind::UnbindSession);
    assert_eq!(commands[1].kind, AhpCommandKind::BindSession);
    assert_eq!(commands[1].binding_id, sixth.binding_id);
}

#[test]
fn sixth_session_is_rejected_when_all_tracked_bindings_are_protected() {
    let (mut database, _) = bound_database();
    database
        .ahp_replace_catalog(
            "adapter-stable",
            "adapter-run-1",
            &[host("host-1")],
            &six_sessions(),
            NOW,
        )
        .expect("catalogue");

    for number in 2..=5 {
        let binding = database
            .ahp_track_session("endpoint-1", &format!("copilot:/session-{number}"), NOW)
            .expect("track background Session");
        acknowledge_and_ready_binding(
            &mut database,
            &binding,
            &format!("ahp-chat://default/session-{number}"),
        );
        database
            .ahp_publish_events(
                "adapter-stable",
                "adapter-run-1",
                &binding.binding_id,
                binding.generation,
                &vec![AhpPublishedEvent {
                    event_id: sha256_hex(format!("active-{number}").as_bytes()),
                    host_instance_id: "host-1".to_owned(),
                    server_sequence: Some(10 + number as u64),
                    session_uri: binding.session_uri.clone(),
                    chat_uri: binding.chat_uri.clone(),
                    turn_id: Some(format!("turn-{number}")),
                    kind: AhpEventKind::TurnStarted,
                    origin_client_id: None,
                    occurred_at: format!("2026-08-27T00:{number:02}:30Z"),
                    data: Json::object(),
                }],
                NOW,
            )
            .expect("mark background Session active");
    }

    let error = database
        .ahp_track_session("endpoint-1", "copilot:/session-6", NOW)
        .expect_err("all five protected bindings must reject the sixth Session");
    assert!(error.message.contains("all five tracked AHP Sessions"));
    let bindings = database.ahp_bindings().expect("tracked bindings");
    assert_eq!(bindings.len(), MAX_TRACKED_AHP_SESSIONS);
    assert!(
        bindings
            .iter()
            .all(|binding| binding.session_uri != "copilot:/session-6")
    );
}

#[test]
fn failed_unbind_command_can_be_retried() {
    let (mut database, _) = bound_database();
    database
        .ahp_replace_catalog(
            "adapter-stable",
            "adapter-run-1",
            &[host("host-1")],
            &[session("host-1"), numbered_session(2, 1)],
            NOW,
        )
        .expect("catalogue");
    let binding = database
        .ahp_track_session("endpoint-1", "copilot:/session-2", NOW)
        .expect("track background Session");
    acknowledge_and_ready_binding(&mut database, &binding, "ahp-chat://default/session-2");

    assert!(
        database
            .ahp_detach_session(&binding.session_uri, NOW)
            .expect("detach")
    );
    let first = database
        .ahp_poll_commands("adapter-stable", "adapter-run-1", 60, NOW)
        .expect("first unbind command")
        .into_iter()
        .find(|command| command.kind == AhpCommandKind::UnbindSession)
        .expect("unbind command");
    database
        .ahp_ack_command(
            "adapter-stable",
            "adapter-run-1",
            first.command_id,
            AhpCommandOutcome::Failed,
            Some("temporary_failure"),
            None,
            NOW,
        )
        .expect("fail unbind");

    assert!(
        database
            .ahp_detach_session(&binding.session_uri, NOW)
            .expect("retry detach")
    );
    let retried = database
        .ahp_poll_commands("adapter-stable", "adapter-run-1", 60, NOW)
        .expect("retried unbind command")
        .into_iter()
        .find(|command| command.kind == AhpCommandKind::UnbindSession)
        .expect("retried command");
    assert_eq!(retried.command_id, first.command_id);
    database
        .ahp_ack_command(
            "adapter-stable",
            "adapter-run-1",
            retried.command_id,
            AhpCommandOutcome::Applied,
            None,
            None,
            NOW,
        )
        .expect("complete retry");
    assert!(
        database
            .ahp_binding_for_session(&binding.session_uri)
            .expect("binding query")
            .is_none()
    );
}

#[test]
fn legacy_singleton_binding_is_migrated_to_foreground_binding() {
    let mut database = Database::new();
    database
        .migrate_legacy_binding(
            Some(LegacyBinding {
                generation: 7,
                endpoint_id: "endpoint-legacy".to_owned(),
                host_instance_id: Some("host-legacy".to_owned()),
                session_uri: "copilot:/legacy".to_owned(),
                chat_uri: Some("ahp-chat://legacy".to_owned()),
                state: "bound".to_owned(),
                last_server_sequence: 42,
                active_turn_id: None,
                queued_message_count: 0,
                error_code: None,
                updated_at: 1234,
            }),
            &vec![],
            &vec![],
            NOW,
        )
        .expect("migrate database");
    let binding = database
        .ahp_binding()
        .expect("foreground query")
        .expect("migrated binding");
    assert!(binding.binding_id.starts_with("legacy-"));
    assert_eq!(binding.generation, 7);
    assert_eq!(binding.session_uri, "copilot:/legacy");
    assert_eq!(binding.last_server_sequence, 42);
    assert!(binding.foreground);
    assert_eq!(database.ahp_bindings().expect("bindings").len(), 1);
}

fn local_target(path: &str) -> Json {
    Json::object()
        .with("kind", Json::text("local"))
        .with("path", Json::text(path))
}

#[test]
fn creation_wizard_buttons_and_trust_requests_round_trip() {
    let mut database = Database::new();
    let wizard = AhpCreationWizardRecord {
        wizard_id: "wizard-1".to_owned(),
        mode: "advanced".to_owned(),
        state: "select_target".to_owned(),
        context: Some(Json::object().with("step", Json::text("target"))),
        pending_task: None,
        create_command_id: None,
        new_session_uri: None,
        old_binding_endpoint_id: None,
        old_binding_session_uri: None,
        old_binding_host_instance_id: None,
        cancel_requested: false,
        expires_at: NOW + 600,
        created_at: NOW,
        updated_at: NOW,
    };
    database
        .ahp_save_creation_wizard(&wizard)
        .expect("save wizard");
    let buttons = database
        .ahp_create_wizard_buttons(
            "wizard-1",
            "target",
            &vec![local_target(r"C:\test"), local_target(r"C:\other")],
            600,
            NOW,
        )
        .expect("create wizard buttons");
    assert_eq!(buttons.len(), 2);
    let consumed = database
        .ahp_consume_wizard_button(&buttons[0].button_data, NOW)
        .expect("button exists");
    assert_eq!(consumed.wizard_id, "wizard-1");
    assert_eq!(consumed.action_kind, "target");
    assert!(
        database
            .ahp_consume_wizard_button(&buttons[1].button_data, NOW)
            .is_none()
    );

    let request = database
        .ahp_begin_trust_request("trust-1", "file:///C:/test", true, 600, NOW)
        .expect("begin trust request");
    assert!(!request.trusted);
    let listed = database.ahp_pending_trust_requests(NOW);
    assert_eq!(listed.len(), 1);
    assert_eq!(listed[0].request_id, "trust-1");
    assert_eq!(
        database.ahp_report_workspace_trust(&vec!["file:///C:/test".to_owned()], true, NOW),
        1
    );
    assert!(
        database
            .ahp_trust_request("trust-1", NOW)
            .expect("request")
            .trusted
    );
}

#[test]
fn identifiers_are_written_with_hyphens() {
    let mut database = catalogued();
    let binding = database
        .ahp_bind_session("endpoint-1", "copilot:/session-1", NOW)
        .expect("bind");
    let groups = binding.binding_id.split('-').map(str::len).collect::<Vec<_>>();
    assert_eq!(groups, [8, 4, 4, 4, 12]);
    assert!(
        binding
            .binding_id
            .chars()
            .all(|c| c == '-' || c.is_ascii_digit() || ('a'..='f').contains(&c))
    );
}
