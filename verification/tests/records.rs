use qq_copilot_remote::agents::{BindOutcome, NewApproval, NewQuestion};
use qq_copilot_remote::config::Failure;
use qq_copilot_remote::interactions::{NewAhpApproval, NewAhpInput};
use qq_copilot_remote::json::{compact_text, Json};
use qq_copilot_remote::messages::NewDelivery;
use qq_copilot_remote::migration::{
    fill_button_data, fill_session_codes, migrate_ahp_schema, needs_command_kinds, Step,
};
use qq_copilot_remote::protocol::{
    AhpAdapterRegistration, AhpBindingRecord, AhpCommandKind, AhpCommandOutcome, AhpEventKind,
    AhpHostDescriptor, AhpHostState, AhpPublishedEvent, AhpSessionDescriptor, ApprovalState,
    RiskLevel, StopDecision,
};
use qq_copilot_remote::store::{Database, SessionState};
use qq_copilot_remote::wizard::{creation_button_prefix, AhpCreationWizardRecord};

const NOW: i64 = 1_788_000_000;
const ADAPTER: &str = "adapter";
const RUN: &str = "run-1";

fn error_of<T>(r: Result<T, Failure>) -> String {
    match r {
        Ok(_) => panic!("it went well"),
        Err(f) => f.message,
    }
}

fn host(instance: &str) -> AhpHostDescriptor {
    AhpHostDescriptor {
        endpoint_id: "endpoint".to_owned(),
        host_instance_id: instance.to_owned(),
        pid: 1,
        advertised_protocol: "1.0.0".to_owned(),
        selected_protocol: None,
        state: AhpHostState::Connected,
        host_label: None,
        ssh_alias: None,
        target_kind: None,
        target_path: None,
        endpoint_type: None,
        editor_client_tools_available: None,
        last_seen_at: None,
    }
}

fn session(number: usize) -> AhpSessionDescriptor {
    AhpSessionDescriptor {
        short_code: None,
        endpoint_id: "endpoint".to_owned(),
        host_instance_id: "host".to_owned(),
        session_uri: format!("copilot:/{number}"),
        provider: "copilot".to_owned(),
        title: format!("Session {number}"),
        status: 1,
        workspace_uris: vec!["file:///work".to_owned()],
        created_at: "2026-08-27T00:00:00Z".to_owned(),
        modified_at: format!("2026-08-27T00:0{number}:00Z"),
        host_label: None,
        ssh_alias: None,
        target_kind: None,
        target_path: None,
        editor_client_tools_available: None,
        host_state: None,
        host_last_seen_at: None,
    }
}

fn registered(sessions: usize) -> Database {
    let mut database = Database::new();
    database
        .ahp_register_adapter(
            &AhpAdapterRegistration {
                adapter_id: ADAPTER.to_owned(),
                adapter_instance_id: RUN.to_owned(),
                version: "1".to_owned(),
                supported_protocols: vec!["1.0.0".to_owned()],
            },
            NOW,
        )
        .expect("register");
    let sessions: Vec<AhpSessionDescriptor> = (1..=sessions).map(session).collect();
    database
        .ahp_replace_catalog(ADAPTER, RUN, &[host("host")], &sessions, NOW)
        .expect("catalogue");
    database
}

fn ready(database: &mut Database, number: usize) -> AhpBindingRecord {
    let binding = database
        .ahp_bind_session("endpoint", &format!("copilot:/{number}"), NOW)
        .expect("bind");
    let commands = database
        .ahp_poll_commands(ADAPTER, RUN, 60, NOW)
        .expect("poll");
    for command in commands {
        database
            .ahp_ack_command(
                ADAPTER,
                RUN,
                command.command_id,
                AhpCommandOutcome::Applied,
                None,
                None,
                NOW,
            )
            .expect("ack");
    }
    database
        .ahp_binding_ready(
            ADAPTER,
            RUN,
            &binding.binding_id,
            "endpoint",
            "host",
            binding.generation,
            &binding.session_uri,
            "chat",
            1,
            NOW,
        )
        .expect("ready");
    binding
}

// Commands

#[test]
fn commands_are_queued_once_and_leased_for_a_time() {
    let mut database = registered(1);
    ready(&mut database, 1);
    let first = database.ahp_enqueue_message("m-1", "hello", NOW).expect("queue");
    let again = database.ahp_enqueue_message("m-1", "hello", NOW).expect("queue");
    assert_eq!(first, again);
    assert!(database.ahp_has_pending_commands());
    let handed = database.ahp_poll_commands(ADAPTER, RUN, 60, NOW).expect("poll");
    assert_eq!(handed.len(), 1);
    assert_eq!(handed[0].kind, AhpCommandKind::SendMessage);
    assert!(compact_text(&handed[0].data).contains("\"hello\""));
    assert!(
        database
            .ahp_poll_commands(ADAPTER, RUN, 60, NOW + 59)
            .expect("poll")
            .is_empty()
    );
    let again = database.ahp_poll_commands(ADAPTER, RUN, 60, NOW + 60).expect("poll");
    assert_eq!(again.len(), 1);
    assert_eq!(again[0].command_id, handed[0].command_id);
    database
        .ahp_record_command_progress(
            ADAPTER,
            RUN,
            first,
            1,
            Some(2),
            Some("half"),
            NOW + 61,
        )
        .expect("progress");
    let status = database.ahp_command_status(first).expect("status");
    assert_eq!(status.state, "leased");
    assert_eq!(status.progress.expect("progress").total, Some(2));
    let result = Json::object().with("ok", Json::Bool(true));
    database
        .ahp_ack_command(
            ADAPTER,
            RUN,
            first,
            AhpCommandOutcome::Applied,
            None,
            Some(&result),
            NOW + 62,
        )
        .expect("ack");
    let status = database.ahp_command_status(first).expect("status");
    assert_eq!(status.state, "acked");
    assert!(status.progress.is_none());
    assert_eq!(compact_text(&status.result.expect("result")), "{\"ok\":true}");
    assert!(!database.ahp_has_pending_commands());
    assert_eq!(
        error_of(database.ahp_ack_command(
            ADAPTER,
            RUN,
            first,
            AhpCommandOutcome::Applied,
            None,
            None,
            NOW + 63
        )),
        "AHP command acknowledgement is stale or mismatched"
    );
    assert!(database.ahp_command_status(99).is_none());
}

#[test]
fn commands_need_a_session_and_an_adapter() {
    let mut database = registered(1);
    assert_eq!(
        error_of(database.ahp_enqueue_message("m-1", "hello", NOW)),
        "no foreground AHP session is selected"
    );
    assert_eq!(
        error_of(database.ahp_enqueue_message_to_session("m-1", "copilot:/1", "hello", NOW)),
        "the target AHP session is not tracked"
    );
    assert_eq!(
        error_of(database.ahp_enqueue_cancel("m-2", NOW)),
        "no foreground AHP session is selected"
    );
    assert_eq!(
        error_of(database.ahp_poll_commands("other", RUN, 60, NOW)),
        "AHP adapter identity is not registered"
    );
    assert_eq!(
        error_of(database.ahp_poll_commands(ADAPTER, RUN, u64::MAX, NOW)),
        "AHP command lease exceeds supported range"
    );
    ready(&mut database, 1);
    let cancel = database.ahp_enqueue_cancel("m-2", NOW).expect("cancel");
    assert_eq!(
        database.ahp_command_status(cancel).expect("status").kind,
        AhpCommandKind::CancelTurn
    );
    let made = database.ahp_enqueue_create_session("create", &Json::object(), NOW);
    let gone = database.ahp_enqueue_dispose_session("dispose", &Json::object(), NOW);
    assert_ne!(made, gone);
}

#[test]
fn another_run_of_the_adapter_gets_what_was_leased() {
    let mut database = registered(1);
    database
        .ahp_bind_session("endpoint", "copilot:/1", NOW)
        .expect("bind");
    database.ahp_poll_commands(ADAPTER, RUN, 60, NOW).expect("poll");
    let told = database
        .ahp_register_adapter(
            &AhpAdapterRegistration {
                adapter_id: ADAPTER.to_owned(),
                adapter_instance_id: "run-2".to_owned(),
                version: "1".to_owned(),
                supported_protocols: vec![],
            },
            NOW,
        )
        .expect("register");
    assert_eq!(told.bindings.len(), 1);
    assert_eq!(
        told.foreground_binding_id.as_deref(),
        Some(told.bindings[0].binding_id.as_str())
    );
    assert_eq!(
        database
            .ahp_poll_commands(ADAPTER, "run-2", 60, NOW)
            .expect("poll")
            .len(),
        1
    );
}

// Tracked sessions

#[test]
fn sessions_have_to_be_in_the_catalogue() {
    let mut database = registered(1);
    assert_eq!(
        error_of(database.ahp_bind_session("endpoint", "copilot:/2", NOW)),
        "AHP Session is not present in the current catalogue"
    );
    assert_eq!(
        error_of(database.ahp_bind_session("other", "copilot:/1", NOW)),
        "AHP Session is not present in the current catalogue"
    );
    let mut stray = session(2);
    stray.host_instance_id = "elsewhere".to_owned();
    assert_eq!(
        error_of(database.ahp_replace_catalog(ADAPTER, RUN, &[host("host")], &[stray], NOW)),
        "AHP session references an unknown host"
    );
    assert_eq!(
        error_of(database.ahp_replace_catalog(ADAPTER, "run-9", &[], &[], NOW)),
        "AHP adapter identity is not registered"
    );
    assert!(database.ahp_session_is_available("copilot:/1"));
    assert!(!database.ahp_session_is_available("copilot:/2"));
    assert_eq!(
        database.ahp_session_by_uri("copilot:/1").expect("session").title,
        "Session 1"
    );
    assert!(database.ahp_session_by_code("AZZZZ").is_none());
}

#[test]
fn the_foreground_is_replaced_when_it_is_let_go() {
    let mut database = registered(2);
    let one = ready(&mut database, 1);
    let two = ready(&mut database, 2);
    assert_eq!(
        database.ahp_binding().expect("binding").expect("bound").binding_id,
        two.binding_id
    );
    assert!(database.ahp_unbind_session(NOW).expect("unbind"));
    assert_eq!(
        database.ahp_binding().expect("binding").expect("bound").binding_id,
        one.binding_id
    );
    assert_eq!(
        error_of(database.ahp_bind_session("endpoint", "copilot:/2", NOW)),
        "AHP Session is currently detaching"
    );
    assert!(!database.ahp_detach_session("copilot:/9", NOW).expect("detach"));
    database.ahp_enqueue_message("m-1", "busy", NOW).expect("queue");
    assert_eq!(
        error_of(database.ahp_unbind_session(NOW)),
        "cannot detach an AHP Session with pending commands or interactions"
    );
}

#[test]
fn bindings_fail_for_a_reason() {
    let mut database = registered(1);
    let binding = database
        .ahp_bind_session("endpoint", "copilot:/1", NOW)
        .expect("bind");
    assert_eq!(
        error_of(database.ahp_binding_failed(
            ADAPTER,
            RUN,
            &binding.binding_id,
            binding.generation + 1,
            "gone",
            NOW
        )),
        "AHP binding failure is stale"
    );
    database
        .ahp_binding_failed(
            ADAPTER,
            RUN,
            &binding.binding_id,
            binding.generation,
            "gone",
            NOW,
        )
        .expect("failure");
    assert_eq!(
        database.ahp_binding().expect("binding").expect("bound").state,
        "failed"
    );
    assert_eq!(
        error_of(database.ahp_binding_ready(
            ADAPTER,
            RUN,
            &binding.binding_id,
            "endpoint",
            "host",
            binding.generation,
            "copilot:/1",
            "chat",
            1,
            NOW
        )),
        "AHP binding acknowledgement is stale or mismatched"
    );
    let again = database
        .ahp_bind_session("endpoint", "copilot:/1", NOW)
        .expect("bind again");
    assert_eq!(again.binding_id, binding.binding_id);
    assert_eq!(again.generation, binding.generation + 1);
}

fn event(name: &str, kind: AhpEventKind, turn: Option<&str>) -> AhpPublishedEvent {
    AhpPublishedEvent {
        event_id: qq_copilot_remote::security::sha256_hex(name.as_bytes()),
        host_instance_id: "host".to_owned(),
        server_sequence: Some(2),
        session_uri: "copilot:/1".to_owned(),
        chat_uri: Some("chat".to_owned()),
        turn_id: turn.map(str::to_owned),
        kind,
        origin_client_id: None,
        occurred_at: "2026-08-27T00:00:01Z".to_owned(),
        data: Json::object(),
    }
}

#[test]
fn events_follow_the_turn() {
    let mut database = registered(1);
    let binding = ready(&mut database, 1);
    let new = database
        .ahp_publish_events(
            ADAPTER,
            RUN,
            &binding.binding_id,
            binding.generation,
            &vec![event("start", AhpEventKind::TurnStarted, Some("turn-1"))],
            NOW,
        )
        .expect("publish");
    assert_eq!(new.len(), 1);
    assert_eq!(
        database
            .ahp_binding()
            .expect("binding")
            .expect("bound")
            .active_turn_id
            .as_deref(),
        Some("turn-1")
    );
    assert_eq!(
        error_of(database.ahp_detach_session("copilot:/1", NOW)),
        "cannot detach an AHP Session with an active Turn or queued message"
    );
    assert_eq!(
        error_of(database.ahp_publish_events(
            ADAPTER,
            RUN,
            "unknown",
            1,
            &vec![],
            NOW
        )),
        "AHP event batch targets an unknown binding"
    );
    assert_eq!(
        error_of(database.ahp_publish_events(
            ADAPTER,
            RUN,
            &binding.binding_id,
            binding.generation + 1,
            &vec![],
            NOW
        )),
        "AHP event batch targets a stale or inactive binding"
    );
    assert_eq!(
        error_of(database.ahp_mark_event_processed("unknown", NOW)),
        "AHP event not found while marking it processed"
    );
    assert_eq!(
        error_of(database.ahp_queue_projection("unknown", "kind", "text", NOW)),
        "FOREIGN KEY constraint failed"
    );
}

// Approvals and inputs of a session

fn decision(key: &str) -> NewAhpApproval {
    NewAhpApproval {
        approval_key: key.to_owned(),
        stage: "parameter".to_owned(),
        session_uri: "copilot:/1".to_owned(),
        chat_uri: "chat".to_owned(),
        turn_id: "turn".to_owned(),
        tool_call_id: "call".to_owned(),
        tool_name: "terminal".to_owned(),
        summary: "run".to_owned(),
        expires_at: NOW + 600,
    }
}

#[test]
fn buttons_decide_only_what_they_stand_for() {
    let mut database = registered(1);
    ready(&mut database, 1);
    let begun = database.ahp_begin_approval(&decision("key"), NOW).expect("begin");
    let again = database.ahp_begin_approval(&decision("key"), NOW).expect("begin");
    assert!(begun.created && !again.created);
    assert_eq!(begun.record.short_code, again.record.short_code);
    assert_eq!(
        database
            .ahp_approval_by_code(&begun.record.short_code)
            .expect("approval")
            .approval_key,
        "key"
    );
    assert!(database.ahp_has_pending_interactions(NOW));
    assert_eq!(
        error_of(database.ahp_submit_approval_by_button(
            &begun.record.allow_button_data,
            false,
            "i-1",
            NOW
        )),
        "QQ button ID does not match approval action data"
    );
    let submitted = database
        .ahp_submit_approval_by_button(&begun.record.deny_button_data, false, "i-1", NOW)
        .expect("submit")
        .expect("approval");
    assert!(submitted.accepted && !submitted.approved);
    assert!(
        database
            .ahp_submit_approval_by_button("unknown", true, "i-2", NOW)
            .expect("submit")
            .is_none()
    );
    let mut odd = decision("odd");
    odd.stage = "mystery".to_owned();
    assert_eq!(
        error_of(database.ahp_begin_approval(&odd, NOW)),
        "invalid AHP approval stage"
    );
}

#[test]
fn approvals_expire() {
    let mut database = registered(1);
    ready(&mut database, 1);
    let begun = database.ahp_begin_approval(&decision("key"), NOW).expect("begin");
    let late = database
        .ahp_submit_approval(&begun.record.short_code, true, "m-1", NOW + 600)
        .expect("submit")
        .expect("approval");
    assert!(!late.accepted);
    assert_eq!(late.record.state, "expired");
    assert!(!database.ahp_has_pending_interactions(NOW + 600));
}

#[test]
fn inputs_are_answered_by_button_or_text() {
    let mut database = registered(1);
    ready(&mut database, 1);
    let input = NewAhpInput {
        input_key: "key".to_owned(),
        session_uri: "copilot:/1".to_owned(),
        chat_uri: "chat".to_owned(),
        request_id: "request".to_owned(),
        prompt: "Choose".to_owned(),
        choices: vec!["yes".to_owned(), "no".to_owned()],
        allow_freeform: false,
        selection_mode: "single".to_owned(),
        expires_at: NOW + 600,
    };
    let begun = database.ahp_begin_input(&input, NOW).expect("begin");
    assert_eq!(begun.record.buttons.len(), 2);
    assert_eq!(begun.record.buttons[1].label, "no");
    assert_eq!(
        database
            .ahp_input_by_code(&begun.record.short_code)
            .expect("input")
            .input_key,
        "key"
    );
    assert_eq!(
        database
            .ahp_pending_input_for_session("copilot:/1", NOW)
            .expect("input")
            .input_key,
        "key"
    );
    assert_eq!(
        error_of(database.ahp_submit_input("key", "maybe", "m-1", NOW)),
        "answer is not one of the allowed choices"
    );
    assert_eq!(
        error_of(database.ahp_submit_input("unknown", "yes", "m-1", NOW)),
        "AHP input request not found"
    );
    let pressed = database
        .ahp_submit_input_by_button(&begun.record.buttons[1].button_data, "i-1", NOW)
        .expect("press")
        .expect("button");
    assert!(pressed.accepted);
    assert_eq!(pressed.answer, "no");
    assert!(!database.ahp_submit_input("key", "yes", "m-2", NOW).expect("late"));
    assert_eq!(
        error_of(database.ahp_resolve_input("key", "mystery", None, NOW)),
        "invalid AHP input outcome"
    );
    assert!(
        database
            .ahp_resolve_input("unknown", "answered", None, NOW)
            .expect("resolve")
            .is_none()
    );
}

#[test]
fn presses_are_taken_once() {
    let mut database = Database::new();
    assert!(database.record_qq_interaction("i-1", "e-1", "owner", "data", NOW));
    assert!(!database.record_qq_interaction("i-1", "e-2", "owner", "data", NOW));
    database.set_qq_interaction_ack("i-1", 0);
    assert_eq!(database.interactions.len(), 1);
    assert_eq!(database.interactions[0].ack_code, Some(0));
}

// Menus and dialogues

#[test]
fn menus_are_good_once_and_for_a_time() {
    let mut database = registered(2);
    ready(&mut database, 1);
    let uris = vec!["copilot:/1".to_owned(), "copilot:/2".to_owned()];
    let menu = database
        .ahp_create_session_switch_buttons(&uris, 600, NOW)
        .expect("menu");
    assert_eq!(menu.len(), 2);
    let chosen = database
        .ahp_consume_session_switch_button(&menu[0].button_data, &uris, NOW)
        .expect("session");
    assert_eq!(chosen.session_uri, "copilot:/1");
    assert!(
        database
            .ahp_consume_session_switch_button(&menu[1].button_data, &uris, NOW)
            .is_none()
    );
    let old = database
        .ahp_create_session_switch_buttons(&uris, 600, NOW)
        .expect("menu");
    let late = database
        .ahp_switch_session_by_button(&old[1].button_data, &uris, NOW + 600)
        .expect("press")
        .expect("button");
    assert!(!late.accepted);
    assert_eq!(
        error_of(database.ahp_create_session_switch_buttons(&uris, u64::MAX, NOW)),
        "Session switch TTL exceeds range"
    );
    assert_eq!(
        error_of(database.ahp_create_session_switch_buttons(
            &vec!["copilot:/9".to_owned()],
            600,
            NOW
        )),
        "AHP Session disappeared while creating switch menu"
    );
}

fn wizard() -> AhpCreationWizardRecord {
    AhpCreationWizardRecord {
        wizard_id: "wizard".to_owned(),
        mode: "advanced".to_owned(),
        state: "select_target".to_owned(),
        context: None,
        pending_task: None,
        create_command_id: None,
        new_session_uri: None,
        old_binding_endpoint_id: None,
        old_binding_session_uri: None,
        old_binding_host_instance_id: None,
        cancel_requested: false,
        expires_at: NOW + 600,
        created_at: NOW,
        updated_at: NOW,
    }
}

#[test]
fn dialogues_end_with_time() {
    let mut database = Database::new();
    database.ahp_save_creation_wizard(&wizard()).expect("save");
    assert_eq!(
        database.ahp_creation_wizard(NOW).expect("wizard").wizard_id,
        "wizard"
    );
    assert_eq!(
        database
            .ahp_creation_wizard_status(NOW)
            .expect("status")
            .wizard_id,
        "wizard"
    );
    let buttons = database
        .ahp_create_wizard_buttons("wizard", "target", &vec![Json::object()], 600, NOW)
        .expect("buttons");
    assert!(database.ahp_creation_wizard(NOW + 600).is_none());
    assert!(
        database
            .ahp_consume_wizard_button(&buttons[0].button_data, NOW + 600)
            .is_none()
    );
    let mut odd = wizard();
    odd.mode = "mystery".to_owned();
    assert_eq!(
        error_of(database.ahp_save_creation_wizard(&odd)),
        "invalid AHP creation wizard mode"
    );
    let mut odd = wizard();
    odd.state = "mystery".to_owned();
    assert_eq!(
        error_of(database.ahp_save_creation_wizard(&odd)),
        "invalid AHP creation wizard state"
    );
    let mut odd = wizard();
    odd.create_command_id = Some(9);
    assert_eq!(
        error_of(database.ahp_save_creation_wizard(&odd)),
        "FOREIGN KEY constraint failed"
    );
    database.ahp_save_creation_wizard(&wizard()).expect("save");
    database.ahp_clear_creation_wizard();
    assert!(database.ahp_creation_wizard(NOW).is_none());
    assert_eq!(creation_button_prefix("target"), "newt");
    assert_eq!(creation_button_prefix("--"), "newx");
}

#[test]
fn trust_is_asked_for_and_taken_back() {
    let mut database = Database::new();
    database
        .ahp_begin_trust_request("one", "file:///work", false, 600, NOW)
        .expect("begin");
    database.ahp_delete_trust_request("one");
    assert!(database.ahp_trust_request("one", NOW).is_none());
    database
        .ahp_begin_trust_request("two", "file:///work", false, 600, NOW)
        .expect("begin");
    assert!(database.ahp_pending_trust_requests(NOW + 600).is_empty());
    assert_eq!(database.ahp_report_workspace_trust(&vec![], true, NOW), 0);
    assert_eq!(
        error_of(database.ahp_begin_trust_request("three", "file:///work", false, u64::MAX, NOW)),
        "trust request TTL exceeds range"
    );
}

// The owner and agent sessions

#[test]
fn codes_are_good_for_a_time_and_for_one() {
    let mut database = Database::new();
    let code = database.create_binding_code(600, NOW).expect("code");
    assert_eq!(
        database.try_bind_owner("owner", "WRONG", "m-1", NOW),
        BindOutcome::InvalidOrExpired
    );
    assert_eq!(
        database.try_bind_owner("owner", &code, "m-1", NOW + 600),
        BindOutcome::InvalidOrExpired
    );
    assert_eq!(
        error_of(database.set_owner_enabled(false, NOW)),
        "no owner is bound"
    );
    let spaced = format!(" {} ", code.to_lowercase());
    assert_eq!(
        database.try_bind_owner("owner", &spaced, "m-1", NOW),
        BindOutcome::Bound
    );
    assert_eq!(
        error_of(database.create_binding_code(600, NOW)),
        "an owner is already bound"
    );
    database.set_owner_enabled(false, NOW).expect("disable");
    assert!(!database.owner().expect("owner").enabled);
    assert!(!database.audit.is_empty());
}

#[test]
fn sessions_are_found_by_id_label_or_alone() {
    let mut database = Database::new();
    assert_eq!(
        error_of(database.resolve_session(None, None)),
        "there is no active Agent session"
    );
    let one = database.register_session("one", "hash", NOW).expect("session");
    assert_eq!(
        database.resolve_session(None, None).expect("session").session_id,
        "one"
    );
    let two = database.register_session("two", "hash", NOW).expect("session");
    assert_ne!(one.short_code, two.short_code);
    assert_eq!(
        error_of(database.resolve_session(None, None)),
        "multiple Agent sessions are active; provide a session label"
    );
    assert_eq!(
        database
            .resolve_session(None, Some(&two.short_code.to_lowercase()))
            .expect("session")
            .session_id,
        "two"
    );
    assert_eq!(
        error_of(database.resolve_session(Some("one"), Some(&two.short_code))),
        "session label does not match the authenticated MCP session"
    );
    assert_eq!(
        error_of(database.resolve_session(Some("three"), None)),
        "unknown session ID three"
    );
    let again = database.register_session("one", "hash", NOW).expect("session");
    assert_eq!(again.short_code, one.short_code);
    database.set_session_waiting("one", true, NOW);
    assert_eq!(database.sessions[0].state, SessionState::Waiting);
    assert_eq!(database.session_by_id("one").expect("session").state, "waiting");
    assert!(database.cancel_session(&one.short_code, "m-1", NOW));
    assert!(database.take_cancel_requested("one"));
    assert!(!database.take_cancel_requested("one"));
    assert!(!database.cancel_session("unknown", "m-1", NOW));
}

fn approval(id: u128, key: &str) -> NewApproval {
    NewApproval {
        approval_id: id,
        idempotency_key: key.to_owned(),
        session_id: "one".to_owned(),
        tool_use_id: format!("use-{id}"),
        tool_name: "edit".to_owned(),
        input_hash: "hash".to_owned(),
        redacted_summary: "summary".to_owned(),
        risk: RiskLevel::High,
        expires_at: NOW + 600,
    }
}

#[test]
fn approvals_come_one_at_a_time() {
    let mut database = Database::new();
    assert_eq!(
        error_of(database.begin_approval(approval(1, "a"), NOW)),
        "Agent session is not active"
    );
    database.register_session("one", "hash", NOW).expect("session");
    let begun = database.begin_approval(approval(1, "a"), NOW).expect("begin");
    assert_eq!(
        error_of(database.begin_approval(approval(2, "b"), NOW)),
        "this Agent session already has a pending approval"
    );
    assert_eq!(
        database.approval_by_id(1).expect("approval").short_code,
        begun.record.short_code
    );
    assert_eq!(
        database.approval_for_tool("one", "use-1").expect("approval").approval_id,
        1
    );
    let late = database
        .decide_approval(&begun.record.short_code, true, "m-1", NOW + 600)
        .expect("decision");
    assert_eq!(late.state, ApprovalState::Expired);
    database.expire_approval(1, NOW);
    assert_eq!(
        database.approval_by_id(1).expect("approval").state,
        ApprovalState::Expired
    );
    let next = database.begin_approval(approval(2, "b"), NOW).expect("begin");
    database.deny_approval_delivery_failure(2, "qq_down", NOW);
    assert_eq!(
        database.approval_by_id(2).expect("approval").state,
        ApprovalState::Denied
    );
    assert!(next.created);
    let last = database.begin_approval(approval(3, "c"), NOW).expect("begin");
    database
        .decide_approval(&last.record.short_code, true, "m-2", NOW)
        .expect("decision");
    assert!(database.complete_approval("one", "use-3", NOW));
    assert!(!database.complete_approval("one", "use-3", NOW));
}

#[test]
fn questions_are_answered_once() {
    let mut database = Database::new();
    database.register_session("one", "hash", NOW).expect("session");
    let question = |id: u128| NewQuestion {
        question_id: id,
        session_id: "one".to_owned(),
        question_hash: "hash".to_owned(),
        choices_json: "[]".to_owned(),
        allow_freeform: true,
        expires_at: NOW + 600,
    };
    let asked = database.create_question(question(1), NOW).expect("question");
    assert_eq!(
        error_of(database.create_question(question(2), NOW)),
        "this Agent session already has a pending question"
    );
    assert_eq!(
        database
            .question_by_code(&asked.short_code)
            .expect("question")
            .question_id,
        1
    );
    assert!(!database.answer_question(1, "late", "m-0", NOW + 600));
    assert!(database.answer_question(1, "blue", "m-1", NOW));
    assert!(!database.answer_question(1, "red", "m-2", NOW));
    assert_eq!(
        database
            .question_by_id(1)
            .expect("question")
            .answer
            .as_deref(),
        Some("blue")
    );
    database.consume_question_answer(1, NOW);
    assert!(database.question_by_id(1).expect("question").answer.is_none());
    database.create_question(question(2), NOW).expect("question");
    database.expire_question(2, NOW);
    assert_eq!(database.question_by_id(2).expect("question").state, "expired");
}

#[test]
fn sessions_stop_after_the_final_word() {
    let mut database = Database::new();
    database.register_session("one", "hash", NOW).expect("session");
    assert_eq!(
        error_of(database.stop_session("two", false, NOW)),
        "unknown Agent session"
    );
    database.set_final_sent("one", NOW).expect("final");
    let stopped = database.stop_session("one", false, NOW).expect("stop");
    assert_eq!(stopped.decision, StopDecision::Allow);
    assert_eq!(
        error_of(database.set_final_sent("two", NOW)),
        "cannot mark final delivery for an inactive session"
    );
}

// Messages

#[test]
fn messages_come_in_and_go_out_once() {
    let mut database = Database::new();
    database.register_session("one", "hash", NOW).expect("session");
    assert!(database.record_inbound("m-1", "owner", NOW));
    assert!(!database.record_inbound("m-1", "owner", NOW));
    database
        .queue_message("m-1", "one", "hello", 600, NOW)
        .expect("queue");
    assert_eq!(
        error_of(database.queue_message("m-1", "one", "hello", 600, NOW)),
        "inbound message is not available for queueing"
    );
    assert!(database.record_inbound("m-2", "owner", NOW + 1));
    database
        .queue_message("m-2", "one", "second", 600, NOW + 1)
        .expect("queue");
    assert_eq!(
        database.take_next_message("one", NOW + 2),
        Some(("m-1".to_owned(), "hello".to_owned()))
    );
    assert_eq!(
        database.take_next_message("one", NOW + 2),
        Some(("m-2".to_owned(), "second".to_owned()))
    );
    assert_eq!(database.take_next_message("one", NOW + 2), None);
    database.mark_inbound_kind("m-1", "status", NOW);
    assert_eq!(
        error_of(database.queue_message("m-9", "one", "x", u64::MAX, NOW)),
        "duration exceeds supported range"
    );
}

fn delivery(id: u128, key: &str) -> NewDelivery {
    NewDelivery {
        delivery_id: id,
        idempotency_key: key.to_owned(),
        kind: "final".to_owned(),
        session_id: None,
    }
}

#[test]
fn deliveries_are_begun_and_ended_once() {
    let mut database = Database::new();
    assert!(database.begin_delivery(delivery(1, "a"), NOW).expect("begin").created);
    let again = database.begin_delivery(delivery(2, "a"), NOW).expect("begin");
    assert!(!again.created);
    assert_eq!(again.record.delivery_id, 1);
    assert_eq!(
        error_of(database.begin_delivery(delivery(1, "b"), NOW)),
        "UNIQUE constraint failed: deliveries.delivery_id"
    );
    database.record_sent_message(1, 1, NOW).expect("sent");
    assert!(database.record_sent_message(1, 1, NOW).is_err());
    assert_eq!(
        error_of(database.record_sent_message(9, 1, NOW)),
        "FOREIGN KEY constraint failed"
    );
    assert_eq!(database.sent_delivery_count_since(NOW).expect("count"), 1);
    assert_eq!(database.sent_delivery_count_since(NOW + 1).expect("count"), 0);
    assert_eq!(
        error_of(database.finish_delivery(1, "mystery", None, None, NOW)),
        "invalid delivery terminal status"
    );
    database
        .finish_delivery(1, "sent", Some("qq-1"), None, NOW)
        .expect("finish");
    assert_eq!(
        error_of(database.finish_delivery(1, "failed", None, None, NOW)),
        "delivery is not pending"
    );
    assert_eq!(database.delivery_by_id(1).expect("delivery").status, "sent");
}

#[test]
fn the_state_of_the_gateway_is_told() {
    let mut database = Database::new();
    assert_eq!(
        error_of(database.set_gateway_runtime("mystery", true, NOW)),
        "invalid QQ Gateway runtime state"
    );
    assert_eq!(
        error_of(database.save_gateway_resume("g", u64::MAX, None, NOW)),
        "gateway sequence exceeds SQLite range"
    );
    database
        .save_gateway_resume("g", 1, Some("wss://a"), NOW)
        .expect("save");
    database.save_gateway_resume("g", 2, None, NOW).expect("save");
    let kept = database.gateway_resume().expect("resume");
    assert_eq!(kept.sequence, 2);
    assert_eq!(kept.resume_gateway_url.as_deref(), Some("wss://a"));
    database.clear_gateway_resume();
    assert!(database.gateway_resume().is_none());
    database.register_session("one", "hash", NOW).expect("session");
    let snapshot = database.status_snapshot(NOW);
    assert!(!snapshot.owner_bound);
    assert_eq!(snapshot.sessions.len(), 1);
    database.audit_security_event("probe", "refused", Some("m-1"), NOW);
    assert_eq!(database.audit.last().expect("note").outcome, "refused");
}

// Upkeep

#[test]
fn old_events_are_dropped() {
    let mut database = registered(1);
    let binding = ready(&mut database, 1);
    database
        .ahp_publish_events(
            ADAPTER,
            RUN,
            &binding.binding_id,
            binding.generation,
            &vec![event("old", AhpEventKind::AssistantMessage, None)],
            NOW,
        )
        .expect("publish");
    database.ahp_purge_events(1, NOW + 10).expect("purge");
    assert_eq!(database.events.len(), 1);
    database.ahp_purge_events(1, NOW + 2 * 86_400).expect("purge");
    assert_eq!(database.events.len(), 0);
}

#[test]
fn tables_are_brought_up_to_date() {
    assert!(!needs_command_kinds(
        "kind IN ('prepare_target', 'create_session', 'dispose_session')"
    ));
    assert!(needs_command_kinds("kind IN ('prepare_target')"));
    let steps = migrate_ahp_schema(&vec![]);
    assert!(matches!(steps.last(), Some(Step::MakeIndexes)));
    let mut database = registered(2);
    database.catalog[0].short_code = String::new();
    fill_session_codes(&mut database.catalog).expect("codes");
    assert_eq!(database.catalog[0].short_code.len(), 5);
    assert_ne!(database.catalog[0].short_code, database.catalog[1].short_code);
    ready(&mut database, 1);
    database.ahp_begin_approval(&decision("key"), NOW).expect("begin");
    database.decisions[0].allow_button_data = String::new();
    fill_button_data(&mut database.decisions);
    assert!(!database.decisions[0].allow_button_data.is_empty());
}
