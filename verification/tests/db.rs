use qq_copilot_remote::agents::{BindOutcome, NewApproval};
use qq_copilot_remote::messages::NewDelivery;
use qq_copilot_remote::protocol::{AhpEventKind, ApprovalState, RiskLevel, StopDecision};
use qq_copilot_remote::security::sha256_hex;
use qq_copilot_remote::store::{Database, EventRow};

const NOW: i64 = 1_788_000_000;

fn add_event(database: &mut Database, event_id: &str) {
    database.events.push(EventRow {
        event_id: event_id.to_owned(),
        host_instance_id: "host-1".to_owned(),
        binding_id: "binding-1".to_owned(),
        binding_generation: 1,
        server_sequence: None,
        session_uri: "copilot:/session-1".to_owned(),
        chat_uri: None,
        turn_id: None,
        kind: AhpEventKind::AssistantMessage,
        origin_client_id: None,
        occurred_at: "2026-09-04T00:00:00Z".to_owned(),
        data_redacted: "{}".to_owned(),
        processed_at: None,
        processing_error: None,
        created_at: NOW,
    });
}

fn delivery(id: u128, key: &str, kind: &str) -> NewDelivery {
    NewDelivery {
        delivery_id: id,
        idempotency_key: key.to_owned(),
        kind: kind.to_owned(),
        session_id: None,
    }
}

#[test]
fn daemon_recovery_makes_interrupted_projection_replayable() {
    let event_id = sha256_hex(b"interrupted-projection");
    let orphan_event_id = sha256_hex(b"orphaned-projection");
    let direct_delivery_key = format!("ahp-event-projection:{event_id}");
    let mut database = Database::new();
    add_event(&mut database, &event_id);
    add_event(&mut database, &orphan_event_id);
    database
        .ahp_queue_projection(&event_id, "ahp_assistant_message", "missed", NOW)
        .expect("projection");
    database
        .ahp_queue_projection(&orphan_event_id, "ahp_assistant_message", "orphaned", NOW)
        .expect("orphan projection");
    for projection in &mut database.projections {
        if projection.event_id == orphan_event_id {
            projection.created_at = NOW - 120;
        }
    }
    database
        .begin_delivery(delivery(1, &direct_delivery_key, "ahp_assistant_message"), NOW)
        .expect("direct delivery");
    assert!(database.ahp_pending_projections(10).is_empty());

    assert_eq!(
        database
            .delivery_by_idempotency_key(&direct_delivery_key)
            .expect("direct delivery")
            .status,
        "pending"
    );
    assert!(database.ahp_pending_projections(10).is_empty());
    database.recover_interrupted_state(NOW);
    assert_eq!(
        database
            .delivery_by_idempotency_key(&direct_delivery_key)
            .expect("direct delivery")
            .status,
        "in_doubt"
    );
    let pending = database.ahp_pending_projections(10);
    assert_eq!(pending.len(), 2);
    assert!(
        pending
            .iter()
            .any(|projection| projection.event_id == event_id)
    );
    assert!(
        pending
            .iter()
            .any(|projection| projection.event_id == orphan_event_id)
    );
}

#[test]
fn purge_retains_deliveries_referenced_by_pending_projections() {
    let mut database = Database::new();
    let direct_event_id = sha256_hex(b"pending-direct-delivery");
    let replay_event_id = sha256_hex(b"pending-replay-delivery");
    for event_id in [&direct_event_id, &replay_event_id] {
        add_event(&mut database, event_id);
        database
            .ahp_queue_projection(event_id, "ahp_assistant_message", "missed", NOW)
            .expect("projection");
    }

    let direct_key = format!("ahp-event-projection:{direct_event_id}");
    let replay_key = "ahp-offline-replay:retention";
    for projection in &mut database.projections {
        if projection.event_id == replay_event_id {
            projection.replay_key = Some(replay_key.to_owned());
        }
    }
    for (id, key, status) in [(1, direct_key.as_str(), "sent"), (2, replay_key, "in_doubt")] {
        let begun = database
            .begin_delivery(delivery(id, key, "ahp_offline_replay"), NOW)
            .expect("begin delivery");
        if key == replay_key {
            database
                .record_sent_message(begun.record.delivery_id, 1, NOW)
                .expect("record replay send evidence");
        }
        database
            .finish_delivery(begun.record.delivery_id, status, None, None, NOW)
            .expect("finish delivery");
    }
    for row in &mut database.deliveries {
        row.updated_at = NOW - 172_800;
    }
    for row in &mut database.sent {
        row.sent_at = NOW - 172_800;
    }

    database
        .purge_expired(1, NOW)
        .expect("purge pending references");
    assert!(database.delivery_by_idempotency_key(&direct_key).is_some());
    let kept = database
        .delivery_by_idempotency_key(replay_key)
        .expect("replay delivery");
    let replay_evidence = database
        .sent
        .iter()
        .filter(|row| row.delivery_id == kept.delivery_id)
        .count();
    assert_eq!(replay_evidence, 1);

    database.ahp_mark_projections_delivered(
        &vec![direct_event_id.clone(), replay_event_id.clone()],
        NOW,
    );
    database
        .purge_expired(1, NOW)
        .expect("purge terminal references");
    assert!(database.delivery_by_idempotency_key(&direct_key).is_none());
    assert!(database.delivery_by_idempotency_key(replay_key).is_none());
    assert_eq!(database.sent.len(), 0);
}

#[test]
fn projection_with_recorded_direct_chunk_is_not_replayed() {
    let mut database = Database::new();
    let event_id = sha256_hex(b"partially-sent-direct-projection");
    add_event(&mut database, &event_id);
    database
        .ahp_queue_projection(&event_id, "ahp_assistant_message", "missed", NOW)
        .expect("projection");
    database.ahp_projection_failed(&event_id, "qq_delivery_failed", NOW);
    let begun = database
        .begin_delivery(
            delivery(
                1,
                &format!("ahp-event-projection:{event_id}"),
                "ahp_assistant_message",
            ),
            NOW,
        )
        .expect("begin direct delivery");
    database
        .record_sent_message(begun.record.delivery_id, 1, NOW)
        .expect("record sent chunk");
    database
        .finish_delivery(
            begun.record.delivery_id,
            "in_doubt",
            Some("message-1"),
            Some("qq_delivery_error"),
            NOW,
        )
        .expect("finish uncertain delivery");

    assert!(database.ahp_pending_projections(10).is_empty());
    assert_eq!(
        database
            .ahp_status(60, NOW)
            .expect("status")
            .pending_projections,
        0
    );
}

#[test]
fn binding_code_is_one_time_and_owner_is_immutable() {
    let mut database = Database::new();
    let code = database.create_binding_code(600, NOW).expect("binding code");
    assert_eq!(
        database.try_bind_owner("owner-a", &code, "message-1", NOW),
        BindOutcome::Bound
    );
    assert_eq!(
        database.try_bind_owner("owner-b", &code, "message-2", NOW),
        BindOutcome::AlreadyBound
    );
    assert_eq!(database.owner().expect("bound").user_openid, "owner-a");
}

fn new_approval(id: u128, key: &str, hash: &str) -> NewApproval {
    NewApproval {
        approval_id: id,
        idempotency_key: key.to_owned(),
        session_id: "session-1".to_owned(),
        tool_use_id: "tool-use-1".to_owned(),
        tool_name: "apply_patch".to_owned(),
        input_hash: hash.to_owned(),
        redacted_summary: "summary".to_owned(),
        risk: RiskLevel::Medium,
        expires_at: NOW + 600,
    }
}

#[test]
fn duplicate_approval_reuses_same_record() {
    let mut database = Database::new();
    database
        .register_session("session-1", "workspace-hash", NOW)
        .expect("session");
    let first = database
        .begin_approval(new_approval(1, "same-key", "input-hash"), NOW)
        .expect("first approval");
    let second = database
        .begin_approval(new_approval(2, "same-key", "input-hash"), NOW)
        .expect("duplicate approval");
    assert!(first.created);
    assert!(!second.created);
    assert_eq!(first.record.approval_id, second.record.approval_id);
}

#[test]
fn only_first_approval_decision_wins() {
    let mut database = Database::new();
    database
        .register_session("session-1", "workspace-hash", NOW)
        .expect("session");
    let approval = database
        .begin_approval(new_approval(1, "key", "hash"), NOW)
        .expect("approval");
    let allowed = database
        .decide_approval(&approval.record.short_code, true, "message-1", NOW)
        .expect("decision");
    let replay = database
        .decide_approval(&approval.record.short_code, false, "message-2", NOW)
        .expect("existing");
    assert_eq!(allowed.state, ApprovalState::Allowed);
    assert_eq!(replay.state, ApprovalState::Allowed);
}

#[test]
fn stop_hook_blocks_at_most_once() {
    let mut database = Database::new();
    database
        .register_session("session-1", "workspace-hash", NOW)
        .expect("session");
    let first = database
        .stop_session("session-1", false, NOW)
        .expect("first stop");
    let second = database
        .stop_session("session-1", true, NOW)
        .expect("second stop");
    assert_eq!(first.decision, StopDecision::Block);
    assert_eq!(second.decision, StopDecision::Allow);
}
