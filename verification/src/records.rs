//! What is told of the things that are kept.
use vstd::prelude::*;

use crate::agents::{ApprovalDecision, ApprovalRecord, NewApproval, QuestionRecord, SessionRecord};
use crate::config::Failure;
use crate::interactions::{AhpApprovalRecord, AhpInputRecord};
use crate::json::Json;
use crate::messages::DeliveryRecord;
use crate::protocol::{AhpBindingRecord, AhpHostDescriptor, AhpSessionDescriptor, RpcResponse};
use crate::store::{
    ApprovalRow, BindingRow, CatalogRow, Database, DecisionRow, DeliveryRow, HostRow,
    InputButtonRow, InputRow, QuestionRow, SessionRow, TrustRow, WizardButtonRow, WizardRow,
};
use crate::tables::lemma_first_holds;
use crate::text::opt_view;
use crate::wizard::{AhpCreationWizardRecord, AhpTrustRequestRecord, AhpWizardButtonRecord};

verus! {

/// What is told of sessions is what is kept of them.
pub proof fn sessions_are_told_as_they_are(row: SessionRow, r: SessionRecord)
    requires
        crate::agents::shows_agent(row, r),
    ensures
        r.session_id@ == row.session_id@,
        r.short_code@ == row.short_code@,
        r.final_sent == row.final_sent,
{
}

/// What is told of approvals is what is kept of them.
pub proof fn approvals_are_told_as_they_are(row: ApprovalRow, r: ApprovalRecord)
    requires
        crate::agents::shows_approval(row, r),
    ensures
        r.approval_id == row.approval_id,
        r.short_code@ == row.short_code@,
        r.idempotency_key@ == row.idempotency_key@,
        r.session_id@ == row.session_id@,
        r.tool_use_id@ == row.tool_use_id@,
        r.tool_name@ == row.tool_name@,
        r.input_hash@ == row.input_hash@,
        r.redacted_summary@ == row.redacted_summary@,
        r.risk == row.risk,
        r.state == row.state,
        r.expires_at == row.expires_at,
{
}

/// What is told of decided approvals is what is kept of them.
pub proof fn decided_approvals_are_told_as_they_are(row: ApprovalRow, r: ApprovalDecision)
    requires
        crate::agents::tells_decision(row, r),
    ensures
        r.approval_id == row.approval_id,
        r.session_id@ == row.session_id@,
        r.short_code@ == row.short_code@,
        r.state == row.state,
{
}

/// What is told of questions is what is kept of them.
pub proof fn questions_are_told_as_they_are(row: QuestionRow, r: QuestionRecord)
    requires
        crate::agents::shows_question(row, r),
    ensures
        r.question_id == row.question_id,
        r.short_code@ == row.short_code@,
        r.session_id@ == row.session_id@,
        r.choices_json@ == row.choices_json@,
        r.allow_freeform == row.allow_freeform,
        opt_view(r.answer) == opt_view(row.answer),
        r.expires_at == row.expires_at,
{
}

/// What is told of tracked sessions is what is kept of them.
pub proof fn tracked_sessions_are_told_as_they_are(db: Database, row: BindingRow, r: AhpBindingRecord)
    requires
        crate::bindings::shows(db, row, r),
    ensures
        r.binding_id@ == row.binding_id@,
        r.generation == row.generation,
        r.endpoint_id@ == row.endpoint_id@,
        opt_view(r.host_instance_id) == opt_view(row.host_instance_id),
        r.session_uri@ == row.session_uri@,
        opt_view(r.chat_uri) == opt_view(row.chat_uri),
        opt_view(r.active_turn_id) == opt_view(row.active_turn_id),
        r.last_activity_at == row.last_activity_at,
{
}

/// What is told of known sessions is what is kept of them.
pub proof fn known_sessions_are_told_as_they_are(row: CatalogRow, r: AhpSessionDescriptor)
    requires
        crate::catalog::shows_session(row, r),
    ensures
        r.endpoint_id@ == row.endpoint_id@,
        r.host_instance_id@ == row.host_instance_id@,
        r.session_uri@ == row.session_uri@,
        r.provider@ == row.provider@,
        r.title@ == row.title@,
        r.status == row.status,
        r.created_at@ == row.created_at@,
        r.modified_at@ == row.modified_at@,
        opt_view(r.host_label) == opt_view(row.host_label),
        opt_view(r.ssh_alias) == opt_view(row.ssh_alias),
        r.target_kind == row.target_kind,
        opt_view(r.target_path) == opt_view(row.target_path),
{
}

/// What is told of approvals of a host is what is kept of them.
pub proof fn approvals_of_a_host_are_told_as_they_are(row: DecisionRow, r: AhpApprovalRecord)
    requires
        crate::interactions::shows_decision(row, r),
    ensures
        r.approval_key@ == row.approval_key@,
        r.short_code@ == row.short_code@,
        r.stage@ == row.stage@,
        r.session_uri@ == row.session_uri@,
        r.chat_uri@ == row.chat_uri@,
        r.turn_id@ == row.turn_id@,
        r.tool_call_id@ == row.tool_call_id@,
        r.tool_name@ == row.tool_name@,
        r.summary@ == row.summary@,
        r.allow_button_data@ == row.allow_button_data@,
        r.deny_button_data@ == row.deny_button_data@,
        r.expires_at == row.expires_at,
{
}

/// What is told of inputs is what is kept of them.
pub proof fn inputs_are_told_as_they_are(rows: Seq<InputButtonRow>, row: InputRow, r: AhpInputRecord)
    requires
        crate::interactions::shows_input(rows, row, r),
    ensures
        r.input_key@ == row.input_key@,
        r.short_code@ == row.short_code@,
        r.session_uri@ == row.session_uri@,
        r.chat_uri@ == row.chat_uri@,
        r.request_id@ == row.request_id@,
        r.prompt@ == row.prompt@,
        r.allow_freeform == row.allow_freeform,
        r.selection_mode@ == row.selection_mode@,
        r.expires_at == row.expires_at,
{
}

/// What is told of deliveries is what is kept of them.
pub proof fn deliveries_are_told_as_they_are(row: DeliveryRow, r: DeliveryRecord)
    requires
        crate::messages::shows_delivery(row, r),
    ensures
        r.delivery_id == row.delivery_id,
        opt_view(r.qq_message_id) == opt_view(row.qq_message_id),
        opt_view(r.error_code) == opt_view(row.error_code),
{
}

/// What is told of dialogues is what is kept of them.
pub proof fn dialogues_are_told_as_they_are(row: WizardRow, r: AhpCreationWizardRecord)
    requires
        crate::wizard::shows_wizard(row, r),
    ensures
        r.wizard_id@ == row.wizard_id@,
        r.mode@ == row.mode@,
        r.state@ == row.state@,
        opt_view(r.pending_task) == opt_view(row.pending_task),
        r.create_command_id == row.create_command_id,
        opt_view(r.new_session_uri) == opt_view(row.new_session_uri),
        opt_view(r.old_binding_endpoint_id) == opt_view(row.old_binding_endpoint_id),
        opt_view(r.old_binding_session_uri) == opt_view(row.old_binding_session_uri),
        opt_view(r.old_binding_host_instance_id) == opt_view(row.old_binding_host_instance_id),
        r.cancel_requested == row.cancel_requested,
        r.expires_at == row.expires_at,
        r.created_at == row.created_at,
        r.updated_at == row.updated_at,
{
}

/// What is told of buttons of a dialogue is what is kept of them.
pub proof fn buttons_of_a_dialogue_are_told_as_they_are(row: WizardButtonRow, r: AhpWizardButtonRecord)
    requires
        crate::wizard::shows_button(row, r),
    ensures
        r.button_data@ == row.button_data@,
        r.wizard_id@ == row.wizard_id@,
        r.action_kind@ == row.action_kind@,
{
}

/// What is told of requests for trust is what is kept of them.
pub proof fn requests_for_trust_are_told_as_they_are(row: TrustRow, r: AhpTrustRequestRecord)
    requires
        crate::wizard::shows_request(row, r),
    ensures
        r.request_id@ == row.request_id@,
        r.workspace_uri@ == row.workspace_uri@,
        r.open_trust_ui == row.open_trust_ui,
        r.trusted == row.trusted,
        r.expires_at == row.expires_at,
{
}

/// What is told of hosts is what is kept of them.
pub proof fn hosts_are_told_as_they_are(row: HostRow, cutoff: int, r: AhpHostDescriptor)
    requires
        crate::status::tells_host(row, cutoff, r),
    ensures
        r.endpoint_id@ == row.endpoint_id@,
        r.host_instance_id@ == row.host_instance_id@,
        r.pid == row.pid,
        r.advertised_protocol@ == row.advertised_protocol@,
        opt_view(r.selected_protocol) == opt_view(row.selected_protocol),
        opt_view(r.host_label) == opt_view(row.host_label),
        opt_view(r.ssh_alias) == opt_view(row.ssh_alias),
        r.target_kind == row.target_kind,
        opt_view(r.target_path) == opt_view(row.target_path),
        opt_view(r.endpoint_type) == opt_view(row.endpoint_type),
{
}

/// Where nothing is known of the session, nothing is told of its host; else what is known
/// is told.
pub proof fn hosts_of_tracked_sessions_are_told(db: Database, row: BindingRow, r: AhpBindingRecord)
    requires
        crate::bindings::shows(db, row, r),
        forall|i: int|
            0 <= i < db.catalog@.len() ==> (#[trigger] db.catalog@[i]).session_uri@
                != row.session_uri@,
    ensures
        r.host_label is None,
        r.ssh_alias is None,
        r.target_kind is None,
        r.target_path is None,
        r.editor_client_tools_available is None,
{
    lemma_first_holds(db.catalog@, crate::bindings::at_uri(row.session_uri@));
}

/// A code that is offered, an owner who is bound and a switch that is turned are noted
/// under their own names.
pub proof fn what_the_owner_does_is_noted(
    a: Database,
    b: Database,
    code: Seq<char>,
    ttl: u64,
    enabled: bool,
    now: i64,
    r: Result<(), Failure>,
    x: Database,
    y: Database,
    s: Result<(), Failure>,
)
    requires
        crate::agents::code_outcome(a, b, code, ttl, now, r),
        crate::agents::switch_outcome(x, y, enabled, now, s),
    ensures
        r is Ok ==> b.audit@.len() == a.audit@.len() + 1 && b.audit@.last().event_type@
            == "binding_code_created"@ && b.audit@.last().outcome@ == "created"@,
        s is Ok ==> y.audit@.len() == x.audit@.len() + 1 && y.audit@.last().event_type@
            == "emergency_switch"@ && (y.audit@.last().outcome@ == "enabled"@ <==> enabled),
{
    reveal_strlit("enabled");
    reveal_strlit("disabled");
    assert("enabled"@.len() != "disabled"@.len());
}

/// Sessions that start, calls that are completed and sessions that are stopped are noted
/// under their own names.
pub proof fn what_sessions_do_is_noted(
    a: Database,
    b: Database,
    row: SessionRow,
    id: Seq<char>,
    code: Seq<char>,
    place: Seq<char>,
    now: i64,
)
    ensures
        crate::agents::session_restarted(a, b, row, place, now) ==> b.audit@.last().event_type@
            == "session_started"@ && b.audit@.last().outcome@ == "restarted"@
            && opt_view(b.audit@.last().session_code) == Some(row.short_code@),
        crate::agents::session_added(a, b, id, code, place, now) ==> b.audit@.last().event_type@
            == "session_started"@ && b.audit@.last().outcome@ == "created"@,
        crate::agents::complete_outcome(a, b, id, code, now, true) ==> b.audit@.last().event_type@
            == "tool_completed"@ && b.audit@.last().outcome@ == "completed"@,
        crate::agents::halt_outcome(a, b, id, code, now, true) ==> b.audit@.last().event_type@
            == "session_cancelled"@ && b.audit@.last().outcome@ == "cancelled"@,
{
}

/// A client takes the result of an answer to its own request, of the version spoken, that
/// bears no error; an error is told with its code.
pub proof fn answers_are_taken(
    response: RpcResponse,
    id: u128,
    r: Result<Json, Failure>,
)
    requires
        crate::ipc::takes(response, id, r),
    ensures
        r is Ok <==> response.version == crate::protocol::IPC_PROTOCOL_VERSION
            && response.request_id == id && response.error is None && response.result is Some,
        r matches Ok(x) ==> response.result == Some(x),
        response.version == crate::protocol::IPC_PROTOCOL_VERSION && response.request_id == id ==> (
        response.error matches Some(e) ==> r->Err_0.message@ == e.code@ + ": "@ + e.message@),
{
}

/// Approvals that are asked for and decided are noted under their own names, with their
/// tool.
pub proof fn what_comes_of_approvals_is_noted(
    a: Database,
    b: Database,
    p: NewApproval,
    code: Seq<char>,
    row: ApprovalRow,
    allow: bool,
    message: Seq<char>,
    now: i64,
)
    ensures
        crate::agents::approval_added(a, b, p, code, now) ==> b.audit@.last().event_type@
            == "approval_created"@ && b.audit@.last().outcome@ == "pending"@ && opt_view(
            b.audit@.last().tool_name,
        ) == Some(p.tool_name@),
        crate::agents::decided(a, b, row, allow, message, now) ==> b.audit@.last().event_type@
            == "approval_decided"@ && (b.audit@.last().outcome@ == "allowed"@ <==> allow)
            && opt_view(b.audit@.last().tool_name) == Some(row.tool_name@) && opt_view(
            b.audit@.last().qq_message_id,
        ) == Some(message),
{
    reveal_strlit("allowed");
    reveal_strlit("denied");
    assert("allowed"@.len() != "denied"@.len());
}

} // verus!
