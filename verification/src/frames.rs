//! What each operation leaves as it was.
use vstd::prelude::*;

use crate::agents::{
    ApprovalDecision, BeginApproval, BindOutcome, NewApproval, NewQuestion, QuestionRecord,
    SessionRecord,
};
use crate::catalog::{AhpSessionSwitchButton, AhpSessionSwitchSubmission};
use crate::config::Failure;
use crate::interactions::{
    AhpApprovalRecord, AhpApprovalSubmission, AhpInputResolution, AhpInputSubmission, ApprovalCodes,
    BeginAhpApproval, BeginAhpInput, NewAhpApproval, NewAhpInput,
};
use crate::json::{Json, Tree};
use crate::messages::{BeginDelivery, NewDelivery};
use crate::protocol::{
    AhpAdapterCommand, AhpBindingRecord, AhpCommandOutcome, AhpHostDescriptor, AhpSessionDescriptor,
    StopResult,
};
use crate::qq::{GatewayEvent, GatewayLink, GatewayPayload};
use crate::store::{BindingRow, Database, DecisionRow, InputRow};
use crate::wizard::{AhpTrustRequestRecord, AhpWizardButtonRecord};

verus! {

/// Offering a code leaves all else alone.
pub proof fn offering_a_code_leaves_all_else_alone(
    a: Database,
    b: Database,
    code: Seq<char>,
    ttl: u64,
    now: i64,
    r: Result<(), Failure>,
)
    requires
        crate::agents::code_outcome(a, b, code, ttl, now, r),
    ensures
        a.owner is Some || ttl > i64::MAX ==> r is Err && b == a,
        b == (Database { binding_codes: b.binding_codes, audit: b.audit, ..a }),
{
}

/// Making someone the owner leaves all else alone.
pub proof fn making_someone_the_owner_leaves_all_else_alone(
    a: Database,
    b: Database,
    user: Seq<char>,
    code: Seq<char>,
    message: Seq<char>,
    now: i64,
    r: BindOutcome,
)
    requires
        crate::agents::bind_outcome(a, b, user, code, message, now, r),
    ensures
        b == (Database { owner: b.owner, binding_codes: b.binding_codes, audit: b.audit, ..a }),
{
}

/// Switching the owner leaves all else alone, and changes nothing where it is refused.
pub proof fn switching_the_owner_leaves_all_else_alone(
    a: Database,
    b: Database,
    enabled: bool,
    now: i64,
    r: Result<(), Failure>,
)
    requires
        crate::agents::switch_outcome(a, b, enabled, now, r),
    ensures
        r is Err ==> b == a,
        b == (Database { owner: b.owner, audit: b.audit, ..a }),
{
}

/// Registering a session leaves all else alone, and changes nothing where it is refused.
pub proof fn registering_a_session_leaves_all_else_alone(
    a: Database,
    b: Database,
    id: Seq<char>,
    workspace: Seq<char>,
    drawn: Seq<String>,
    now: i64,
    r: Result<SessionRecord, Failure>,
)
    requires
        crate::agents::register_outcome(a, b, id, workspace, drawn, now, r),
    ensures
        r is Err ==> b == a,
        b == (Database { sessions: b.sessions, audit: b.audit, ..a }),
{
}

/// Deciding an approval leaves all else alone.
pub proof fn deciding_an_approval_leaves_all_else_alone(
    a: Database,
    b: Database,
    code: Seq<char>,
    allow: bool,
    message: Seq<char>,
    now: i64,
    r: Option<ApprovalDecision>,
)
    requires
        crate::agents::decide_outcome(a, b, code, allow, message, now, r),
    ensures
        b == (Database { approvals: b.approvals, audit: b.audit, ..a }),
{
}

/// Asking for approval leaves all else alone, and changes nothing where it is refused.
pub proof fn asking_for_approval_leaves_all_else_alone(
    a: Database,
    b: Database,
    approval: NewApproval,
    drawn: Seq<String>,
    now: i64,
    r: Result<BeginApproval, Failure>,
)
    requires
        crate::agents::ask_outcome(a, b, approval, drawn, now, r),
    ensures
        r is Err ==> b == a,
        b == (Database { approvals: b.approvals, audit: b.audit, ..a }),
{
}

/// Completing a call leaves all else alone.
pub proof fn completing_a_call_leaves_all_else_alone(
    a: Database,
    b: Database,
    session: Seq<char>,
    tool: Seq<char>,
    now: i64,
    r: bool,
)
    requires
        crate::agents::complete_outcome(a, b, session, tool, now, r),
    ensures
        b == (Database { approvals: b.approvals, audit: b.audit, ..a }),
{
}

/// Failing to ask the owner leaves all else alone.
pub proof fn failing_to_ask_the_owner_leaves_all_else_alone(
    a: Database,
    b: Database,
    approval_id: u128,
    outcome: Seq<char>,
    now: i64,
)
    requires
        crate::agents::undelivered_outcome(a, b, approval_id, outcome, now),
    ensures
        b == (Database { approvals: b.approvals, audit: b.audit, ..a }),
{
}

/// Stopping leaves all else alone, and changes nothing where it is refused.
pub proof fn stopping_leaves_all_else_alone(
    a: Database,
    b: Database,
    session: Seq<char>,
    hook_active: bool,
    now: i64,
    r: Result<StopResult, Failure>,
)
    requires
        crate::agents::stop_outcome(a, b, session, hook_active, now, r),
    ensures
        r is Err ==> b == a,
        b == (Database { sessions: b.sessions, approvals: b.approvals, ..a }),
{
}

/// Waiting leaves all else alone.
pub proof fn waiting_leaves_all_else_alone(
    a: Database,
    b: Database,
    session: Seq<char>,
    waiting: bool,
    now: i64,
)
    requires
        crate::agents::waiting_outcome(a, b, session, waiting, now),
    ensures
        b == (Database { sessions: b.sessions, ..a }),
{
}

/// Sending the last message leaves all else alone, and changes nothing where it is
/// refused.
pub proof fn sending_the_last_message_leaves_all_else_alone(
    a: Database,
    b: Database,
    session: Seq<char>,
    now: i64,
    r: Result<(), Failure>,
)
    requires
        crate::agents::final_outcome(a, b, session, now, r),
    ensures
        r is Err ==> b == a,
        b == (Database { sessions: b.sessions, ..a }),
{
}

/// Asking a question leaves all else alone, and changes nothing where it is refused.
pub proof fn asking_a_question_leaves_all_else_alone(
    a: Database,
    b: Database,
    question: NewQuestion,
    drawn: Seq<String>,
    now: i64,
    r: Result<QuestionRecord, Failure>,
)
    requires
        crate::agents::question_outcome(a, b, question, drawn, now, r),
    ensures
        r is Err ==> b == a,
        b == (Database { sessions: b.sessions, questions: b.questions, audit: b.audit, ..a }),
{
}

/// Answering a question leaves all else alone.
pub proof fn answering_a_question_leaves_all_else_alone(
    a: Database,
    b: Database,
    question_id: u128,
    answer: Seq<char>,
    message: Seq<char>,
    now: i64,
    r: bool,
)
    requires
        crate::agents::reply_outcome(a, b, question_id, answer, message, now, r),
    ensures
        b == (Database { sessions: b.sessions, questions: b.questions, ..a }),
{
}

/// Letting a question lapse leaves all else alone.
pub proof fn letting_a_question_lapse_leaves_all_else_alone(
    a: Database,
    b: Database,
    question_id: u128,
    now: i64,
)
    requires
        crate::agents::lapse_outcome(a, b, question_id, now),
    ensures
        b == (Database { sessions: b.sessions, questions: b.questions, ..a }),
{
}

/// Halting a session leaves all else alone.
pub proof fn halting_a_session_leaves_all_else_alone(
    a: Database,
    b: Database,
    label: Seq<char>,
    message: Seq<char>,
    now: i64,
    r: bool,
)
    requires
        crate::agents::halt_outcome(a, b, label, message, now, r),
    ensures
        b == (Database {
            sessions: b.sessions,
            approvals: b.approvals,
            questions: b.questions,
            audit: b.audit,
            ..a
        }),
{
}

/// Bringing a session to the foreground leaves all else alone, and changes nothing where
/// it is refused.
pub proof fn bringing_a_session_to_the_foreground_leaves_all_else_alone(
    a: Database,
    b: Database,
    endpoint: Seq<char>,
    uri: Seq<char>,
    id: Seq<char>,
    now: i64,
    r: Result<AhpBindingRecord, Failure>,
)
    requires
        crate::bindings::focus_outcome(a, b, endpoint, uri, id, now, r),
    ensures
        r is Err ==> b == a,
        b == (Database {
            bindings: b.bindings,
            foreground: b.foreground,
            commands: b.commands,
            next_command_id: b.next_command_id,
            ..a
        }),
{
}

/// Tracking a session leaves all else alone, and changes nothing where it is refused.
pub proof fn tracking_a_session_leaves_all_else_alone(
    a: Database,
    b: Database,
    endpoint: Seq<char>,
    uri: Seq<char>,
    id: Seq<char>,
    now: i64,
    r: Result<AhpBindingRecord, Failure>,
)
    requires
        crate::bindings::track_outcome(a, b, endpoint, uri, id, now, r),
    ensures
        r is Err ==> b == a,
        b == (Database {
            bindings: b.bindings,
            foreground: b.foreground,
            commands: b.commands,
            next_command_id: b.next_command_id,
            ..a
        }),
{
}

/// Letting a session go leaves all else alone, and changes nothing where it is refused.
pub proof fn letting_a_session_go_leaves_all_else_alone(
    a: Database,
    b: Database,
    row: Option<BindingRow>,
    reason: Seq<char>,
    now: i64,
    r: Result<bool, Failure>,
)
    requires
        crate::bindings::detach_outcome(a, b, row, reason, now, r),
    ensures
        r is Err ==> b == a,
        b == (Database {
            bindings: b.bindings,
            foreground: b.foreground,
            commands: b.commands,
            next_command_id: b.next_command_id,
            ..a
        }),
{
}

/// Word that a session is ready leaves all else alone, and changes nothing where it is
/// refused.
pub proof fn word_that_a_session_is_ready_leaves_all_else_alone(
    a: Database,
    b: Database,
    adapter: Seq<char>,
    instance: Seq<char>,
    id: Seq<char>,
    endpoint: Seq<char>,
    host: Seq<char>,
    binding_generation: i64,
    uri: Seq<char>,
    chat: Seq<char>,
    last_server_sequence: u64,
    now: i64,
    r: Result<(), Failure>,
)
    requires
        crate::bindings::ready_outcome(a, b, adapter, instance, id, endpoint, host, binding_generation, uri, chat, last_server_sequence, now, r),
    ensures
        r is Err ==> b == a,
        b == (Database { adapter: b.adapter, bindings: b.bindings, ..a }),
{
}

/// Word that a session failed leaves all else alone, and changes nothing where it is
/// refused.
pub proof fn word_that_a_session_failed_leaves_all_else_alone(
    a: Database,
    b: Database,
    adapter: Seq<char>,
    instance: Seq<char>,
    id: Seq<char>,
    binding_generation: i64,
    reason: Seq<char>,
    now: i64,
    r: Result<(), Failure>,
)
    requires
        crate::bindings::unready_outcome(a, b, adapter, instance, id, binding_generation, reason, now, r),
    ensures
        r is Err ==> b == a,
        b == (Database { adapter: b.adapter, bindings: b.bindings, ..a }),
{
}

/// Describing sessions leaves all else alone, and changes nothing where it is refused.
pub proof fn describing_sessions_leaves_all_else_alone(
    a: Database,
    b: Database,
    adapter: Seq<char>,
    instance: Seq<char>,
    hosts: Seq<AhpHostDescriptor>,
    sessions: Seq<AhpSessionDescriptor>,
    full: bool,
    drawn: Seq<Vec<String>>,
    now: i64,
    r: Result<(), Failure>,
)
    requires
        crate::catalog::replace_outcome(a, b, adapter, instance, hosts, sessions, full, drawn, now, r),
    ensures
        r is Err ==> b == a,
        b == (Database {
            sessions: b.sessions,
            adapter: b.adapter,
            hosts: b.hosts,
            catalog: b.catalog,
            bindings: b.bindings,
            commands: b.commands,
            decisions: b.decisions,
            inputs: b.inputs,
            ..a
        }),
{
}

/// Making a menu leaves all else alone, and changes nothing where it is refused.
pub proof fn making_a_menu_leaves_all_else_alone(
    a: Database,
    b: Database,
    uris: Seq<String>,
    group: Seq<char>,
    drawn: Seq<Vec<String>>,
    ttl_seconds: u64,
    now: i64,
    r: Result<Vec<AhpSessionSwitchButton>, Failure>,
)
    requires
        crate::catalog::menu_outcome(a, b, uris, group, drawn, ttl_seconds, now, r),
    ensures
        r is Err ==> b == a,
        b == (Database { switch_buttons: b.switch_buttons, ..a }),
{
}

/// Switching by a button leaves all else alone, and changes nothing where it is refused.
pub proof fn switching_by_a_button_leaves_all_else_alone(
    a: Database,
    b: Database,
    data: Seq<char>,
    allowed: Seq<String>,
    id: Seq<char>,
    now: i64,
    r: Result<Option<AhpSessionSwitchSubmission>, Failure>,
)
    requires
        crate::catalog::switch_outcome(a, b, data, allowed, id, now, r),
    ensures
        r is Err ==> b == a,
        b == (Database {
            bindings: b.bindings,
            foreground: b.foreground,
            commands: b.commands,
            next_command_id: b.next_command_id,
            switch_buttons: b.switch_buttons,
            ..a
        }),
{
}

/// Spending a button leaves all else alone.
pub proof fn spending_a_button_leaves_all_else_alone(
    a: Database,
    b: Database,
    data: Seq<char>,
    allowed: Seq<String>,
    now: i64,
    r: Option<AhpSessionDescriptor>,
)
    requires
        crate::catalog::consume_outcome(a, b, data, allowed, now, r),
    ensures
        b == (Database { switch_buttons: b.switch_buttons, ..a }),
{
}

/// Queuing a message for a session leaves all else alone, and changes nothing where it is
/// refused.
pub proof fn queuing_a_message_for_a_session_leaves_all_else_alone(
    a: Database,
    b: Database,
    message: Seq<char>,
    uri: Seq<char>,
    content: Seq<char>,
    now: i64,
    r: Result<i64, Failure>,
)
    requires
        crate::commands::message_outcome(a, b, message, uri, content, now, r),
    ensures
        r is Err ==> b == a,
        b == (Database {
            bindings: b.bindings,
            commands: b.commands,
            next_command_id: b.next_command_id,
            ..a
        }),
{
}

/// Queuing a stop leaves all else alone, and changes nothing where it is refused.
pub proof fn queuing_a_stop_leaves_all_else_alone(
    a: Database,
    b: Database,
    message: Seq<char>,
    uri: Seq<char>,
    now: i64,
    r: Result<i64, Failure>,
)
    requires
        crate::commands::cancel_outcome(a, b, message, uri, now, r),
    ensures
        r is Err ==> b == a,
        b == (Database {
            bindings: b.bindings,
            commands: b.commands,
            next_command_id: b.next_command_id,
            ..a
        }),
{
}

/// Handing out commands leaves all else alone, and changes nothing where it is refused.
pub proof fn handing_out_commands_leaves_all_else_alone(
    a: Database,
    b: Database,
    adapter: Seq<char>,
    instance: Seq<char>,
    lease_seconds: u64,
    now: i64,
    r: Result<Vec<AhpAdapterCommand>, Failure>,
)
    requires
        crate::commands::poll_outcome(a, b, adapter, instance, lease_seconds, now, r),
    ensures
        r is Err ==> b == a,
        b == (Database { adapter: b.adapter, commands: b.commands, ..a }),
{
}

/// Acknowledging a command leaves all else alone, and changes nothing where it is
/// refused.
pub proof fn acknowledging_a_command_leaves_all_else_alone(
    a: Database,
    b: Database,
    adapter: Seq<char>,
    instance: Seq<char>,
    command_id: i64,
    outcome: AhpCommandOutcome,
    error: Option<Seq<char>>,
    result: Option<Tree>,
    now: i64,
    r: Result<(), Failure>,
)
    requires
        crate::commands::ack_outcome(a, b, adapter, instance, command_id, outcome, error, result, now, r),
    ensures
        r is Err ==> b == a,
        b == (Database {
            adapter: b.adapter,
            bindings: b.bindings,
            foreground: b.foreground,
            commands: b.commands,
            decisions: b.decisions,
            inputs: b.inputs,
            ..a
        }),
{
}

/// Telling progress leaves all else alone, and changes nothing where it is refused.
pub proof fn telling_progress_leaves_all_else_alone(
    a: Database,
    b: Database,
    adapter: Seq<char>,
    instance: Seq<char>,
    command_id: i64,
    progress: u64,
    total: Option<u64>,
    message: Option<Seq<char>>,
    now: i64,
    r: Result<(), Failure>,
)
    requires
        crate::commands::progress_outcome(a, b, adapter, instance, command_id, progress, total, message, now, r),
    ensures
        r is Err ==> b == a,
        b == (Database { adapter: b.adapter, commands: b.commands, ..a }),
{
}

/// Word that an event was dealt with leaves all else alone, and changes nothing where it
/// is refused.
pub proof fn word_that_an_event_was_dealt_with_leaves_all_else_alone(
    a: Database,
    b: Database,
    id: Seq<char>,
    now: i64,
    r: Result<(), Failure>,
)
    requires
        crate::events::processed_outcome(a, b, id, now, r),
    ensures
        r is Err ==> b == a,
        b == (Database { events: b.events, ..a }),
{
}

/// Failing to tell of an event leaves all else alone.
pub proof fn failing_to_tell_of_an_event_leaves_all_else_alone(
    a: Database,
    b: Database,
    id: Seq<char>,
    error: Seq<char>,
    now: i64,
)
    requires
        crate::events::projection_failed(a, b, id, error, now),
    ensures
        b == (Database { projections: b.projections, ..a }),
{
}

/// Keeping word of an event leaves all else alone, and changes nothing where it is
/// refused.
pub proof fn keeping_word_of_an_event_leaves_all_else_alone(
    a: Database,
    b: Database,
    id: Seq<char>,
    kind: Seq<char>,
    content: Seq<char>,
    now: i64,
    r: Result<(), Failure>,
)
    requires
        crate::events::projection_outcome(a, b, id, kind, content, now, r),
    ensures
        r is Err ==> b == a,
        b == (Database { projections: b.projections, ..a }),
{
}

/// Beginning an approval leaves all else alone, and changes nothing where it is refused.
pub proof fn beginning_an_approval_leaves_all_else_alone(
    a: Database,
    b: Database,
    n: NewAhpApproval,
    drawn: Seq<ApprovalCodes>,
    now: i64,
    r: Result<BeginAhpApproval, Failure>,
)
    requires
        crate::interactions::begin_decision_outcome(a, b, n, drawn, now, r),
    ensures
        r is Err ==> b == a,
        b == (Database { decisions: b.decisions, inputs: b.inputs, ..a }),
{
}

/// Submitting a decision leaves all else alone, and changes nothing where it is refused.
pub proof fn submitting_a_decision_leaves_all_else_alone(
    a: Database,
    b: Database,
    found: Option<DecisionRow>,
    approved: bool,
    surface: Seq<char>,
    message: Seq<char>,
    now: i64,
    r: Result<Option<AhpApprovalSubmission>, Failure>,
)
    requires
        crate::interactions::decision_outcome(a, b, found, approved, surface, message, now, r),
    ensures
        r is Err ==> b == a,
        b == (Database {
            bindings: b.bindings,
            commands: b.commands,
            next_command_id: b.next_command_id,
            decisions: b.decisions,
            inputs: b.inputs,
            ..a
        }),
{
}

/// Deciding by a button leaves all else alone, and changes nothing where it is refused.
pub proof fn deciding_by_a_button_leaves_all_else_alone(
    a: Database,
    b: Database,
    data: Seq<char>,
    approved: bool,
    interaction: Seq<char>,
    now: i64,
    r: Result<Option<AhpApprovalSubmission>, Failure>,
)
    requires
        crate::interactions::decision_button_outcome(a, b, data, approved, interaction, now, r),
    ensures
        r is Err ==> b == a,
        b == (Database {
            bindings: b.bindings,
            commands: b.commands,
            next_command_id: b.next_command_id,
            decisions: b.decisions,
            inputs: b.inputs,
            ..a
        }),
{
}

/// Resolving an approval leaves all else alone.
pub proof fn resolving_an_approval_leaves_all_else_alone(
    a: Database,
    b: Database,
    key: Seq<char>,
    approved: bool,
    client: Option<Seq<char>>,
    now: i64,
    r: Option<AhpApprovalRecord>,
)
    requires
        crate::interactions::decision_resolved(a, b, key, approved, client, now, r),
    ensures
        b == (Database { decisions: b.decisions, ..a }),
{
}

/// Beginning an input leaves all else alone, and changes nothing where it is refused.
pub proof fn beginning_an_input_leaves_all_else_alone(
    a: Database,
    b: Database,
    n: NewAhpInput,
    drawn: Seq<String>,
    tokens: Seq<String>,
    now: i64,
    r: Result<BeginAhpInput, Failure>,
)
    requires
        crate::interactions::begin_input_outcome(a, b, n, drawn, tokens, now, r),
    ensures
        r is Err ==> b == a,
        b == (Database {
            decisions: b.decisions,
            inputs: b.inputs,
            input_buttons: b.input_buttons,
            ..a
        }),
{
}

/// Submitting an answer leaves all else alone, and changes nothing where it is refused.
pub proof fn submitting_an_answer_leaves_all_else_alone(
    a: Database,
    b: Database,
    row: InputRow,
    answer: Seq<char>,
    surface: Seq<char>,
    message: Seq<char>,
    now: i64,
    r: Result<bool, Failure>,
)
    requires
        crate::interactions::answer_outcome(a, b, row, answer, surface, message, now, r),
    ensures
        r is Err ==> b == a,
        b == (Database {
            bindings: b.bindings,
            commands: b.commands,
            next_command_id: b.next_command_id,
            decisions: b.decisions,
            inputs: b.inputs,
            ..a
        }),
{
}

/// Answering by a button leaves all else alone, and changes nothing where it is refused.
pub proof fn answering_by_a_button_leaves_all_else_alone(
    a: Database,
    b: Database,
    data: Seq<char>,
    interaction: Seq<char>,
    now: i64,
    r: Result<Option<AhpInputSubmission>, Failure>,
)
    requires
        crate::interactions::answer_button_outcome(a, b, data, interaction, now, r),
    ensures
        r is Err ==> b == a,
        b == (Database {
            bindings: b.bindings,
            commands: b.commands,
            next_command_id: b.next_command_id,
            decisions: b.decisions,
            inputs: b.inputs,
            ..a
        }),
{
}

/// Resolving an input leaves all else alone, and changes nothing where it is refused.
pub proof fn resolving_an_input_leaves_all_else_alone(
    a: Database,
    b: Database,
    key: Seq<char>,
    outcome: Seq<char>,
    client: Option<Seq<char>>,
    now: i64,
    r: Result<Option<AhpInputResolution>, Failure>,
)
    requires
        crate::interactions::input_resolved(a, b, key, outcome, client, now, r),
    ensures
        r is Err ==> b == a,
        b == (Database { inputs: b.inputs, ..a }),
{
}

/// Looking for what waits leaves all else alone.
pub proof fn looking_for_what_waits_leaves_all_else_alone(
    a: Database,
    b: Database,
    now: i64,
    r: bool,
)
    requires
        crate::interactions::pending_outcome(a, b, now, r),
    ensures
        b == (Database { decisions: b.decisions, inputs: b.inputs, ..a }),
{
}

/// Noting a press leaves all else alone.
pub proof fn noting_a_press_leaves_all_else_alone(
    a: Database,
    b: Database,
    interaction: Seq<char>,
    event: Seq<char>,
    user: Seq<char>,
    data: Seq<char>,
    now: i64,
    r: bool,
)
    requires
        crate::interactions::press_outcome(a, b, interaction, event, user, data, now, r),
    ensures
        b == (Database { interactions: b.interactions, ..a }),
{
}

/// Queuing a message leaves all else alone, and changes nothing where it is refused.
pub proof fn queuing_a_message_leaves_all_else_alone(
    a: Database,
    b: Database,
    message: Seq<char>,
    session: Seq<char>,
    content: Seq<char>,
    ttl: u64,
    now: i64,
    r: Result<(), Failure>,
)
    requires
        crate::messages::queue_outcome(a, b, message, session, content, ttl, now, r),
    ensures
        r is Err ==> b == a,
        b == (Database { inbound: b.inbound, ..a }),
{
}

/// Noting a message leaves all else alone.
pub proof fn noting_a_message_leaves_all_else_alone(
    a: Database,
    b: Database,
    message: Seq<char>,
    user: Seq<char>,
    now: i64,
    r: bool,
)
    requires
        crate::messages::inbound_outcome(a, b, message, user, now, r),
    ensures
        b == (Database { inbound: b.inbound, ..a }),
{
}

/// Taking a message leaves all else alone.
pub proof fn taking_a_message_leaves_all_else_alone(
    a: Database,
    b: Database,
    session: Seq<char>,
    now: i64,
    r: Option<(String, String)>,
)
    requires
        crate::messages::take_outcome(a, b, session, now, r),
    ensures
        b == (Database { inbound: b.inbound, ..a }),
{
}

/// Marking a message leaves all else alone.
pub proof fn marking_a_message_leaves_all_else_alone(
    a: Database,
    b: Database,
    message: Seq<char>,
    kind: Seq<char>,
    now: i64,
)
    requires
        crate::messages::message_marked(a, b, message, kind, now),
    ensures
        b == (Database { inbound: b.inbound, ..a }),
{
}

/// Beginning a delivery leaves all else alone, and changes nothing where it is refused.
pub proof fn beginning_a_delivery_leaves_all_else_alone(
    a: Database,
    b: Database,
    d: NewDelivery,
    now: i64,
    r: Result<BeginDelivery, Failure>,
)
    requires
        crate::messages::begin_outcome(a, b, d, now, r),
    ensures
        r is Err ==> b == a,
        b == (Database { deliveries: b.deliveries, ..a }),
{
}

/// Finishing a delivery leaves all else alone, and changes nothing where it is refused.
pub proof fn finishing_a_delivery_leaves_all_else_alone(
    a: Database,
    b: Database,
    id: u128,
    status: Seq<char>,
    message: Option<Seq<char>>,
    error: Option<Seq<char>>,
    now: i64,
    r: Result<(), Failure>,
)
    requires
        crate::messages::finish_outcome(a, b, id, status, message, error, now, r),
    ensures
        r is Err ==> b == a,
        b == (Database { deliveries: b.deliveries, ..a }),
{
}

/// Counting a part leaves all else alone, and changes nothing where it is refused.
pub proof fn counting_a_part_leaves_all_else_alone(
    a: Database,
    b: Database,
    delivery_id: u128,
    message_index: u32,
    now: i64,
    r: Result<(), Failure>,
)
    requires
        crate::messages::part_outcome(a, b, delivery_id, message_index, now, r),
    ensures
        r is Err ==> b == a,
        b == (Database { sent: b.sent, ..a }),
{
}

/// Keeping where to resume leaves all else alone.
pub proof fn keeping_where_to_resume_leaves_all_else_alone(
    a: Database,
    b: Database,
    session: Seq<char>,
    sequence: u64,
    url: Option<Seq<char>>,
    now: i64,
)
    requires
        crate::messages::resume_saved(a, b, session, sequence, url, now),
    ensures
        b == (Database { gateway: b.gateway, ..a }),
{
}

/// Keeping the state of the gateway leaves all else alone.
pub proof fn keeping_the_state_of_the_gateway_leaves_all_else_alone(
    a: Database,
    b: Database,
    state: Seq<char>,
    seen: bool,
    now: i64,
)
    requires
        crate::messages::runtime_set(a, b, state, seen, now),
    ensures
        b == (Database { gateway_runtime: b.gateway_runtime, ..a }),
{
}

/// Hearing the gateway leaves all else alone.
pub proof fn hearing_the_gateway_leaves_all_else_alone(
    a: Database,
    b: Database,
    link: GatewayLink,
    p: GatewayPayload,
    after: GatewayLink,
    now: i64,
    r: Result<GatewayEvent, Failure>,
)
    requires
        crate::qq::heard_outcome(a, b, link, p, after, now, r),
    ensures
        b == (Database {
            gateway: b.gateway,
            gateway_runtime: b.gateway_runtime,
            adapter: b.adapter,
            bindings: b.bindings,
            ..a
        }),
{
}

/// Starting again leaves all else alone.
pub proof fn starting_again_leaves_all_else_alone(
    a: Database,
    b: Database,
    now: i64,
)
    requires
        crate::upkeep::recovered(a, b, now),
    ensures
        b == (Database {
            sessions: b.sessions,
            approvals: b.approvals,
            questions: b.questions,
            inbound: b.inbound,
            deliveries: b.deliveries,
            projections: b.projections,
            ..a
        }),
{
}

/// Purging leaves all else alone.
pub proof fn purging_leaves_all_else_alone(
    a: Database,
    b: Database,
    cutoff: int,
    now: i64,
    r: Result<(), Failure>,
)
    requires
        crate::upkeep::purge_outcome(a, b, cutoff, now, r),
    ensures
        b == (Database {
            binding_codes: b.binding_codes,
            sessions: b.sessions,
            approvals: b.approvals,
            questions: b.questions,
            inbound: b.inbound,
            deliveries: b.deliveries,
            sent: b.sent,
            audit: b.audit,
            ..a
        }),
{
}

/// Purging events leaves all else alone.
pub proof fn purging_events_leaves_all_else_alone(
    a: Database,
    b: Database,
    cutoff: int,
    now: i64,
    r: Result<(), Failure>,
)
    requires
        crate::upkeep::purge_events_outcome(a, b, cutoff, now, r),
    ensures
        b == (Database {
            hosts: b.hosts,
            catalog: b.catalog,
            commands: b.commands,
            events: b.events,
            decisions: b.decisions,
            inputs: b.inputs,
            switch_buttons: b.switch_buttons,
            interactions: b.interactions,
            projections: b.projections,
            wizard: b.wizard,
            wizard_buttons: b.wizard_buttons,
            trust_requests: b.trust_requests,
            ..a
        }),
{
}

/// Making the buttons of a dialogue leaves all else alone, and changes nothing where it
/// is refused.
pub proof fn making_the_buttons_of_a_dialogue_leaves_all_else_alone(
    a: Database,
    b: Database,
    wizard: Seq<char>,
    kind: Seq<char>,
    payloads: Seq<Json>,
    drawn: Seq<Vec<String>>,
    ttl_seconds: u64,
    now: i64,
    r: Result<Vec<AhpWizardButtonRecord>, Failure>,
)
    requires
        crate::wizard::make_buttons_outcome(a, b, wizard, kind, payloads, drawn, ttl_seconds, now, r),
    ensures
        r is Err ==> b == a,
        b == (Database {
            wizard: b.wizard,
            wizard_buttons: b.wizard_buttons,
            trust_requests: b.trust_requests,
            ..a
        }),
{
}

/// Pressing a button of a dialogue leaves all else alone.
pub proof fn pressing_a_button_of_a_dialogue_leaves_all_else_alone(
    a: Database,
    b: Database,
    data: Seq<char>,
    now: i64,
    r: Option<AhpWizardButtonRecord>,
)
    requires
        crate::wizard::press_outcome(a, b, data, now, r),
    ensures
        b == (Database {
            wizard: b.wizard,
            wizard_buttons: b.wizard_buttons,
            trust_requests: b.trust_requests,
            ..a
        }),
{
}

/// Asking for trust leaves all else alone, and changes nothing where it is refused.
pub proof fn asking_for_trust_leaves_all_else_alone(
    a: Database,
    b: Database,
    request: Seq<char>,
    uri: Seq<char>,
    open_trust_ui: bool,
    ttl_seconds: u64,
    now: i64,
    r: Result<AhpTrustRequestRecord, Failure>,
)
    requires
        crate::wizard::trust_asked(a, b, request, uri, open_trust_ui, ttl_seconds, now, r),
    ensures
        r is Err ==> b == a,
        b == (Database {
            wizard: b.wizard,
            wizard_buttons: b.wizard_buttons,
            trust_requests: b.trust_requests,
            ..a
        }),
{
}

/// Word on trust leaves all else alone.
pub proof fn word_on_trust_leaves_all_else_alone(
    a: Database,
    b: Database,
    uris: Seq<String>,
    trusted: bool,
    now: i64,
    r: u32,
)
    requires
        crate::wizard::trust_told(a, b, uris, trusted, now, r),
    ensures
        b == (Database {
            wizard: b.wizard,
            wizard_buttons: b.wizard_buttons,
            trust_requests: b.trust_requests,
            ..a
        }),
{
}

} // verus!
