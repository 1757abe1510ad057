//! The messages between the bridge, its hooks and its adapters.
use vstd::prelude::*;

use crate::json::{Json, Tree};
use crate::store::new_uuid;
use crate::text::{cat, str_eq};

verus! {

broadcast use vstd::string::group_string_axioms;

/// How an agent host can be reached.
#[derive(Clone, Copy, Debug, PartialEq, Eq, Structural)]
pub enum AhpHostState {
    Connected,
    ReadOnly,
    Incompatible,
    Unreachable,
}

impl AhpHostState {
    /// The name under which the value is written.
    pub open spec fn label(self) -> Seq<char> {
        match self {
            AhpHostState::Connected => "connected"@,
            AhpHostState::ReadOnly => "read_only"@,
            AhpHostState::Incompatible => "incompatible"@,
            AhpHostState::Unreachable => "unreachable"@,
        }
    }

    /// The name under which the value is written.
    pub fn as_str(self) -> (r: &'static str)
        ensures
            r@ == self.label(),
    {
        match self {
            AhpHostState::Connected => "connected",
            AhpHostState::ReadOnly => "read_only",
            AhpHostState::Incompatible => "incompatible",
            AhpHostState::Unreachable => "unreachable",
        }
    }

    /// The value of that name.
    pub fn from_label(value: &str) -> (r: Option<AhpHostState>)
        ensures
            match r {
                Some(k) => k.label() == value@,
                None => forall|k: AhpHostState| #[trigger] k.label() != value@,
            },
    {
        if str_eq(value, "connected") {
            return Some(AhpHostState::Connected);
        }
        if str_eq(value, "read_only") {
            return Some(AhpHostState::ReadOnly);
        }
        if str_eq(value, "incompatible") {
            return Some(AhpHostState::Incompatible);
        }
        if str_eq(value, "unreachable") {
            return Some(AhpHostState::Unreachable);
        }
        assert forall|k: AhpHostState| #[trigger] k.label() != value@ by {
            match k {
                AhpHostState::Connected => {},
                AhpHostState::ReadOnly => {},
                AhpHostState::Incompatible => {},
                AhpHostState::Unreachable => {},
            }
        }
        None
    }
}

/// Two values of `AhpHostState` with one name are one value.
pub proof fn ahp_host_state_names_are_distinct(a: AhpHostState, b: AhpHostState)
    requires
        a.label() == b.label(),
    ensures
        a == b,
{
    reveal_strlit("connected");
    reveal_strlit("read_only");
    reveal_strlit("incompatible");
    reveal_strlit("unreachable");
    assert("connected"@[0] != "read_only"@[0]);
    assert("connected"@.len() != "incompatible"@.len());
    assert("connected"@.len() != "unreachable"@.len());
    assert("read_only"@.len() != "incompatible"@.len());
    assert("read_only"@.len() != "unreachable"@.len());
    assert("incompatible"@.len() != "unreachable"@.len());
}

/// Where a host's workspace lies.
#[derive(Clone, Copy, Debug, PartialEq, Eq, Structural)]
pub enum AhpTargetKind {
    Local,
    Ssh,
}

impl AhpTargetKind {
    /// The name under which the value is written.
    pub open spec fn label(self) -> Seq<char> {
        match self {
            AhpTargetKind::Local => "local"@,
            AhpTargetKind::Ssh => "ssh"@,
        }
    }

    /// The name under which the value is written.
    pub fn as_str(self) -> (r: &'static str)
        ensures
            r@ == self.label(),
    {
        match self {
            AhpTargetKind::Local => "local",
            AhpTargetKind::Ssh => "ssh",
        }
    }

    /// The value of that name.
    pub fn from_label(value: &str) -> (r: Option<AhpTargetKind>)
        ensures
            match r {
                Some(k) => k.label() == value@,
                None => forall|k: AhpTargetKind| #[trigger] k.label() != value@,
            },
    {
        if str_eq(value, "local") {
            return Some(AhpTargetKind::Local);
        }
        if str_eq(value, "ssh") {
            return Some(AhpTargetKind::Ssh);
        }
        assert forall|k: AhpTargetKind| #[trigger] k.label() != value@ by {
            match k {
                AhpTargetKind::Local => {},
                AhpTargetKind::Ssh => {},
            }
        }
        None
    }
}

/// Two values of `AhpTargetKind` with one name are one value.
pub proof fn ahp_target_kind_names_are_distinct(a: AhpTargetKind, b: AhpTargetKind)
    requires
        a.label() == b.label(),
    ensures
        a == b,
{
    reveal_strlit("local");
    reveal_strlit("ssh");
    assert("local"@.len() != "ssh"@.len());
}

/// What an event of a session reports.
#[derive(Clone, Copy, Debug, PartialEq, Eq, Structural)]
pub enum AhpEventKind {
    SessionSnapshot,
    ChatSnapshot,
    UserMessage,
    AssistantMessage,
    ToolStatus,
    ApprovalPending,
    ApprovalResolved,
    InputPending,
    InputResolved,
    TurnStarted,
    TurnCompleted,
    TurnCancelled,
    TurnFailed,
    HostDisconnected,
}

impl AhpEventKind {
    /// The name under which the value is written.
    pub open spec fn label(self) -> Seq<char> {
        match self {
            AhpEventKind::SessionSnapshot => "session_snapshot"@,
            AhpEventKind::ChatSnapshot => "chat_snapshot"@,
            AhpEventKind::UserMessage => "user_message"@,
            AhpEventKind::AssistantMessage => "assistant_message"@,
            AhpEventKind::ToolStatus => "tool_status"@,
            AhpEventKind::ApprovalPending => "approval_pending"@,
            AhpEventKind::ApprovalResolved => "approval_resolved"@,
            AhpEventKind::InputPending => "input_pending"@,
            AhpEventKind::InputResolved => "input_resolved"@,
            AhpEventKind::TurnStarted => "turn_started"@,
            AhpEventKind::TurnCompleted => "turn_completed"@,
            AhpEventKind::TurnCancelled => "turn_cancelled"@,
            AhpEventKind::TurnFailed => "turn_failed"@,
            AhpEventKind::HostDisconnected => "host_disconnected"@,
        }
    }

    /// The name under which the value is written.
    pub fn as_str(self) -> (r: &'static str)
        ensures
            r@ == self.label(),
    {
        match self {
            AhpEventKind::SessionSnapshot => "session_snapshot",
            AhpEventKind::ChatSnapshot => "chat_snapshot",
            AhpEventKind::UserMessage => "user_message",
            AhpEventKind::AssistantMessage => "assistant_message",
            AhpEventKind::ToolStatus => "tool_status",
            AhpEventKind::ApprovalPending => "approval_pending",
            AhpEventKind::ApprovalResolved => "approval_resolved",
            AhpEventKind::InputPending => "input_pending",
            AhpEventKind::InputResolved => "input_resolved",
            AhpEventKind::TurnStarted => "turn_started",
            AhpEventKind::TurnCompleted => "turn_completed",
            AhpEventKind::TurnCancelled => "turn_cancelled",
            AhpEventKind::TurnFailed => "turn_failed",
            AhpEventKind::HostDisconnected => "host_disconnected",
        }
    }

}

/// Two values of `AhpEventKind` with one name are one value.
pub proof fn ahp_event_kind_names_are_distinct(a: AhpEventKind, b: AhpEventKind)
    requires
        a.label() == b.label(),
    ensures
        a == b,
{
    reveal_strlit("session_snapshot");
    reveal_strlit("chat_snapshot");
    reveal_strlit("user_message");
    reveal_strlit("assistant_message");
    reveal_strlit("tool_status");
    reveal_strlit("approval_pending");
    reveal_strlit("approval_resolved");
    reveal_strlit("input_pending");
    reveal_strlit("input_resolved");
    reveal_strlit("turn_started");
    reveal_strlit("turn_completed");
    reveal_strlit("turn_cancelled");
    reveal_strlit("turn_failed");
    reveal_strlit("host_disconnected");
    assert("session_snapshot"@.len() != "chat_snapshot"@.len());
    assert("session_snapshot"@.len() != "user_message"@.len());
    assert("session_snapshot"@.len() != "assistant_message"@.len());
    assert("session_snapshot"@.len() != "tool_status"@.len());
    assert("session_snapshot"@[0] != "approval_pending"@[0]);
    assert("session_snapshot"@.len() != "approval_resolved"@.len());
    assert("session_snapshot"@.len() != "input_pending"@.len());
    assert("session_snapshot"@.len() != "input_resolved"@.len());
    assert("session_snapshot"@.len() != "turn_started"@.len());
    assert("session_snapshot"@.len() != "turn_completed"@.len());
    assert("session_snapshot"@.len() != "turn_cancelled"@.len());
    assert("session_snapshot"@.len() != "turn_failed"@.len());
    assert("session_snapshot"@.len() != "host_disconnected"@.len());
    assert("chat_snapshot"@.len() != "user_message"@.len());
    assert("chat_snapshot"@.len() != "assistant_message"@.len());
    assert("chat_snapshot"@.len() != "tool_status"@.len());
    assert("chat_snapshot"@.len() != "approval_pending"@.len());
    assert("chat_snapshot"@.len() != "approval_resolved"@.len());
    assert("chat_snapshot"@[0] != "input_pending"@[0]);
    assert("chat_snapshot"@.len() != "input_resolved"@.len());
    assert("chat_snapshot"@.len() != "turn_started"@.len());
    assert("chat_snapshot"@.len() != "turn_completed"@.len());
    assert("chat_snapshot"@.len() != "turn_cancelled"@.len());
    assert("chat_snapshot"@.len() != "turn_failed"@.len());
    assert("chat_snapshot"@.len() != "host_disconnected"@.len());
    assert("user_message"@.len() != "assistant_message"@.len());
    assert("user_message"@.len() != "tool_status"@.len());
    assert("user_message"@.len() != "approval_pending"@.len());
    assert("user_message"@.len() != "approval_resolved"@.len());
    assert("user_message"@.len() != "input_pending"@.len());
    assert("user_message"@.len() != "input_resolved"@.len());
    assert("user_message"@[0] != "turn_started"@[0]);
    assert("user_message"@.len() != "turn_completed"@.len());
    assert("user_message"@.len() != "turn_cancelled"@.len());
    assert("user_message"@.len() != "turn_failed"@.len());
    assert("user_message"@.len() != "host_disconnected"@.len());
    assert("assistant_message"@.len() != "tool_status"@.len());
    assert("assistant_message"@.len() != "approval_pending"@.len());
    assert("assistant_message"@[1] != "approval_resolved"@[1]);
    assert("assistant_message"@.len() != "input_pending"@.len());
    assert("assistant_message"@.len() != "input_resolved"@.len());
    assert("assistant_message"@.len() != "turn_started"@.len());
    assert("assistant_message"@.len() != "turn_completed"@.len());
    assert("assistant_message"@.len() != "turn_cancelled"@.len());
    assert("assistant_message"@.len() != "turn_failed"@.len());
    assert("assistant_message"@[0] != "host_disconnected"@[0]);
    assert("tool_status"@.len() != "approval_pending"@.len());
    assert("tool_status"@.len() != "approval_resolved"@.len());
    assert("tool_status"@.len() != "input_pending"@.len());
    assert("tool_status"@.len() != "input_resolved"@.len());
    assert("tool_status"@.len() != "turn_started"@.len());
    assert("tool_status"@.len() != "turn_completed"@.len());
    assert("tool_status"@.len() != "turn_cancelled"@.len());
    assert("tool_status"@[1] != "turn_failed"@[1]);
    assert("tool_status"@.len() != "host_disconnected"@.len());
    assert("approval_pending"@.len() != "approval_resolved"@.len());
    assert("approval_pending"@.len() != "input_pending"@.len());
    assert("approval_pending"@.len() != "input_resolved"@.len());
    assert("approval_pending"@.len() != "turn_started"@.len());
    assert("approval_pending"@.len() != "turn_completed"@.len());
    assert("approval_pending"@.len() != "turn_cancelled"@.len());
    assert("approval_pending"@.len() != "turn_failed"@.len());
    assert("approval_pending"@.len() != "host_disconnected"@.len());
    assert("approval_resolved"@.len() != "input_pending"@.len());
    assert("approval_resolved"@.len() != "input_resolved"@.len());
    assert("approval_resolved"@.len() != "turn_started"@.len());
    assert("approval_resolved"@.len() != "turn_completed"@.len());
    assert("approval_resolved"@.len() != "turn_cancelled"@.len());
    assert("approval_resolved"@.len() != "turn_failed"@.len());
    assert("approval_resolved"@[0] != "host_disconnected"@[0]);
    assert("input_pending"@.len() != "input_resolved"@.len());
    assert("input_pending"@.len() != "turn_started"@.len());
    assert("input_pending"@.len() != "turn_completed"@.len());
    assert("input_pending"@.len() != "turn_cancelled"@.len());
    assert("input_pending"@.len() != "turn_failed"@.len());
    assert("input_pending"@.len() != "host_disconnected"@.len());
    assert("input_resolved"@.len() != "turn_started"@.len());
    assert("input_resolved"@[0] != "turn_completed"@[0]);
    assert("input_resolved"@[0] != "turn_cancelled"@[0]);
    assert("input_resolved"@.len() != "turn_failed"@.len());
    assert("input_resolved"@.len() != "host_disconnected"@.len());
    assert("turn_started"@.len() != "turn_completed"@.len());
    assert("turn_started"@.len() != "turn_cancelled"@.len());
    assert("turn_started"@.len() != "turn_failed"@.len());
    assert("turn_started"@.len() != "host_disconnected"@.len());
    assert("turn_completed"@[6] != "turn_cancelled"@[6]);
    assert("turn_completed"@.len() != "turn_failed"@.len());
    assert("turn_completed"@.len() != "host_disconnected"@.len());
    assert("turn_cancelled"@.len() != "turn_failed"@.len());
    assert("turn_cancelled"@.len() != "host_disconnected"@.len());
    assert("turn_failed"@.len() != "host_disconnected"@.len());
}

/// What a command asks of the adapter.
#[derive(Clone, Copy, Debug, PartialEq, Eq, Structural)]
pub enum AhpCommandKind {
    BindSession,
    UnbindSession,
    SendMessage,
    CancelTurn,
    ApproveTool,
    ReviewToolResult,
    CompleteInput,
    PrepareTarget,
    CreateSession,
    DisposeSession,
}

impl AhpCommandKind {
    /// The name under which the value is written.
    pub open spec fn label(self) -> Seq<char> {
        match self {
            AhpCommandKind::BindSession => "bind_session"@,
            AhpCommandKind::UnbindSession => "unbind_session"@,
            AhpCommandKind::SendMessage => "send_message"@,
            AhpCommandKind::CancelTurn => "cancel_turn"@,
            AhpCommandKind::ApproveTool => "approve_tool"@,
            AhpCommandKind::ReviewToolResult => "review_tool_result"@,
            AhpCommandKind::CompleteInput => "complete_input"@,
            AhpCommandKind::PrepareTarget => "prepare_target"@,
            AhpCommandKind::CreateSession => "create_session"@,
            AhpCommandKind::DisposeSession => "dispose_session"@,
        }
    }

    /// The name under which the value is written.
    pub fn as_str(self) -> (r: &'static str)
        ensures
            r@ == self.label(),
    {
        match self {
            AhpCommandKind::BindSession => "bind_session",
            AhpCommandKind::UnbindSession => "unbind_session",
            AhpCommandKind::SendMessage => "send_message",
            AhpCommandKind::CancelTurn => "cancel_turn",
            AhpCommandKind::ApproveTool => "approve_tool",
            AhpCommandKind::ReviewToolResult => "review_tool_result",
            AhpCommandKind::CompleteInput => "complete_input",
            AhpCommandKind::PrepareTarget => "prepare_target",
            AhpCommandKind::CreateSession => "create_session",
            AhpCommandKind::DisposeSession => "dispose_session",
        }
    }

    /// The value of that name, or what is wrong with the name.
    pub fn try_from(value: &str) -> (r: Result<AhpCommandKind, String>)
        ensures
            match r {
                Ok(k) => k.label() == value@,
                Err(message) => (forall|k: AhpCommandKind| #[trigger] k.label() != value@) && message@
                    == "unknown AHP command kind "@ + value@,
            },
    {
        if str_eq(value, "bind_session") {
            return Ok(AhpCommandKind::BindSession);
        }
        if str_eq(value, "unbind_session") {
            return Ok(AhpCommandKind::UnbindSession);
        }
        if str_eq(value, "send_message") {
            return Ok(AhpCommandKind::SendMessage);
        }
        if str_eq(value, "cancel_turn") {
            return Ok(AhpCommandKind::CancelTurn);
        }
        if str_eq(value, "approve_tool") {
            return Ok(AhpCommandKind::ApproveTool);
        }
        if str_eq(value, "review_tool_result") {
            return Ok(AhpCommandKind::ReviewToolResult);
        }
        if str_eq(value, "complete_input") {
            return Ok(AhpCommandKind::CompleteInput);
        }
        if str_eq(value, "prepare_target") {
            return Ok(AhpCommandKind::PrepareTarget);
        }
        if str_eq(value, "create_session") {
            return Ok(AhpCommandKind::CreateSession);
        }
        if str_eq(value, "dispose_session") {
            return Ok(AhpCommandKind::DisposeSession);
        }
        assert forall|k: AhpCommandKind| #[trigger] k.label() != value@ by {
            match k {
                AhpCommandKind::BindSession => {},
                AhpCommandKind::UnbindSession => {},
                AhpCommandKind::SendMessage => {},
                AhpCommandKind::CancelTurn => {},
                AhpCommandKind::ApproveTool => {},
                AhpCommandKind::ReviewToolResult => {},
                AhpCommandKind::CompleteInput => {},
                AhpCommandKind::PrepareTarget => {},
                AhpCommandKind::CreateSession => {},
                AhpCommandKind::DisposeSession => {},
            }
        }
        Err(cat("unknown AHP command kind ", value))
    }
}

/// Two values of `AhpCommandKind` with one name are one value.
pub proof fn ahp_command_kind_names_are_distinct(a: AhpCommandKind, b: AhpCommandKind)
    requires
        a.label() == b.label(),
    ensures
        a == b,
{
    reveal_strlit("bind_session");
    reveal_strlit("unbind_session");
    reveal_strlit("send_message");
    reveal_strlit("cancel_turn");
    reveal_strlit("approve_tool");
    reveal_strlit("review_tool_result");
    reveal_strlit("complete_input");
    reveal_strlit("prepare_target");
    reveal_strlit("create_session");
    reveal_strlit("dispose_session");
    assert("bind_session"@.len() != "unbind_session"@.len());
    assert("bind_session"@[0] != "send_message"@[0]);
    assert("bind_session"@.len() != "cancel_turn"@.len());
    assert("bind_session"@[0] != "approve_tool"@[0]);
    assert("bind_session"@.len() != "review_tool_result"@.len());
    assert("bind_session"@.len() != "complete_input"@.len());
    assert("bind_session"@.len() != "prepare_target"@.len());
    assert("bind_session"@.len() != "create_session"@.len());
    assert("bind_session"@.len() != "dispose_session"@.len());
    assert("unbind_session"@.len() != "send_message"@.len());
    assert("unbind_session"@.len() != "cancel_turn"@.len());
    assert("unbind_session"@.len() != "approve_tool"@.len());
    assert("unbind_session"@.len() != "review_tool_result"@.len());
    assert("unbind_session"@[0] != "complete_input"@[0]);
    assert("unbind_session"@[0] != "prepare_target"@[0]);
    assert("unbind_session"@[0] != "create_session"@[0]);
    assert("unbind_session"@.len() != "dispose_session"@.len());
    assert("send_message"@.len() != "cancel_turn"@.len());
    assert("send_message"@[0] != "approve_tool"@[0]);
    assert("send_message"@.len() != "review_tool_result"@.len());
    assert("send_message"@.len() != "complete_input"@.len());
    assert("send_message"@.len() != "prepare_target"@.len());
    assert("send_message"@.len() != "create_session"@.len());
    assert("send_message"@.len() != "dispose_session"@.len());
    assert("cancel_turn"@.len() != "approve_tool"@.len());
    assert("cancel_turn"@.len() != "review_tool_result"@.len());
    assert("cancel_turn"@.len() != "complete_input"@.len());
    assert("cancel_turn"@.len() != "prepare_target"@.len());
    assert("cancel_turn"@.len() != "create_session"@.len());
    assert("cancel_turn"@.len() != "dispose_session"@.len());
    assert("approve_tool"@.len() != "review_tool_result"@.len());
    assert("approve_tool"@.len() != "complete_input"@.len());
    assert("approve_tool"@.len() != "prepare_target"@.len());
    assert("approve_tool"@.len() != "create_session"@.len());
    assert("approve_tool"@.len() != "dispose_session"@.len());
    assert("review_tool_result"@.len() != "complete_input"@.len());
    assert("review_tool_result"@.len() != "prepare_target"@.len());
    assert("review_tool_result"@.len() != "create_session"@.len());
    assert("review_tool_result"@.len() != "dispose_session"@.len());
    assert("complete_input"@[0] != "prepare_target"@[0]);
    assert("complete_input"@[1] != "create_session"@[1]);
    assert("complete_input"@.len() != "dispose_session"@.len());
    assert("prepare_target"@[0] != "create_session"@[0]);
    assert("prepare_target"@.len() != "dispose_session"@.len());
    assert("create_session"@.len() != "dispose_session"@.len());
}

/// How the adapter disposed of a command.
#[derive(Clone, Copy, Debug, PartialEq, Eq, Structural)]
pub enum AhpCommandOutcome {
    Applied,
    Rejected,
    Failed,
}

impl AhpCommandOutcome {
    /// The name under which the value is written.
    pub open spec fn label(self) -> Seq<char> {
        match self {
            AhpCommandOutcome::Applied => "acked"@,
            AhpCommandOutcome::Rejected => "rejected"@,
            AhpCommandOutcome::Failed => "failed"@,
        }
    }

    /// The name under which the value is written.
    pub fn as_str(self) -> (r: &'static str)
        ensures
            r@ == self.label(),
    {
        match self {
            AhpCommandOutcome::Applied => "acked",
            AhpCommandOutcome::Rejected => "rejected",
            AhpCommandOutcome::Failed => "failed",
        }
    }

}

/// Two values of `AhpCommandOutcome` with one name are one value.
pub proof fn ahp_command_outcome_names_are_distinct(a: AhpCommandOutcome, b: AhpCommandOutcome)
    requires
        a.label() == b.label(),
    ensures
        a == b,
{
    reveal_strlit("acked");
    reveal_strlit("rejected");
    reveal_strlit("failed");
    assert("acked"@.len() != "rejected"@.len());
    assert("acked"@.len() != "failed"@.len());
    assert("rejected"@.len() != "failed"@.len());
}

/// Where an approval stands.
#[derive(Clone, Copy, Debug, PartialEq, Eq, Structural)]
pub enum ApprovalState {
    Pending,
    Allowed,
    Denied,
    Expired,
    Completed,
    UnknownFailure,
}

impl ApprovalState {
    /// The name under which the value is written.
    pub open spec fn label(self) -> Seq<char> {
        match self {
            ApprovalState::Pending => "pending"@,
            ApprovalState::Allowed => "allowed"@,
            ApprovalState::Denied => "denied"@,
            ApprovalState::Expired => "expired"@,
            ApprovalState::Completed => "completed"@,
            ApprovalState::UnknownFailure => "unknown_failure"@,
        }
    }

    /// The name under which the value is written.
    pub fn as_str(self) -> (r: &'static str)
        ensures
            r@ == self.label(),
    {
        match self {
            ApprovalState::Pending => "pending",
            ApprovalState::Allowed => "allowed",
            ApprovalState::Denied => "denied",
            ApprovalState::Expired => "expired",
            ApprovalState::Completed => "completed",
            ApprovalState::UnknownFailure => "unknown_failure",
        }
    }

    /// The value of that name, or what is wrong with the name.
    pub fn try_from(value: &str) -> (r: Result<ApprovalState, String>)
        ensures
            match r {
                Ok(k) => k.label() == value@,
                Err(message) => (forall|k: ApprovalState| #[trigger] k.label() != value@) && message@
                    == "unknown approval state "@ + value@,
            },
    {
        if str_eq(value, "pending") {
            return Ok(ApprovalState::Pending);
        }
        if str_eq(value, "allowed") {
            return Ok(ApprovalState::Allowed);
        }
        if str_eq(value, "denied") {
            return Ok(ApprovalState::Denied);
        }
        if str_eq(value, "expired") {
            return Ok(ApprovalState::Expired);
        }
        if str_eq(value, "completed") {
            return Ok(ApprovalState::Completed);
        }
        if str_eq(value, "unknown_failure") {
            return Ok(ApprovalState::UnknownFailure);
        }
        assert forall|k: ApprovalState| #[trigger] k.label() != value@ by {
            match k {
                ApprovalState::Pending => {},
                ApprovalState::Allowed => {},
                ApprovalState::Denied => {},
                ApprovalState::Expired => {},
                ApprovalState::Completed => {},
                ApprovalState::UnknownFailure => {},
            }
        }
        Err(cat("unknown approval state ", value))
    }
}

/// Two values of `ApprovalState` with one name are one value.
pub proof fn approval_state_names_are_distinct(a: ApprovalState, b: ApprovalState)
    requires
        a.label() == b.label(),
    ensures
        a == b,
{
    reveal_strlit("pending");
    reveal_strlit("allowed");
    reveal_strlit("denied");
    reveal_strlit("expired");
    reveal_strlit("completed");
    reveal_strlit("unknown_failure");
    assert("pending"@[0] != "allowed"@[0]);
    assert("pending"@.len() != "denied"@.len());
    assert("pending"@[0] != "expired"@[0]);
    assert("pending"@.len() != "completed"@.len());
    assert("pending"@.len() != "unknown_failure"@.len());
    assert("allowed"@.len() != "denied"@.len());
    assert("allowed"@[0] != "expired"@[0]);
    assert("allowed"@.len() != "completed"@.len());
    assert("allowed"@.len() != "unknown_failure"@.len());
    assert("denied"@.len() != "expired"@.len());
    assert("denied"@.len() != "completed"@.len());
    assert("denied"@.len() != "unknown_failure"@.len());
    assert("expired"@.len() != "completed"@.len());
    assert("expired"@.len() != "unknown_failure"@.len());
    assert("completed"@.len() != "unknown_failure"@.len());
}

/// How much a tool call can harm.
#[derive(Clone, Copy, Debug, PartialEq, Eq, Structural)]
pub enum RiskLevel {
    Low,
    Medium,
    High,
    Forbidden,
}

impl RiskLevel {
    /// The name under which the value is written.
    pub open spec fn label(self) -> Seq<char> {
        match self {
            RiskLevel::Low => "low"@,
            RiskLevel::Medium => "medium"@,
            RiskLevel::High => "high"@,
            RiskLevel::Forbidden => "forbidden"@,
        }
    }

    /// The name under which the value is written.
    pub fn as_str(self) -> (r: &'static str)
        ensures
            r@ == self.label(),
    {
        match self {
            RiskLevel::Low => "low",
            RiskLevel::Medium => "medium",
            RiskLevel::High => "high",
            RiskLevel::Forbidden => "forbidden",
        }
    }

    /// The value of that name, or what is wrong with the name.
    pub fn parse_risk(value: &str) -> (r: Result<RiskLevel, String>)
        ensures
            match r {
                Ok(k) => k.label() == value@,
                Err(message) => (forall|k: RiskLevel| #[trigger] k.label() != value@) && message@
                    == "unknown risk level "@ + value@,
            },
    {
        if str_eq(value, "low") {
            return Ok(RiskLevel::Low);
        }
        if str_eq(value, "medium") {
            return Ok(RiskLevel::Medium);
        }
        if str_eq(value, "high") {
            return Ok(RiskLevel::High);
        }
        if str_eq(value, "forbidden") {
            return Ok(RiskLevel::Forbidden);
        }
        assert forall|k: RiskLevel| #[trigger] k.label() != value@ by {
            match k {
                RiskLevel::Low => {},
                RiskLevel::Medium => {},
                RiskLevel::High => {},
                RiskLevel::Forbidden => {},
            }
        }
        Err(cat("unknown risk level ", value))
    }
}

/// Two values of `RiskLevel` with one name are one value.
pub proof fn risk_level_names_are_distinct(a: RiskLevel, b: RiskLevel)
    requires
        a.label() == b.label(),
    ensures
        a == b,
{
    reveal_strlit("low");
    reveal_strlit("medium");
    reveal_strlit("high");
    reveal_strlit("forbidden");
    assert("low"@.len() != "medium"@.len());
    assert("low"@.len() != "high"@.len());
    assert("low"@.len() != "forbidden"@.len());
    assert("medium"@.len() != "high"@.len());
    assert("medium"@.len() != "forbidden"@.len());
    assert("high"@.len() != "forbidden"@.len());
}
/// The adapter that wants to speak for the agent hosts.
#[derive(Debug)]
pub struct AhpAdapterRegistration {
    pub adapter_id: String,
    pub adapter_instance_id: String,
    pub version: String,
    pub supported_protocols: Vec<String>,
}

/// An agent host as the adapter describes it.
#[derive(Debug)]
pub struct AhpHostDescriptor {
    pub endpoint_id: String,
    pub host_instance_id: String,
    pub pid: u32,
    pub advertised_protocol: String,
    pub selected_protocol: Option<String>,
    pub state: AhpHostState,
    pub host_label: Option<String>,
    pub ssh_alias: Option<String>,
    pub target_kind: Option<AhpTargetKind>,
    pub target_path: Option<String>,
    pub endpoint_type: Option<String>,
    pub editor_client_tools_available: Option<bool>,
    pub last_seen_at: Option<i64>,
}

/// A session as the adapter describes it.
#[derive(Debug)]
pub struct AhpSessionDescriptor {
    pub short_code: Option<String>,
    pub endpoint_id: String,
    pub host_instance_id: String,
    pub session_uri: String,
    pub provider: String,
    pub title: String,
    pub status: u32,
    pub workspace_uris: Vec<String>,
    pub created_at: String,
    pub modified_at: String,
    pub host_label: Option<String>,
    pub ssh_alias: Option<String>,
    pub target_kind: Option<AhpTargetKind>,
    pub target_path: Option<String>,
    pub editor_client_tools_available: Option<bool>,
    pub host_state: Option<AhpHostState>,
    pub host_last_seen_at: Option<i64>,
}

/// An event that the adapter publishes.
#[derive(Debug)]
pub struct AhpPublishedEvent {
    pub event_id: String,
    pub host_instance_id: String,
    pub server_sequence: Option<u64>,
    pub session_uri: String,
    pub chat_uri: Option<String>,
    pub turn_id: Option<String>,
    pub kind: AhpEventKind,
    pub origin_client_id: Option<String>,
    pub occurred_at: String,
    pub data: Json,
}

/// A command that is handed to the adapter.
#[derive(Debug)]
pub struct AhpAdapterCommand {
    pub command_id: i64,
    pub command_key: String,
    pub binding_id: String,
    pub binding_generation: i64,
    pub kind: AhpCommandKind,
    pub data: Json,
}

/// The commands that one poll hands to the adapter.
#[derive(Debug)]
pub struct AhpCommandPollResult {
    pub commands: Vec<AhpAdapterCommand>,
}

/// A tracked session as it is shown.
#[derive(Debug)]
pub struct AhpBindingRecord {
    pub binding_id: String,
    pub generation: i64,
    pub endpoint_id: String,
    pub host_instance_id: Option<String>,
    pub session_uri: String,
    pub chat_uri: Option<String>,
    pub state: String,
    pub last_server_sequence: u64,
    pub active_turn_id: Option<String>,
    pub queued_message_count: u32,
    pub last_activity_at: i64,
    pub foreground: bool,
    pub host_label: Option<String>,
    pub ssh_alias: Option<String>,
    pub target_kind: Option<AhpTargetKind>,
    pub target_path: Option<String>,
    pub editor_client_tools_available: Option<bool>,
}

/// The decision on a tool call.
#[derive(Clone, Copy, Debug, PartialEq, Eq, Structural)]
pub enum PermissionDecision {
    Allow,
    Deny,
}

/// The decision on a tool call and why it was taken.
#[derive(Debug)]
pub struct PermissionResult {
    pub decision: PermissionDecision,
    pub reason: String,
}

/// The decision on an agent's wish to stop.
#[derive(Clone, Copy, Debug, PartialEq, Eq, Structural)]
pub enum StopDecision {
    Allow,
    Block,
}

/// The decision on an agent's wish to stop, and a word to the agent.
#[derive(Debug)]
pub struct StopResult {
    pub decision: StopDecision,
    pub reason: Option<String>,
}

// ---------------------------------------------------------------------------
// Requests to the bridge

/// The version of the messages between the bridge and its clients.
pub const IPC_PROTOCOL_VERSION: u32 = 1;

/// How many bytes such a message has at most.
pub const MAX_IPC_MESSAGE_BYTES: usize = 1_048_576;

/// What the bridge is asked for.
#[derive(Debug)]
pub enum BridgeRequest {
    Health,
    RegisterPrompt { session_id: String, cwd: String },
    PreTool {
        session_id: String,
        tool_use_id: String,
        tool_name: String,
        tool_input: Json,
        cwd: String,
    },
    PostTool { session_id: String, tool_use_id: String, tool_name: String },
    Stop { session_id: String, stop_hook_active: bool },
    SendProgress { session_id: Option<String>, session_label: Option<String>, content: String },
    SendFinal {
        session_id: Option<String>,
        session_label: Option<String>,
        content: String,
        idempotency_key: String,
    },
    AskUser {
        session_id: Option<String>,
        session_label: Option<String>,
        question: String,
        choices: Vec<String>,
        allow_freeform: bool,
        timeout_seconds: u64,
    },
    WaitForMessage {
        session_id: Option<String>,
        session_label: Option<String>,
        timeout_seconds: u64,
    },
    Status,
    NewBindCode,
    SetEmergencyEnabled { enabled: bool },
    AhpAdapterRegister { registration: AhpAdapterRegistration },
    AhpCatalogReplace {
        adapter_id: String,
        adapter_instance_id: String,
        hosts: Vec<AhpHostDescriptor>,
        sessions: Vec<AhpSessionDescriptor>,
    },
    AhpBindingReady {
        adapter_id: String,
        adapter_instance_id: String,
        binding_id: String,
        endpoint_id: String,
        host_instance_id: String,
        binding_generation: i64,
        session_uri: String,
        chat_uri: String,
        last_server_sequence: u64,
    },
    AhpBindingFailed {
        adapter_id: String,
        adapter_instance_id: String,
        binding_id: String,
        binding_generation: i64,
        reason_code: String,
    },
    AhpPublishEvents {
        adapter_id: String,
        adapter_instance_id: String,
        binding_id: String,
        binding_generation: i64,
        events: Vec<AhpPublishedEvent>,
    },
    AhpPollCommands { adapter_id: String, adapter_instance_id: String, timeout_seconds: u64 },
    AhpAckCommand {
        adapter_id: String,
        adapter_instance_id: String,
        command_id: i64,
        outcome: AhpCommandOutcome,
        error_code: Option<String>,
    },
    AhpSessions,
    AhpBindSession { endpoint_id: String, session_uri: String },
    AhpUnbindSession,
}

/// A request with what identifies it and who asks.
#[derive(Debug)]
pub struct RpcEnvelope {
    pub version: u32,
    pub request_id: u128,
    pub auth_token: String,
    pub request: BridgeRequest,
}

/// Why a request was not met.
#[derive(Debug)]
pub struct RpcError {
    pub code: String,
    pub message: String,
}

/// The answer to a request.
#[derive(Debug)]
pub struct RpcResponse {
    pub version: u32,
    pub request_id: u128,
    pub result: Option<Json>,
    pub error: Option<RpcError>,
}

/// Whether the answer is this refusal.
pub open spec fn refuses(r: RpcResponse, id: u128, code: Seq<char>, message: Seq<char>) -> bool {
    &&& r.version == IPC_PROTOCOL_VERSION
    &&& r.request_id == id
    &&& r.result is None
    &&& r.error matches Some(e) && e.code@ == code && e.message@ == message
}

/// Whether the answer is this result.
pub open spec fn grants(r: RpcResponse, id: u128, result: Tree) -> bool {
    &&& r.version == IPC_PROTOCOL_VERSION
    &&& r.request_id == id
    &&& r.result matches Some(j) && j@ == result
    &&& r.error is None
}

impl RpcEnvelope {
    /// The request under an identifier of its own.
    pub fn new(auth_token: String, request: BridgeRequest) -> (r: RpcEnvelope)
        ensures
            r.version == IPC_PROTOCOL_VERSION,
            r.auth_token == auth_token,
            r.request == request,
    {
        let (request_id, _) = new_uuid();
        RpcEnvelope {
            version: IPC_PROTOCOL_VERSION,
            request_id,
            auth_token,
            request,
        }
    }
}

impl RpcResponse {
    /// The answer with that result.
    pub fn ok(request_id: u128, result: Json) -> (r: RpcResponse)
        ensures
            grants(r, request_id, result@),
    {
        RpcResponse {
            version: IPC_PROTOCOL_VERSION,
            request_id,
            result: Some(result),
            error: None,
        }
    }

    /// The answer that refuses.
    pub fn error(request_id: u128, code: &str, message: &str) -> (r: RpcResponse)
        ensures
            refuses(r, request_id, code@, message@),
    {
        RpcResponse {
            version: IPC_PROTOCOL_VERSION,
            request_id,
            result: None,
            error: Some(RpcError { code: code.to_owned(), message: message.to_owned() }),
        }
    }
}

} // verus!
