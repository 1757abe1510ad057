//! The tables of the bridge: one row type for each, and what holds of them at
//! all times.
use vstd::arithmetic::power::pow;
use vstd::prelude::*;

use crate::json::Json;
use crate::protocol::{AhpCommandKind, AhpEventKind, AhpHostState, AhpTargetKind, ApprovalState, RiskLevel};
use crate::security::hex_digit;
use crate::tables::unique;
use crate::text::str_eq;

verus! {

broadcast use vstd::string::group_string_axioms;

/// How many sessions are tracked at most.
pub const MAX_TRACKED_AHP_SESSIONS: usize = 5;

/// How many commands one poll hands out at most.
pub const MAX_COMMAND_BATCH: usize = 32;

/// Where the tracking of a session stands.
#[derive(Clone, Copy, Debug, PartialEq, Eq, Structural)]
pub enum BindingState {
    Binding,
    Bound,
    Detaching,
    Lost,
    Failed,
}

impl BindingState {
    /// The name under which the value is written.
    pub open spec fn label(self) -> Seq<char> {
        match self {
            BindingState::Binding => "binding"@,
            BindingState::Bound => "bound"@,
            BindingState::Detaching => "detaching"@,
            BindingState::Lost => "lost"@,
            BindingState::Failed => "failed"@,
        }
    }

    /// The name under which the value is written.
    pub fn as_str(self) -> (r: &'static str)
        ensures
            r@ == self.label(),
    {
        match self {
            BindingState::Binding => "binding",
            BindingState::Bound => "bound",
            BindingState::Detaching => "detaching",
            BindingState::Lost => "lost",
            BindingState::Failed => "failed",
        }
    }

    /// The value of that name.
    pub fn from_label(value: &str) -> (r: Option<BindingState>)
        ensures
            match r {
                Some(k) => k.label() == value@,
                None => forall|k: BindingState| #[trigger] k.label() != value@,
            },
    {
        if str_eq(value, "binding") {
            return Some(BindingState::Binding);
        }
        if str_eq(value, "bound") {
            return Some(BindingState::Bound);
        }
        if str_eq(value, "detaching") {
            return Some(BindingState::Detaching);
        }
        if str_eq(value, "lost") {
            return Some(BindingState::Lost);
        }
        if str_eq(value, "failed") {
            return Some(BindingState::Failed);
        }
        assert forall|k: BindingState| #[trigger] k.label() != value@ by {
            match k {
                BindingState::Binding => {},
                BindingState::Bound => {},
                BindingState::Detaching => {},
                BindingState::Lost => {},
                BindingState::Failed => {},
            }
        }
        None
    }
}

/// Two values of `BindingState` with one name are one value.
pub proof fn binding_state_names_are_distinct(a: BindingState, b: BindingState)
    requires
        a.label() == b.label(),
    ensures
        a == b,
{
    reveal_strlit("binding");
    reveal_strlit("bound");
    reveal_strlit("detaching");
    reveal_strlit("lost");
    reveal_strlit("failed");
    assert("binding"@.len() != "bound"@.len());
    assert("binding"@.len() != "detaching"@.len());
    assert("binding"@.len() != "lost"@.len());
    assert("binding"@.len() != "failed"@.len());
    assert("bound"@.len() != "detaching"@.len());
    assert("bound"@.len() != "lost"@.len());
    assert("bound"@.len() != "failed"@.len());
    assert("detaching"@.len() != "lost"@.len());
    assert("detaching"@.len() != "failed"@.len());
    assert("lost"@.len() != "failed"@.len());
}

/// Where a command to the adapter stands.
#[derive(Clone, Copy, Debug, PartialEq, Eq, Structural)]
pub enum CommandState {
    Pending,
    Leased,
    Acked,
    Rejected,
    Failed,
}

impl CommandState {
    /// The name under which the value is written.
    pub open spec fn label(self) -> Seq<char> {
        match self {
            CommandState::Pending => "pending"@,
            CommandState::Leased => "leased"@,
            CommandState::Acked => "acked"@,
            CommandState::Rejected => "rejected"@,
            CommandState::Failed => "failed"@,
        }
    }

    /// The name under which the value is written.
    pub fn as_str(self) -> (r: &'static str)
        ensures
            r@ == self.label(),
    {
        match self {
            CommandState::Pending => "pending",
            CommandState::Leased => "leased",
            CommandState::Acked => "acked",
            CommandState::Rejected => "rejected",
            CommandState::Failed => "failed",
        }
    }

    /// The value of that name.
    pub fn from_label(value: &str) -> (r: Option<CommandState>)
        ensures
            match r {
                Some(k) => k.label() == value@,
                None => forall|k: CommandState| #[trigger] k.label() != value@,
            },
    {
        if str_eq(value, "pending") {
            return Some(CommandState::Pending);
        }
        if str_eq(value, "leased") {
            return Some(CommandState::Leased);
        }
        if str_eq(value, "acked") {
            return Some(CommandState::Acked);
        }
        if str_eq(value, "rejected") {
            return Some(CommandState::Rejected);
        }
        if str_eq(value, "failed") {
            return Some(CommandState::Failed);
        }
        assert forall|k: CommandState| #[trigger] k.label() != value@ by {
            match k {
                CommandState::Pending => {},
                CommandState::Leased => {},
                CommandState::Acked => {},
                CommandState::Rejected => {},
                CommandState::Failed => {},
            }
        }
        None
    }
}

/// Two values of `CommandState` with one name are one value.
pub proof fn command_state_names_are_distinct(a: CommandState, b: CommandState)
    requires
        a.label() == b.label(),
    ensures
        a == b,
{
    reveal_strlit("pending");
    reveal_strlit("leased");
    reveal_strlit("acked");
    reveal_strlit("rejected");
    reveal_strlit("failed");
    assert("pending"@.len() != "leased"@.len());
    assert("pending"@.len() != "acked"@.len());
    assert("pending"@.len() != "rejected"@.len());
    assert("pending"@.len() != "failed"@.len());
    assert("leased"@.len() != "acked"@.len());
    assert("leased"@.len() != "rejected"@.len());
    assert("leased"@[0] != "failed"@[0]);
    assert("acked"@.len() != "rejected"@.len());
    assert("acked"@.len() != "failed"@.len());
    assert("rejected"@.len() != "failed"@.len());
}

/// Where an approval that a session asks for stands.
#[derive(Clone, Copy, Debug, PartialEq, Eq, Structural)]
pub enum DecisionState {
    Pending,
    Submitted,
    Allowed,
    Denied,
    Expired,
    Failed,
}

impl DecisionState {
    /// The name under which the value is written.
    pub open spec fn label(self) -> Seq<char> {
        match self {
            DecisionState::Pending => "pending"@,
            DecisionState::Submitted => "submitted"@,
            DecisionState::Allowed => "allowed"@,
            DecisionState::Denied => "denied"@,
            DecisionState::Expired => "expired"@,
            DecisionState::Failed => "failed"@,
        }
    }

    /// The name under which the value is written.
    pub fn as_str(self) -> (r: &'static str)
        ensures
            r@ == self.label(),
    {
        match self {
            DecisionState::Pending => "pending",
            DecisionState::Submitted => "submitted",
            DecisionState::Allowed => "allowed",
            DecisionState::Denied => "denied",
            DecisionState::Expired => "expired",
            DecisionState::Failed => "failed",
        }
    }

    /// The value of that name.
    pub fn from_label(value: &str) -> (r: Option<DecisionState>)
        ensures
            match r {
                Some(k) => k.label() == value@,
                None => forall|k: DecisionState| #[trigger] k.label() != value@,
            },
    {
        if str_eq(value, "pending") {
            return Some(DecisionState::Pending);
        }
        if str_eq(value, "submitted") {
            return Some(DecisionState::Submitted);
        }
        if str_eq(value, "allowed") {
            return Some(DecisionState::Allowed);
        }
        if str_eq(value, "denied") {
            return Some(DecisionState::Denied);
        }
        if str_eq(value, "expired") {
            return Some(DecisionState::Expired);
        }
        if str_eq(value, "failed") {
            return Some(DecisionState::Failed);
        }
        assert forall|k: DecisionState| #[trigger] k.label() != value@ by {
            match k {
                DecisionState::Pending => {},
                DecisionState::Submitted => {},
                DecisionState::Allowed => {},
                DecisionState::Denied => {},
                DecisionState::Expired => {},
                DecisionState::Failed => {},
            }
        }
        None
    }
}

/// Two values of `DecisionState` with one name are one value.
pub proof fn decision_state_names_are_distinct(a: DecisionState, b: DecisionState)
    requires
        a.label() == b.label(),
    ensures
        a == b,
{
    reveal_strlit("pending");
    reveal_strlit("submitted");
    reveal_strlit("allowed");
    reveal_strlit("denied");
    reveal_strlit("expired");
    reveal_strlit("failed");
    assert("pending"@.len() != "submitted"@.len());
    assert("pending"@[0] != "allowed"@[0]);
    assert("pending"@.len() != "denied"@.len());
    assert("pending"@[0] != "expired"@[0]);
    assert("pending"@.len() != "failed"@.len());
    assert("submitted"@.len() != "allowed"@.len());
    assert("submitted"@.len() != "denied"@.len());
    assert("submitted"@.len() != "expired"@.len());
    assert("submitted"@.len() != "failed"@.len());
    assert("allowed"@.len() != "denied"@.len());
    assert("allowed"@[0] != "expired"@[0]);
    assert("allowed"@.len() != "failed"@.len());
    assert("denied"@.len() != "expired"@.len());
    assert("denied"@[0] != "failed"@[0]);
    assert("expired"@.len() != "failed"@.len());
}

/// Where an input that a session asks for stands.
#[derive(Clone, Copy, Debug, PartialEq, Eq, Structural)]
pub enum InputState {
    Pending,
    Submitted,
    Answered,
    Declined,
    Cancelled,
    Expired,
    Failed,
}

impl InputState {
    /// The name under which the value is written.
    pub open spec fn label(self) -> Seq<char> {
        match self {
            InputState::Pending => "pending"@,
            InputState::Submitted => "submitted"@,
            InputState::Answered => "answered"@,
            InputState::Declined => "declined"@,
            InputState::Cancelled => "cancelled"@,
            InputState::Expired => "expired"@,
            InputState::Failed => "failed"@,
        }
    }

    /// The name under which the value is written.
    pub fn as_str(self) -> (r: &'static str)
        ensures
            r@ == self.label(),
    {
        match self {
            InputState::Pending => "pending",
            InputState::Submitted => "submitted",
            InputState::Answered => "answered",
            InputState::Declined => "declined",
            InputState::Cancelled => "cancelled",
            InputState::Expired => "expired",
            InputState::Failed => "failed",
        }
    }

    /// The value of that name.
    pub fn from_label(value: &str) -> (r: Option<InputState>)
        ensures
            match r {
                Some(k) => k.label() == value@,
                None => forall|k: InputState| #[trigger] k.label() != value@,
            },
    {
        if str_eq(value, "pending") {
            return Some(InputState::Pending);
        }
        if str_eq(value, "submitted") {
            return Some(InputState::Submitted);
        }
        if str_eq(value, "answered") {
            return Some(InputState::Answered);
        }
        if str_eq(value, "declined") {
            return Some(InputState::Declined);
        }
        if str_eq(value, "cancelled") {
            return Some(InputState::Cancelled);
        }
        if str_eq(value, "expired") {
            return Some(InputState::Expired);
        }
        if str_eq(value, "failed") {
            return Some(InputState::Failed);
        }
        assert forall|k: InputState| #[trigger] k.label() != value@ by {
            match k {
                InputState::Pending => {},
                InputState::Submitted => {},
                InputState::Answered => {},
                InputState::Declined => {},
                InputState::Cancelled => {},
                InputState::Expired => {},
                InputState::Failed => {},
            }
        }
        None
    }
}

/// Two values of `InputState` with one name are one value.
pub proof fn input_state_names_are_distinct(a: InputState, b: InputState)
    requires
        a.label() == b.label(),
    ensures
        a == b,
{
    reveal_strlit("pending");
    reveal_strlit("submitted");
    reveal_strlit("answered");
    reveal_strlit("declined");
    reveal_strlit("cancelled");
    reveal_strlit("expired");
    reveal_strlit("failed");
    assert("pending"@.len() != "submitted"@.len());
    assert("pending"@.len() != "answered"@.len());
    assert("pending"@.len() != "declined"@.len());
    assert("pending"@.len() != "cancelled"@.len());
    assert("pending"@[0] != "expired"@[0]);
    assert("pending"@.len() != "failed"@.len());
    assert("submitted"@.len() != "answered"@.len());
    assert("submitted"@.len() != "declined"@.len());
    assert("submitted"@[0] != "cancelled"@[0]);
    assert("submitted"@.len() != "expired"@.len());
    assert("submitted"@.len() != "failed"@.len());
    assert("answered"@[0] != "declined"@[0]);
    assert("answered"@.len() != "cancelled"@.len());
    assert("answered"@.len() != "expired"@.len());
    assert("answered"@.len() != "failed"@.len());
    assert("declined"@.len() != "cancelled"@.len());
    assert("declined"@.len() != "expired"@.len());
    assert("declined"@.len() != "failed"@.len());
    assert("cancelled"@.len() != "expired"@.len());
    assert("cancelled"@.len() != "failed"@.len());
    assert("expired"@.len() != "failed"@.len());
}

/// Where an agent session stands.
#[derive(Clone, Copy, Debug, PartialEq, Eq, Structural)]
pub enum SessionState {
    Active,
    Waiting,
    Stopped,
    Lost,
}

impl SessionState {
    /// The name under which the value is written.
    pub open spec fn label(self) -> Seq<char> {
        match self {
            SessionState::Active => "active"@,
            SessionState::Waiting => "waiting"@,
            SessionState::Stopped => "stopped"@,
            SessionState::Lost => "lost"@,
        }
    }

    /// The name under which the value is written.
    pub fn as_str(self) -> (r: &'static str)
        ensures
            r@ == self.label(),
    {
        match self {
            SessionState::Active => "active",
            SessionState::Waiting => "waiting",
            SessionState::Stopped => "stopped",
            SessionState::Lost => "lost",
        }
    }

    /// The value of that name.
    pub fn from_label(value: &str) -> (r: Option<SessionState>)
        ensures
            match r {
                Some(k) => k.label() == value@,
                None => forall|k: SessionState| #[trigger] k.label() != value@,
            },
    {
        if str_eq(value, "active") {
            return Some(SessionState::Active);
        }
        if str_eq(value, "waiting") {
            return Some(SessionState::Waiting);
        }
        if str_eq(value, "stopped") {
            return Some(SessionState::Stopped);
        }
        if str_eq(value, "lost") {
            return Some(SessionState::Lost);
        }
        assert forall|k: SessionState| #[trigger] k.label() != value@ by {
            match k {
                SessionState::Active => {},
                SessionState::Waiting => {},
                SessionState::Stopped => {},
                SessionState::Lost => {},
            }
        }
        None
    }
}

/// Two values of `SessionState` with one name are one value.
pub proof fn session_state_names_are_distinct(a: SessionState, b: SessionState)
    requires
        a.label() == b.label(),
    ensures
        a == b,
{
    reveal_strlit("active");
    reveal_strlit("waiting");
    reveal_strlit("stopped");
    reveal_strlit("lost");
    assert("active"@.len() != "waiting"@.len());
    assert("active"@.len() != "stopped"@.len());
    assert("active"@.len() != "lost"@.len());
    assert("waiting"@[0] != "stopped"@[0]);
    assert("waiting"@.len() != "lost"@.len());
    assert("stopped"@.len() != "lost"@.len());
}

/// Where a question stands.
#[derive(Clone, Copy, Debug, PartialEq, Eq, Structural)]
pub enum QuestionState {
    Pending,
    Answered,
    Expired,
    Cancelled,
}

impl QuestionState {
    /// The name under which the value is written.
    pub open spec fn label(self) -> Seq<char> {
        match self {
            QuestionState::Pending => "pending"@,
            QuestionState::Answered => "answered"@,
            QuestionState::Expired => "expired"@,
            QuestionState::Cancelled => "cancelled"@,
        }
    }

    /// The name under which the value is written.
    pub fn as_str(self) -> (r: &'static str)
        ensures
            r@ == self.label(),
    {
        match self {
            QuestionState::Pending => "pending",
            QuestionState::Answered => "answered",
            QuestionState::Expired => "expired",
            QuestionState::Cancelled => "cancelled",
        }
    }

    /// The value of that name.
    pub fn from_label(value: &str) -> (r: Option<QuestionState>)
        ensures
            match r {
                Some(k) => k.label() == value@,
                None => forall|k: QuestionState| #[trigger] k.label() != value@,
            },
    {
        if str_eq(value, "pending") {
            return Some(QuestionState::Pending);
        }
        if str_eq(value, "answered") {
            return Some(QuestionState::Answered);
        }
        if str_eq(value, "expired") {
            return Some(QuestionState::Expired);
        }
        if str_eq(value, "cancelled") {
            return Some(QuestionState::Cancelled);
        }
        assert forall|k: QuestionState| #[trigger] k.label() != value@ by {
            match k {
                QuestionState::Pending => {},
                QuestionState::Answered => {},
                QuestionState::Expired => {},
                QuestionState::Cancelled => {},
            }
        }
        None
    }
}

/// Two values of `QuestionState` with one name are one value.
pub proof fn question_state_names_are_distinct(a: QuestionState, b: QuestionState)
    requires
        a.label() == b.label(),
    ensures
        a == b,
{
    reveal_strlit("pending");
    reveal_strlit("answered");
    reveal_strlit("expired");
    reveal_strlit("cancelled");
    assert("pending"@.len() != "answered"@.len());
    assert("pending"@[0] != "expired"@[0]);
    assert("pending"@.len() != "cancelled"@.len());
    assert("answered"@.len() != "expired"@.len());
    assert("answered"@.len() != "cancelled"@.len());
    assert("expired"@.len() != "cancelled"@.len());
}

/// Where a delivery stands.
#[derive(Clone, Copy, Debug, PartialEq, Eq, Structural)]
pub enum DeliveryStatus {
    Pending,
    Sent,
    Failed,
    InDoubt,
}

impl DeliveryStatus {
    /// The name under which the value is written.
    pub open spec fn label(self) -> Seq<char> {
        match self {
            DeliveryStatus::Pending => "pending"@,
            DeliveryStatus::Sent => "sent"@,
            DeliveryStatus::Failed => "failed"@,
            DeliveryStatus::InDoubt => "in_doubt"@,
        }
    }

    /// The name under which the value is written.
    pub fn as_str(self) -> (r: &'static str)
        ensures
            r@ == self.label(),
    {
        match self {
            DeliveryStatus::Pending => "pending",
            DeliveryStatus::Sent => "sent",
            DeliveryStatus::Failed => "failed",
            DeliveryStatus::InDoubt => "in_doubt",
        }
    }

    /// The value of that name.
    pub fn from_label(value: &str) -> (r: Option<DeliveryStatus>)
        ensures
            match r {
                Some(k) => k.label() == value@,
                None => forall|k: DeliveryStatus| #[trigger] k.label() != value@,
            },
    {
        if str_eq(value, "pending") {
            return Some(DeliveryStatus::Pending);
        }
        if str_eq(value, "sent") {
            return Some(DeliveryStatus::Sent);
        }
        if str_eq(value, "failed") {
            return Some(DeliveryStatus::Failed);
        }
        if str_eq(value, "in_doubt") {
            return Some(DeliveryStatus::InDoubt);
        }
        assert forall|k: DeliveryStatus| #[trigger] k.label() != value@ by {
            match k {
                DeliveryStatus::Pending => {},
                DeliveryStatus::Sent => {},
                DeliveryStatus::Failed => {},
                DeliveryStatus::InDoubt => {},
            }
        }
        None
    }
}

/// Two values of `DeliveryStatus` with one name are one value.
pub proof fn delivery_status_names_are_distinct(a: DeliveryStatus, b: DeliveryStatus)
    requires
        a.label() == b.label(),
    ensures
        a == b,
{
    reveal_strlit("pending");
    reveal_strlit("sent");
    reveal_strlit("failed");
    reveal_strlit("in_doubt");
    assert("pending"@.len() != "sent"@.len());
    assert("pending"@.len() != "failed"@.len());
    assert("pending"@.len() != "in_doubt"@.len());
    assert("sent"@.len() != "failed"@.len());
    assert("sent"@.len() != "in_doubt"@.len());
    assert("failed"@.len() != "in_doubt"@.len());
}

/// What the gateway connection is doing.
#[derive(Clone, Copy, Debug, PartialEq, Eq, Structural)]
pub enum GatewayState {
    Starting,
    Connecting,
    Connected,
    Reconnecting,
    Stopped,
}

impl GatewayState {
    /// The name under which the value is written.
    pub open spec fn label(self) -> Seq<char> {
        match self {
            GatewayState::Starting => "starting"@,
            GatewayState::Connecting => "connecting"@,
            GatewayState::Connected => "connected"@,
            GatewayState::Reconnecting => "reconnecting"@,
            GatewayState::Stopped => "stopped"@,
        }
    }

    /// The name under which the value is written.
    pub fn as_str(self) -> (r: &'static str)
        ensures
            r@ == self.label(),
    {
        match self {
            GatewayState::Starting => "starting",
            GatewayState::Connecting => "connecting",
            GatewayState::Connected => "connected",
            GatewayState::Reconnecting => "reconnecting",
            GatewayState::Stopped => "stopped",
        }
    }

    /// The value of that name.
    pub fn from_label(value: &str) -> (r: Option<GatewayState>)
        ensures
            match r {
                Some(k) => k.label() == value@,
                None => forall|k: GatewayState| #[trigger] k.label() != value@,
            },
    {
        if str_eq(value, "starting") {
            return Some(GatewayState::Starting);
        }
        if str_eq(value, "connecting") {
            return Some(GatewayState::Connecting);
        }
        if str_eq(value, "connected") {
            return Some(GatewayState::Connected);
        }
        if str_eq(value, "reconnecting") {
            return Some(GatewayState::Reconnecting);
        }
        if str_eq(value, "stopped") {
            return Some(GatewayState::Stopped);
        }
        assert forall|k: GatewayState| #[trigger] k.label() != value@ by {
            match k {
                GatewayState::Starting => {},
                GatewayState::Connecting => {},
                GatewayState::Connected => {},
                GatewayState::Reconnecting => {},
                GatewayState::Stopped => {},
            }
        }
        None
    }
}

/// Two values of `GatewayState` with one name are one value.
pub proof fn gateway_state_names_are_distinct(a: GatewayState, b: GatewayState)
    requires
        a.label() == b.label(),
    ensures
        a == b,
{
    reveal_strlit("starting");
    reveal_strlit("connecting");
    reveal_strlit("connected");
    reveal_strlit("reconnecting");
    reveal_strlit("stopped");
    assert("starting"@.len() != "connecting"@.len());
    assert("starting"@.len() != "connected"@.len());
    assert("starting"@.len() != "reconnecting"@.len());
    assert("starting"@.len() != "stopped"@.len());
    assert("connecting"@.len() != "connected"@.len());
    assert("connecting"@.len() != "reconnecting"@.len());
    assert("connecting"@.len() != "stopped"@.len());
    assert("connected"@.len() != "reconnecting"@.len());
    assert("connected"@.len() != "stopped"@.len());
    assert("reconnecting"@.len() != "stopped"@.len());
}

/// What the adapter was last known to be doing.
#[derive(Clone, Copy, Debug, PartialEq, Eq, Structural)]
pub enum AdapterState {
    Connected,
    Stale,
    Stopped,
}

impl AdapterState {
    /// The name under which the value is written.
    pub open spec fn label(self) -> Seq<char> {
        match self {
            AdapterState::Connected => "connected"@,
            AdapterState::Stale => "stale"@,
            AdapterState::Stopped => "stopped"@,
        }
    }

    /// The name under which the value is written.
    pub fn as_str(self) -> (r: &'static str)
        ensures
            r@ == self.label(),
    {
        match self {
            AdapterState::Connected => "connected",
            AdapterState::Stale => "stale",
            AdapterState::Stopped => "stopped",
        }
    }

    /// The value of that name.
    pub fn from_label(value: &str) -> (r: Option<AdapterState>)
        ensures
            match r {
                Some(k) => k.label() == value@,
                None => forall|k: AdapterState| #[trigger] k.label() != value@,
            },
    {
        if str_eq(value, "connected") {
            return Some(AdapterState::Connected);
        }
        if str_eq(value, "stale") {
            return Some(AdapterState::Stale);
        }
        if str_eq(value, "stopped") {
            return Some(AdapterState::Stopped);
        }
        assert forall|k: AdapterState| #[trigger] k.label() != value@ by {
            match k {
                AdapterState::Connected => {},
                AdapterState::Stale => {},
                AdapterState::Stopped => {},
            }
        }
        None
    }
}

/// Two values of `AdapterState` with one name are one value.
pub proof fn adapter_state_names_are_distinct(a: AdapterState, b: AdapterState)
    requires
        a.label() == b.label(),
    ensures
        a == b,
{
    reveal_strlit("connected");
    reveal_strlit("stale");
    reveal_strlit("stopped");
    assert("connected"@.len() != "stale"@.len());
    assert("connected"@.len() != "stopped"@.len());
    assert("stale"@.len() != "stopped"@.len());
}

/// The owner of the bridge.
pub struct OwnerRow {
    pub user_openid: String,
    pub bound_at: i64,
    pub enabled: bool,
}

/// A code with which an owner can bind.
pub struct BindingCodeRow {
    pub code_hash: String,
    pub created_at: i64,
    pub expires_at: i64,
    pub consumed_at: Option<i64>,
}

/// An agent session.
pub struct SessionRow {
    pub session_id: String,
    pub short_code: String,
    pub workspace_hash: String,
    pub state: SessionState,
    pub final_sent: bool,
    pub stop_blocked_once: bool,
    pub cancel_requested: bool,
    pub created_at: i64,
    pub updated_at: i64,
}

/// An approval that an agent session waits for.
pub struct ApprovalRow {
    pub approval_id: u128,
    pub short_code: String,
    pub idempotency_key: String,
    pub session_id: String,
    pub tool_use_id: String,
    pub tool_name: String,
    pub input_hash: String,
    pub redacted_summary: String,
    pub risk: RiskLevel,
    pub state: ApprovalState,
    pub decided_by_message_id: Option<String>,
    pub expires_at: i64,
    pub created_at: i64,
    pub updated_at: i64,
}

/// A question that an agent session waits for.
pub struct QuestionRow {
    pub question_id: u128,
    pub short_code: String,
    pub session_id: String,
    pub question_hash: String,
    pub choices_json: String,
    pub allow_freeform: bool,
    pub state: QuestionState,
    pub answer_message_id: Option<String>,
    pub answer: Option<String>,
    pub expires_at: i64,
    pub created_at: i64,
    pub updated_at: i64,
}

/// A message that came in.
pub struct InboundRow {
    pub message_id: String,
    pub user_openid: String,
    pub session_id: Option<String>,
    pub kind: String,
    pub content: Option<String>,
    pub consumed_at: Option<i64>,
    pub expires_at: Option<i64>,
    pub created_at: i64,
}

/// A message that goes out.
pub struct DeliveryRow {
    pub delivery_id: u128,
    pub idempotency_key: String,
    pub kind: String,
    pub session_id: Option<String>,
    pub qq_message_id: Option<String>,
    pub status: DeliveryStatus,
    pub error_code: Option<String>,
    pub created_at: i64,
    pub updated_at: i64,
}

/// A part of a delivery that was sent.
pub struct SentRow {
    pub delivery_id: u128,
    pub message_index: u32,
    pub sent_at: i64,
}

/// Where a gateway session can be resumed.
pub struct GatewayStateRow {
    pub session_id: String,
    pub sequence: i64,
    pub resume_gateway_url: Option<String>,
    pub updated_at: i64,
}

/// What the gateway connection was last seen doing.
pub struct GatewayRuntimeRow {
    pub state: GatewayState,
    pub last_seen_at: Option<i64>,
    pub updated_at: i64,
}

/// Something worth remembering.
pub struct AuditRow {
    pub occurred_at: i64,
    pub session_code: Option<String>,
    pub event_type: String,
    pub tool_name: Option<String>,
    pub input_hash: Option<String>,
    pub risk: Option<RiskLevel>,
    pub outcome: String,
    pub qq_message_id: Option<String>,
    pub detail_redacted: Option<String>,
}

/// The adapter that is registered.
pub struct AdapterRow {
    pub adapter_id: String,
    pub adapter_instance_id: String,
    pub version: String,
    pub supported_protocols: Vec<String>,
    pub state: AdapterState,
    pub last_seen_at: i64,
    pub updated_at: i64,
}

/// An agent host.
pub struct HostRow {
    pub endpoint_id: String,
    pub host_instance_id: String,
    pub pid: u32,
    pub advertised_protocol: String,
    pub selected_protocol: Option<String>,
    pub state: AhpHostState,
    pub host_label: Option<String>,
    pub ssh_alias: Option<String>,
    pub target_kind: Option<AhpTargetKind>,
    pub target_path: Option<String>,
    pub endpoint_type: Option<String>,
    pub editor_client_tools_available: bool,
    pub last_seen_at: i64,
}

/// A session of the catalogue.
pub struct CatalogRow {
    pub session_uri: String,
    pub short_code: String,
    pub endpoint_id: String,
    pub host_instance_id: String,
    pub provider: String,
    pub title: String,
    pub status: u32,
    pub workspace_uris: Vec<String>,
    pub created_at: String,
    pub modified_at: String,
    pub host_label: Option<String>,
    pub ssh_alias: Option<String>,
    pub target_kind: Option<AhpTargetKind>,
    pub target_path: Option<String>,
    pub editor_client_tools_available: bool,
    pub available: bool,
    pub last_seen_at: i64,
}

/// A session that is tracked.
pub struct BindingRow {
    pub binding_id: String,
    pub generation: i64,
    pub endpoint_id: String,
    pub host_instance_id: Option<String>,
    pub session_uri: String,
    pub chat_uri: Option<String>,
    pub state: BindingState,
    pub last_server_sequence: i64,
    pub active_turn_id: Option<String>,
    pub queued_message_count: i64,
    pub error_code: Option<String>,
    pub last_activity_at: i64,
    pub created_at: i64,
    pub updated_at: i64,
}

/// The session in the foreground.
pub struct ForegroundRow {
    pub binding_id: String,
    pub updated_at: i64,
}

/// How far a command has come.
pub struct ProgressRow {
    pub progress: u64,
    pub total: Option<u64>,
    pub message: Option<String>,
    pub updated_at: i64,
}

/// A command to the adapter.
pub struct CommandRow {
    pub command_id: i64,
    pub command_key: String,
    pub binding_id: String,
    pub binding_generation: i64,
    pub kind: AhpCommandKind,
    pub data: Json,
    pub state: CommandState,
    pub lease_owner: Option<String>,
    pub lease_expires_at: Option<i64>,
    pub error_code: Option<String>,
    pub result: Option<Json>,
    pub progress: Option<ProgressRow>,
    pub created_at: i64,
    pub updated_at: i64,
}

/// An event of a session.
pub struct EventRow {
    pub event_id: String,
    pub host_instance_id: String,
    pub binding_id: String,
    pub binding_generation: i64,
    pub server_sequence: Option<i64>,
    pub session_uri: String,
    pub chat_uri: Option<String>,
    pub turn_id: Option<String>,
    pub kind: AhpEventKind,
    pub origin_client_id: Option<String>,
    pub occurred_at: String,
    pub data_redacted: String,
    pub processed_at: Option<i64>,
    pub processing_error: Option<String>,
    pub created_at: i64,
}

/// An approval that a tracked session asks for.
pub struct DecisionRow {
    pub approval_key: String,
    pub short_code: String,
    pub stage: String,
    pub session_uri: String,
    pub chat_uri: String,
    pub turn_id: String,
    pub tool_call_id: String,
    pub tool_name: String,
    pub summary: String,
    pub state: DecisionState,
    pub allow_button_data: String,
    pub deny_button_data: String,
    pub command_id: Option<i64>,
    pub decided_by_surface: Option<String>,
    pub decided_by_message_id: Option<String>,
    pub expires_at: i64,
    pub created_at: i64,
    pub updated_at: i64,
}

/// An input that a tracked session asks for.
pub struct InputRow {
    pub input_key: String,
    pub short_code: String,
    pub session_uri: String,
    pub chat_uri: String,
    pub request_id: String,
    pub prompt: String,
    pub choices: Vec<String>,
    pub allow_freeform: bool,
    pub selection_mode: String,
    pub state: InputState,
    pub command_id: Option<i64>,
    pub decided_by_surface: Option<String>,
    pub decided_by_message_id: Option<String>,
    pub expires_at: i64,
    pub created_at: i64,
    pub updated_at: i64,
}

/// A button that answers an input.
pub struct InputButtonRow {
    pub button_data: String,
    pub input_key: String,
    pub label: String,
    pub position: u32,
}

/// A button that brings a session to the foreground.
pub struct SwitchButtonRow {
    pub button_data: String,
    pub group_id: String,
    pub session_uri: String,
    pub workspace_uris: Vec<String>,
    pub expires_at: i64,
    pub used_at: Option<i64>,
    pub created_at: i64,
}

/// A button that was pressed.
pub struct InteractionRow {
    pub interaction_id: String,
    pub outer_event_id: String,
    pub user_openid: String,
    pub button_data_hash: String,
    pub ack_code: Option<u8>,
    pub created_at: i64,
}

/// A message that tells the owner of an event.
pub struct ProjectionRow {
    pub event_id: String,
    pub kind: String,
    pub content: String,
    pub delivered: bool,
    pub attempts: u64,
    pub last_error: Option<String>,
    pub replay_key: Option<String>,
    pub created_at: i64,
    pub updated_at: i64,
}

/// The dialogue in which a session is made.
pub struct WizardRow {
    pub wizard_id: String,
    pub mode: String,
    pub state: String,
    pub context: Option<Json>,
    pub pending_task: Option<String>,
    pub create_command_id: Option<i64>,
    pub new_session_uri: Option<String>,
    pub old_binding_endpoint_id: Option<String>,
    pub old_binding_session_uri: Option<String>,
    pub old_binding_host_instance_id: Option<String>,
    pub cancel_requested: bool,
    pub expires_at: i64,
    pub created_at: i64,
    pub updated_at: i64,
}

/// A button of the dialogue in which a session is made.
pub struct WizardButtonRow {
    pub button_data: String,
    pub wizard_id: String,
    pub action_kind: String,
    pub payload: Json,
    pub expires_at: i64,
    pub used_at: Option<i64>,
    pub created_at: i64,
}

/// A workspace whose trust is asked for.
pub struct TrustRow {
    pub request_id: String,
    pub workspace_uri: String,
    pub open_trust_ui: bool,
    pub trusted: bool,
    pub expires_at: i64,
    pub created_at: i64,
    pub updated_at: i64,
}

/// All that the bridge remembers.
pub struct Database {
    pub owner: Option<OwnerRow>,
    pub binding_codes: Vec<BindingCodeRow>,
    pub sessions: Vec<SessionRow>,
    pub approvals: Vec<ApprovalRow>,
    pub questions: Vec<QuestionRow>,
    pub inbound: Vec<InboundRow>,
    pub deliveries: Vec<DeliveryRow>,
    pub sent: Vec<SentRow>,
    pub gateway: Option<GatewayStateRow>,
    pub gateway_runtime: Option<GatewayRuntimeRow>,
    pub audit: Vec<AuditRow>,
    pub adapter: Option<AdapterRow>,
    pub hosts: Vec<HostRow>,
    pub catalog: Vec<CatalogRow>,
    pub bindings: Vec<BindingRow>,
    pub foreground: Option<ForegroundRow>,
    pub commands: Vec<CommandRow>,
    pub next_command_id: i64,
    pub events: Vec<EventRow>,
    pub decisions: Vec<DecisionRow>,
    pub inputs: Vec<InputRow>,
    pub input_buttons: Vec<InputButtonRow>,
    pub switch_buttons: Vec<SwitchButtonRow>,
    pub interactions: Vec<InteractionRow>,
    pub projections: Vec<ProjectionRow>,
    pub wizard: Option<WizardRow>,
    pub wizard_buttons: Vec<WizardButtonRow>,
    pub trust_requests: Vec<TrustRow>,
}

/// Whether a tracked session is not about to be let go.
pub open spec fn is_tracked(row: BindingRow) -> bool {
    row.state != BindingState::Detaching
}

/// The condition of not being about to be let go.
pub open spec fn tracking() -> spec_fn(BindingRow) -> bool {
    |r: BindingRow| is_tracked(r)
}

/// Whether a command has not been disposed of.
pub open spec fn is_open_command(row: CommandRow) -> bool {
    row.state == CommandState::Pending || row.state == CommandState::Leased
}

/// Whether an approval still waits for its outcome.
pub open spec fn is_open_decision(row: DecisionRow) -> bool {
    row.state == DecisionState::Pending || row.state == DecisionState::Submitted
}

/// Whether an input still waits for its outcome.
pub open spec fn is_open_input(row: InputRow) -> bool {
    row.state == InputState::Pending || row.state == InputState::Submitted
}

/// Whether an agent session is running.
pub open spec fn is_running(row: SessionRow) -> bool {
    row.state == SessionState::Active || row.state == SessionState::Waiting
}

/// The tracked sessions are told apart by their identifiers and by their
/// sessions.
pub open spec fn bindings_wf(rows: Seq<BindingRow>) -> bool {
    &&& unique(rows, |r: BindingRow| r.binding_id@)
    &&& unique(rows, |r: BindingRow| r.session_uri@)
}

/// The session in the foreground is tracked.
pub open spec fn foreground_wf(foreground: Option<ForegroundRow>, rows: Seq<BindingRow>) -> bool {
    foreground matches Some(f) ==> exists|i: int|
        0 <= i < rows.len() && (#[trigger] rows[i]).binding_id@ == f.binding_id@
}

/// The commands are told apart by their keys and by their numbers, which have
/// all been given out.
pub open spec fn commands_wf(rows: Seq<CommandRow>, next: i64) -> bool {
    &&& unique(rows, |r: CommandRow| r.command_key@)
    &&& forall|i: int, j: int|
        0 <= i < j < rows.len() ==> (#[trigger] rows[i]).command_id < (
        #[trigger] rows[j]).command_id
    &&& forall|i: int| 0 <= i < rows.len() ==> (#[trigger] rows[i]).command_id < next
    &&& 1 <= next
}

/// The catalogued sessions are told apart by their addresses and by their codes,
/// and each belongs to a known host.
pub open spec fn catalog_wf(rows: Seq<CatalogRow>, hosts: Seq<HostRow>) -> bool {
    &&& unique(rows, |r: CatalogRow| r.session_uri@)
    &&& unique(rows, |r: CatalogRow| r.short_code@)
    &&& forall|i: int|
        0 <= i < rows.len() ==> has_host(hosts, (#[trigger] rows[i]).endpoint_id@)
}

pub open spec fn has_host(hosts: Seq<HostRow>, endpoint: Seq<char>) -> bool {
    exists|i: int| 0 <= i < hosts.len() && (#[trigger] hosts[i]).endpoint_id@ == endpoint
}

/// The approvals are told apart by their keys, codes and buttons.
pub open spec fn decisions_wf(rows: Seq<DecisionRow>) -> bool {
    &&& unique(rows, |r: DecisionRow| r.approval_key@)
    &&& unique(rows, |r: DecisionRow| r.short_code@)
    &&& unique(rows, |r: DecisionRow| r.allow_button_data@)
    &&& unique(rows, |r: DecisionRow| r.deny_button_data@)
}

/// The inputs are told apart by their keys and codes.
pub open spec fn inputs_wf(rows: Seq<InputRow>) -> bool {
    &&& unique(rows, |r: InputRow| r.input_key@)
    &&& unique(rows, |r: InputRow| r.short_code@)
}

/// The agent sessions are told apart by their identifiers and codes.
pub open spec fn sessions_wf(rows: Seq<SessionRow>) -> bool {
    &&& unique(rows, |r: SessionRow| r.session_id@)
    &&& unique(rows, |r: SessionRow| r.short_code@)
}

pub open spec fn has_session(rows: Seq<SessionRow>, id: Seq<char>) -> bool {
    exists|i: int| 0 <= i < rows.len() && (#[trigger] rows[i]).session_id@ == id
}

/// The approvals are told apart by their identifiers, codes and keys, and each
/// belongs to a known session.
pub open spec fn approvals_wf(rows: Seq<ApprovalRow>, sessions: Seq<SessionRow>) -> bool {
    &&& forall|i: int, j: int|
        0 <= i < j < rows.len() ==> (#[trigger] rows[i]).approval_id != (
        #[trigger] rows[j]).approval_id
    &&& unique(rows, |r: ApprovalRow| r.short_code@)
    &&& unique(rows, |r: ApprovalRow| r.idempotency_key@)
    &&& forall|i: int|
        0 <= i < rows.len() ==> has_session(sessions, (#[trigger] rows[i]).session_id@)
}

/// The questions are told apart by their identifiers and codes, and each
/// belongs to a known session.
pub open spec fn questions_wf(rows: Seq<QuestionRow>, sessions: Seq<SessionRow>) -> bool {
    &&& forall|i: int, j: int|
        0 <= i < j < rows.len() ==> (#[trigger] rows[i]).question_id != (
        #[trigger] rows[j]).question_id
    &&& unique(rows, |r: QuestionRow| r.short_code@)
    &&& forall|i: int|
        0 <= i < rows.len() ==> has_session(sessions, (#[trigger] rows[i]).session_id@)
}

/// The messages that came in are told apart by their identifiers, and those that
/// are queued have their content.
pub open spec fn inbound_wf(rows: Seq<InboundRow>) -> bool {
    &&& unique(rows, |r: InboundRow| r.message_id@)
    &&& forall|i: int|
        0 <= i < rows.len() && (#[trigger] rows[i]).kind@ == "queued"@ && rows[i].consumed_at is None
            ==> rows[i].content is Some
}

/// The deliveries are told apart by their identifiers and keys.
pub open spec fn deliveries_wf(rows: Seq<DeliveryRow>) -> bool {
    &&& forall|i: int, j: int|
        0 <= i < j < rows.len() ==> (#[trigger] rows[i]).delivery_id != (
        #[trigger] rows[j]).delivery_id
    &&& unique(rows, |r: DeliveryRow| r.idempotency_key@)
}

impl Database {
    /// What holds of the tables at all times.
    pub open spec fn wf(self) -> bool {
        &&& unique(self.binding_codes@, |r: BindingCodeRow| r.code_hash@)
        &&& sessions_wf(self.sessions@)
        &&& approvals_wf(self.approvals@, self.sessions@)
        &&& questions_wf(self.questions@, self.sessions@)
        &&& inbound_wf(self.inbound@)
        &&& deliveries_wf(self.deliveries@)
        &&& unique(self.hosts@, |r: HostRow| r.endpoint_id@)
        &&& catalog_wf(self.catalog@, self.hosts@)
        &&& bindings_wf(self.bindings@)
        &&& foreground_wf(self.foreground, self.bindings@)
        &&& commands_wf(self.commands@, self.next_command_id)
        &&& unique(self.events@, |r: EventRow| r.event_id@)
        &&& decisions_wf(self.decisions@)
        &&& inputs_wf(self.inputs@)
        &&& unique(self.input_buttons@, |r: InputButtonRow| r.button_data@)
        &&& unique(self.switch_buttons@, |r: SwitchButtonRow| r.button_data@)
        &&& unique(self.interactions@, |r: InteractionRow| r.interaction_id@)
        &&& unique(self.projections@, |r: ProjectionRow| r.event_id@)
        &&& unique(self.wizard_buttons@, |r: WizardButtonRow| r.button_data@)
        &&& unique(self.trust_requests@, |r: TrustRow| r.request_id@)
    }

    /// Whether nothing is remembered.
    pub open spec fn is_empty(self) -> bool {
        &&& self.owner is None && self.gateway is None && self.gateway_runtime is None
        &&& self.adapter is None && self.foreground is None && self.wizard is None
        &&& self.binding_codes@.len() == 0 && self.sessions@.len() == 0
        &&& self.approvals@.len() == 0 && self.questions@.len() == 0
        &&& self.inbound@.len() == 0 && self.deliveries@.len() == 0 && self.sent@.len() == 0
        &&& self.audit@.len() == 0 && self.hosts@.len() == 0 && self.catalog@.len() == 0
        &&& self.bindings@.len() == 0 && self.commands@.len() == 0 && self.events@.len() == 0
        &&& self.decisions@.len() == 0 && self.inputs@.len() == 0
        &&& self.input_buttons@.len() == 0 && self.switch_buttons@.len() == 0
        &&& self.interactions@.len() == 0 && self.projections@.len() == 0
        &&& self.wizard_buttons@.len() == 0 && self.trust_requests@.len() == 0
    }

    /// Tables that hold nothing.
    pub fn new() -> (r: Database)
        ensures
            r.is_empty(),
            r.next_command_id == 1,
            r.wf(),
    {
        let r = Database {
            owner: None,
            binding_codes: Vec::new(),
            sessions: Vec::new(),
            approvals: Vec::new(),
            questions: Vec::new(),
            inbound: Vec::new(),
            deliveries: Vec::new(),
            sent: Vec::new(),
            gateway: None,
            gateway_runtime: None,
            audit: Vec::new(),
            adapter: None,
            hosts: Vec::new(),
            catalog: Vec::new(),
            bindings: Vec::new(),
            foreground: None,
            commands: Vec::new(),
            next_command_id: 1,
            events: Vec::new(),
            decisions: Vec::new(),
            inputs: Vec::new(),
            input_buttons: Vec::new(),
            switch_buttons: Vec::new(),
            interactions: Vec::new(),
            projections: Vec::new(),
            wizard: None,
            wizard_buttons: Vec::new(),
            trust_requests: Vec::new(),
        };
        proof {
            reveal(Seq::filter);
        }
        r
    }
}

/// How an identifier is written: its number in 32 small hexadecimal digits, the
/// highest first, with hyphens after the eighth, twelfth, sixteenth and twentieth.
pub open spec fn uuid_text(id: u128) -> Seq<char> {
    let digits = Seq::new(32, |i: int| hex_digit(id as int / pow(16, (31 - i) as nat) % 16));
    digits.subrange(0, 8) + seq!['-'] + digits.subrange(8, 12) + seq!['-'] + digits.subrange(12, 16)
        + seq!['-'] + digits.subrange(16, 20) + seq!['-'] + digits.subrange(20, 32)
}

/// `uuid::Uuid::new_v4` as a number, with `as_u128`, and as text, with `to_string`:
/// an identifier made of random bits. Which one comes is up to the operating system;
/// that it is new is not promised.
#[verifier::external_body]
pub(crate) fn new_uuid() -> (r: (u128, String))
    ensures
        r.1@ == uuid_text(r.0),
{
    let id = uuid::Uuid::new_v4();
    (id.as_u128(), id.to_string())
}

} // verus!
