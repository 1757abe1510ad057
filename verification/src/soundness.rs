//! Whether tables that come from elsewhere are sound.
use vstd::prelude::*;
use vstd::string::*;

use crate::store::{
    approvals_wf, bindings_wf, catalog_wf, commands_wf, deliveries_wf, foreground_wf, has_host,
    has_session, inbound_wf, questions_wf, sessions_wf, ApprovalRow, BindingCodeRow, BindingRow,
    CatalogRow, CommandRow, Database, DecisionRow, DeliveryRow, EventRow, HostRow, InboundRow,
    InputButtonRow, InputRow, InteractionRow, ProjectionRow, QuestionRow, SessionRow,
    SwitchButtonRow, TrustRow, WizardButtonRow,
};
use crate::tables::unique;
use crate::text::str_eq;

verus! {

broadcast use vstd::string::group_string_axioms;

/// Whether the condition holds of each two rows, in their order.
fn all_pairs<T, F: Fn(&T, &T) -> bool>(
    rows: &Vec<T>,
    f: F,
    Ghost(p): Ghost<spec_fn(T, T) -> bool>,
) -> (r: bool)
    requires
        forall|s: &T, t: &T| #[trigger] call_requires(f, (s, t)),
        forall|s: &T, t: &T, b: bool| call_ensures(f, (s, t), b) ==> b == p(*s, *t),
    ensures
        r == forall|i: int, j: int|
            0 <= i < j < rows@.len() ==> p(#[trigger] rows@[i], #[trigger] rows@[j]),
{
    let mut j: usize = 0;
    while j < rows.len()
        invariant
            j <= rows@.len(),
            forall|s: &T, t: &T| #[trigger] call_requires(f, (s, t)),
            forall|s: &T, t: &T, b: bool| call_ensures(f, (s, t), b) ==> b == p(*s, *t),
            forall|x: int, y: int|
                0 <= x < y < j ==> p(#[trigger] rows@[x], #[trigger] rows@[y]),
        decreases rows@.len() - j,
    {
        let mut i: usize = 0;
        while i < j
            invariant
                i <= j < rows@.len(),
                forall|s: &T, t: &T| #[trigger] call_requires(f, (s, t)),
                forall|s: &T, t: &T, b: bool| call_ensures(f, (s, t), b) ==> b == p(*s, *t),
                forall|x: int| 0 <= x < i ==> p(#[trigger] rows@[x], rows@[j as int]),
            decreases j - i,
        {
            if !f(&rows[i], &rows[j]) {
                assert(!p(rows@[i as int], rows@[j as int]));
                return false;
            }
            i += 1;
        }
        j += 1;
    }
    true
}

/// Whether the condition holds of each row.
fn all_rows<T, F: Fn(&T) -> bool>(rows: &Vec<T>, f: F, Ghost(p): Ghost<spec_fn(T) -> bool>) -> (r:
    bool)
    requires
        forall|t: &T| #[trigger] call_requires(f, (t,)),
        forall|t: &T, b: bool| call_ensures(f, (t,), b) ==> b == p(*t),
    ensures
        r == forall|i: int| 0 <= i < rows@.len() ==> p(#[trigger] rows@[i]),
{
    let mut i: usize = 0;
    while i < rows.len()
        invariant
            i <= rows@.len(),
            forall|t: &T| #[trigger] call_requires(f, (t,)),
            forall|t: &T, b: bool| call_ensures(f, (t,), b) ==> b == p(*t),
            forall|j: int| 0 <= j < i ==> p(#[trigger] rows@[j]),
        decreases rows@.len() - i,
    {
        if !f(&rows[i]) {
            assert(!p(rows@[i as int]));
            return false;
        }
        i += 1;
    }
    true
}

fn binding_codes_differ_by_code_hash(rows: &Vec<BindingCodeRow>) -> (r: bool)
    ensures
        r == unique(rows@, |r: BindingCodeRow| r.code_hash@),
{
    let differ = |s: &BindingCodeRow, t: &BindingCodeRow| -> (b: bool)
        ensures
            b == (s.code_hash@ != t.code_hash@),
    { !str_eq(s.code_hash.as_str(), t.code_hash.as_str()) };
    all_pairs(rows, differ, Ghost(|s: BindingCodeRow, t: BindingCodeRow| s.code_hash@ != t.code_hash@))
}

fn sessions_differ_by_session_id(rows: &Vec<SessionRow>) -> (r: bool)
    ensures
        r == unique(rows@, |r: SessionRow| r.session_id@),
{
    let differ = |s: &SessionRow, t: &SessionRow| -> (b: bool)
        ensures
            b == (s.session_id@ != t.session_id@),
    { !str_eq(s.session_id.as_str(), t.session_id.as_str()) };
    all_pairs(rows, differ, Ghost(|s: SessionRow, t: SessionRow| s.session_id@ != t.session_id@))
}

fn sessions_differ_by_short_code(rows: &Vec<SessionRow>) -> (r: bool)
    ensures
        r == unique(rows@, |r: SessionRow| r.short_code@),
{
    let differ = |s: &SessionRow, t: &SessionRow| -> (b: bool)
        ensures
            b == (s.short_code@ != t.short_code@),
    { !str_eq(s.short_code.as_str(), t.short_code.as_str()) };
    all_pairs(rows, differ, Ghost(|s: SessionRow, t: SessionRow| s.short_code@ != t.short_code@))
}

fn approvals_differ_by_short_code(rows: &Vec<ApprovalRow>) -> (r: bool)
    ensures
        r == unique(rows@, |r: ApprovalRow| r.short_code@),
{
    let differ = |s: &ApprovalRow, t: &ApprovalRow| -> (b: bool)
        ensures
            b == (s.short_code@ != t.short_code@),
    { !str_eq(s.short_code.as_str(), t.short_code.as_str()) };
    all_pairs(rows, differ, Ghost(|s: ApprovalRow, t: ApprovalRow| s.short_code@ != t.short_code@))
}

fn approvals_differ_by_idempotency_key(rows: &Vec<ApprovalRow>) -> (r: bool)
    ensures
        r == unique(rows@, |r: ApprovalRow| r.idempotency_key@),
{
    let differ = |s: &ApprovalRow, t: &ApprovalRow| -> (b: bool)
        ensures
            b == (s.idempotency_key@ != t.idempotency_key@),
    { !str_eq(s.idempotency_key.as_str(), t.idempotency_key.as_str()) };
    all_pairs(rows, differ, Ghost(|s: ApprovalRow, t: ApprovalRow| s.idempotency_key@ != t.idempotency_key@))
}

fn questions_differ_by_short_code(rows: &Vec<QuestionRow>) -> (r: bool)
    ensures
        r == unique(rows@, |r: QuestionRow| r.short_code@),
{
    let differ = |s: &QuestionRow, t: &QuestionRow| -> (b: bool)
        ensures
            b == (s.short_code@ != t.short_code@),
    { !str_eq(s.short_code.as_str(), t.short_code.as_str()) };
    all_pairs(rows, differ, Ghost(|s: QuestionRow, t: QuestionRow| s.short_code@ != t.short_code@))
}

fn inbound_differ_by_message_id(rows: &Vec<InboundRow>) -> (r: bool)
    ensures
        r == unique(rows@, |r: InboundRow| r.message_id@),
{
    let differ = |s: &InboundRow, t: &InboundRow| -> (b: bool)
        ensures
            b == (s.message_id@ != t.message_id@),
    { !str_eq(s.message_id.as_str(), t.message_id.as_str()) };
    all_pairs(rows, differ, Ghost(|s: InboundRow, t: InboundRow| s.message_id@ != t.message_id@))
}

fn deliveries_differ_by_idempotency_key(rows: &Vec<DeliveryRow>) -> (r: bool)
    ensures
        r == unique(rows@, |r: DeliveryRow| r.idempotency_key@),
{
    let differ = |s: &DeliveryRow, t: &DeliveryRow| -> (b: bool)
        ensures
            b == (s.idempotency_key@ != t.idempotency_key@),
    { !str_eq(s.idempotency_key.as_str(), t.idempotency_key.as_str()) };
    all_pairs(rows, differ, Ghost(|s: DeliveryRow, t: DeliveryRow| s.idempotency_key@ != t.idempotency_key@))
}

fn hosts_differ_by_endpoint_id(rows: &Vec<HostRow>) -> (r: bool)
    ensures
        r == unique(rows@, |r: HostRow| r.endpoint_id@),
{
    let differ = |s: &HostRow, t: &HostRow| -> (b: bool)
        ensures
            b == (s.endpoint_id@ != t.endpoint_id@),
    { !str_eq(s.endpoint_id.as_str(), t.endpoint_id.as_str()) };
    all_pairs(rows, differ, Ghost(|s: HostRow, t: HostRow| s.endpoint_id@ != t.endpoint_id@))
}

fn catalog_differ_by_session_uri(rows: &Vec<CatalogRow>) -> (r: bool)
    ensures
        r == unique(rows@, |r: CatalogRow| r.session_uri@),
{
    let differ = |s: &CatalogRow, t: &CatalogRow| -> (b: bool)
        ensures
            b == (s.session_uri@ != t.session_uri@),
    { !str_eq(s.session_uri.as_str(), t.session_uri.as_str()) };
    all_pairs(rows, differ, Ghost(|s: CatalogRow, t: CatalogRow| s.session_uri@ != t.session_uri@))
}

fn catalog_differ_by_short_code(rows: &Vec<CatalogRow>) -> (r: bool)
    ensures
        r == unique(rows@, |r: CatalogRow| r.short_code@),
{
    let differ = |s: &CatalogRow, t: &CatalogRow| -> (b: bool)
        ensures
            b == (s.short_code@ != t.short_code@),
    { !str_eq(s.short_code.as_str(), t.short_code.as_str()) };
    all_pairs(rows, differ, Ghost(|s: CatalogRow, t: CatalogRow| s.short_code@ != t.short_code@))
}

fn bindings_differ_by_binding_id(rows: &Vec<BindingRow>) -> (r: bool)
    ensures
        r == unique(rows@, |r: BindingRow| r.binding_id@),
{
    let differ = |s: &BindingRow, t: &BindingRow| -> (b: bool)
        ensures
            b == (s.binding_id@ != t.binding_id@),
    { !str_eq(s.binding_id.as_str(), t.binding_id.as_str()) };
    all_pairs(rows, differ, Ghost(|s: BindingRow, t: BindingRow| s.binding_id@ != t.binding_id@))
}

fn bindings_differ_by_session_uri(rows: &Vec<BindingRow>) -> (r: bool)
    ensures
        r == unique(rows@, |r: BindingRow| r.session_uri@),
{
    let differ = |s: &BindingRow, t: &BindingRow| -> (b: bool)
        ensures
            b == (s.session_uri@ != t.session_uri@),
    { !str_eq(s.session_uri.as_str(), t.session_uri.as_str()) };
    all_pairs(rows, differ, Ghost(|s: BindingRow, t: BindingRow| s.session_uri@ != t.session_uri@))
}

fn commands_differ_by_command_key(rows: &Vec<CommandRow>) -> (r: bool)
    ensures
        r == unique(rows@, |r: CommandRow| r.command_key@),
{
    let differ = |s: &CommandRow, t: &CommandRow| -> (b: bool)
        ensures
            b == (s.command_key@ != t.command_key@),
    { !str_eq(s.command_key.as_str(), t.command_key.as_str()) };
    all_pairs(rows, differ, Ghost(|s: CommandRow, t: CommandRow| s.command_key@ != t.command_key@))
}

fn events_differ_by_event_id(rows: &Vec<EventRow>) -> (r: bool)
    ensures
        r == unique(rows@, |r: EventRow| r.event_id@),
{
    let differ = |s: &EventRow, t: &EventRow| -> (b: bool)
        ensures
            b == (s.event_id@ != t.event_id@),
    { !str_eq(s.event_id.as_str(), t.event_id.as_str()) };
    all_pairs(rows, differ, Ghost(|s: EventRow, t: EventRow| s.event_id@ != t.event_id@))
}

fn decisions_differ_by_approval_key(rows: &Vec<DecisionRow>) -> (r: bool)
    ensures
        r == unique(rows@, |r: DecisionRow| r.approval_key@),
{
    let differ = |s: &DecisionRow, t: &DecisionRow| -> (b: bool)
        ensures
            b == (s.approval_key@ != t.approval_key@),
    { !str_eq(s.approval_key.as_str(), t.approval_key.as_str()) };
    all_pairs(rows, differ, Ghost(|s: DecisionRow, t: DecisionRow| s.approval_key@ != t.approval_key@))
}

fn decisions_differ_by_short_code(rows: &Vec<DecisionRow>) -> (r: bool)
    ensures
        r == unique(rows@, |r: DecisionRow| r.short_code@),
{
    let differ = |s: &DecisionRow, t: &DecisionRow| -> (b: bool)
        ensures
            b == (s.short_code@ != t.short_code@),
    { !str_eq(s.short_code.as_str(), t.short_code.as_str()) };
    all_pairs(rows, differ, Ghost(|s: DecisionRow, t: DecisionRow| s.short_code@ != t.short_code@))
}

fn decisions_differ_by_allow_button_data(rows: &Vec<DecisionRow>) -> (r: bool)
    ensures
        r == unique(rows@, |r: DecisionRow| r.allow_button_data@),
{
    let differ = |s: &DecisionRow, t: &DecisionRow| -> (b: bool)
        ensures
            b == (s.allow_button_data@ != t.allow_button_data@),
    { !str_eq(s.allow_button_data.as_str(), t.allow_button_data.as_str()) };
    all_pairs(rows, differ, Ghost(|s: DecisionRow, t: DecisionRow| s.allow_button_data@ != t.allow_button_data@))
}

fn decisions_differ_by_deny_button_data(rows: &Vec<DecisionRow>) -> (r: bool)
    ensures
        r == unique(rows@, |r: DecisionRow| r.deny_button_data@),
{
    let differ = |s: &DecisionRow, t: &DecisionRow| -> (b: bool)
        ensures
            b == (s.deny_button_data@ != t.deny_button_data@),
    { !str_eq(s.deny_button_data.as_str(), t.deny_button_data.as_str()) };
    all_pairs(rows, differ, Ghost(|s: DecisionRow, t: DecisionRow| s.deny_button_data@ != t.deny_button_data@))
}

fn inputs_differ_by_input_key(rows: &Vec<InputRow>) -> (r: bool)
    ensures
        r == unique(rows@, |r: InputRow| r.input_key@),
{
    let differ = |s: &InputRow, t: &InputRow| -> (b: bool)
        ensures
            b == (s.input_key@ != t.input_key@),
    { !str_eq(s.input_key.as_str(), t.input_key.as_str()) };
    all_pairs(rows, differ, Ghost(|s: InputRow, t: InputRow| s.input_key@ != t.input_key@))
}

fn inputs_differ_by_short_code(rows: &Vec<InputRow>) -> (r: bool)
    ensures
        r == unique(rows@, |r: InputRow| r.short_code@),
{
    let differ = |s: &InputRow, t: &InputRow| -> (b: bool)
        ensures
            b == (s.short_code@ != t.short_code@),
    { !str_eq(s.short_code.as_str(), t.short_code.as_str()) };
    all_pairs(rows, differ, Ghost(|s: InputRow, t: InputRow| s.short_code@ != t.short_code@))
}

fn input_buttons_differ_by_button_data(rows: &Vec<InputButtonRow>) -> (r: bool)
    ensures
        r == unique(rows@, |r: InputButtonRow| r.button_data@),
{
    let differ = |s: &InputButtonRow, t: &InputButtonRow| -> (b: bool)
        ensures
            b == (s.button_data@ != t.button_data@),
    { !str_eq(s.button_data.as_str(), t.button_data.as_str()) };
    all_pairs(rows, differ, Ghost(|s: InputButtonRow, t: InputButtonRow| s.button_data@ != t.button_data@))
}

fn switch_buttons_differ_by_button_data(rows: &Vec<SwitchButtonRow>) -> (r: bool)
    ensures
        r == unique(rows@, |r: SwitchButtonRow| r.button_data@),
{
    let differ = |s: &SwitchButtonRow, t: &SwitchButtonRow| -> (b: bool)
        ensures
            b == (s.button_data@ != t.button_data@),
    { !str_eq(s.button_data.as_str(), t.button_data.as_str()) };
    all_pairs(rows, differ, Ghost(|s: SwitchButtonRow, t: SwitchButtonRow| s.button_data@ != t.button_data@))
}

fn interactions_differ_by_interaction_id(rows: &Vec<InteractionRow>) -> (r: bool)
    ensures
        r == unique(rows@, |r: InteractionRow| r.interaction_id@),
{
    let differ = |s: &InteractionRow, t: &InteractionRow| -> (b: bool)
        ensures
            b == (s.interaction_id@ != t.interaction_id@),
    { !str_eq(s.interaction_id.as_str(), t.interaction_id.as_str()) };
    all_pairs(rows, differ, Ghost(|s: InteractionRow, t: InteractionRow| s.interaction_id@ != t.interaction_id@))
}

fn projections_differ_by_event_id(rows: &Vec<ProjectionRow>) -> (r: bool)
    ensures
        r == unique(rows@, |r: ProjectionRow| r.event_id@),
{
    let differ = |s: &ProjectionRow, t: &ProjectionRow| -> (b: bool)
        ensures
            b == (s.event_id@ != t.event_id@),
    { !str_eq(s.event_id.as_str(), t.event_id.as_str()) };
    all_pairs(rows, differ, Ghost(|s: ProjectionRow, t: ProjectionRow| s.event_id@ != t.event_id@))
}

fn wizard_buttons_differ_by_button_data(rows: &Vec<WizardButtonRow>) -> (r: bool)
    ensures
        r == unique(rows@, |r: WizardButtonRow| r.button_data@),
{
    let differ = |s: &WizardButtonRow, t: &WizardButtonRow| -> (b: bool)
        ensures
            b == (s.button_data@ != t.button_data@),
    { !str_eq(s.button_data.as_str(), t.button_data.as_str()) };
    all_pairs(rows, differ, Ghost(|s: WizardButtonRow, t: WizardButtonRow| s.button_data@ != t.button_data@))
}

fn trust_requests_differ_by_request_id(rows: &Vec<TrustRow>) -> (r: bool)
    ensures
        r == unique(rows@, |r: TrustRow| r.request_id@),
{
    let differ = |s: &TrustRow, t: &TrustRow| -> (b: bool)
        ensures
            b == (s.request_id@ != t.request_id@),
    { !str_eq(s.request_id.as_str(), t.request_id.as_str()) };
    all_pairs(rows, differ, Ghost(|s: TrustRow, t: TrustRow| s.request_id@ != t.request_id@))
}

fn approvals_differ_by_approval_id(rows: &Vec<ApprovalRow>) -> (r: bool)
    ensures
        r == forall|i: int, j: int|
            0 <= i < j < rows@.len() ==> (#[trigger] rows@[i]).approval_id != (#[trigger] rows@[j]).approval_id,
{
    let differ = |s: &ApprovalRow, t: &ApprovalRow| -> (b: bool)
        ensures
            b == (s.approval_id != t.approval_id),
    { s.approval_id != t.approval_id };
    all_pairs(rows, differ, Ghost(|s: ApprovalRow, t: ApprovalRow| s.approval_id != t.approval_id))
}

fn questions_differ_by_question_id(rows: &Vec<QuestionRow>) -> (r: bool)
    ensures
        r == forall|i: int, j: int|
            0 <= i < j < rows@.len() ==> (#[trigger] rows@[i]).question_id != (#[trigger] rows@[j]).question_id,
{
    let differ = |s: &QuestionRow, t: &QuestionRow| -> (b: bool)
        ensures
            b == (s.question_id != t.question_id),
    { s.question_id != t.question_id };
    all_pairs(rows, differ, Ghost(|s: QuestionRow, t: QuestionRow| s.question_id != t.question_id))
}

fn deliveries_differ_by_delivery_id(rows: &Vec<DeliveryRow>) -> (r: bool)
    ensures
        r == forall|i: int, j: int|
            0 <= i < j < rows@.len() ==> (#[trigger] rows@[i]).delivery_id != (#[trigger] rows@[j]).delivery_id,
{
    let differ = |s: &DeliveryRow, t: &DeliveryRow| -> (b: bool)
        ensures
            b == (s.delivery_id != t.delivery_id),
    { s.delivery_id != t.delivery_id };
    all_pairs(rows, differ, Ghost(|s: DeliveryRow, t: DeliveryRow| s.delivery_id != t.delivery_id))
}

impl Database {
    fn knows_session(&self, id: &str) -> (r: bool)
        ensures
            r == has_session(self.sessions@, id@),
    {
        self.find_session(id).is_some()
    }

    fn knows_host(&self, endpoint: &str) -> (r: bool)
        ensures
            r == has_host(self.hosts@, endpoint@),
    {
        let mut i: usize = 0;
        while i < self.hosts.len()
            invariant
                i <= self.hosts@.len(),
                forall|j: int|
                    0 <= j < i ==> (#[trigger] self.hosts@[j]).endpoint_id@ != endpoint@,
            decreases self.hosts@.len() - i,
        {
            if str_eq(self.hosts[i].endpoint_id.as_str(), endpoint) {
                assert(self.hosts@[i as int].endpoint_id@ == endpoint@);
                return true;
            }
            i += 1;
        }
        false
    }

    fn knows_binding(&self, id: &str) -> (r: bool)
        ensures
            r == exists|i: int|
                0 <= i < self.bindings@.len() && (#[trigger] self.bindings@[i]).binding_id@ == id@,
    {
        let mut i: usize = 0;
        while i < self.bindings.len()
            invariant
                i <= self.bindings@.len(),
                forall|j: int| 0 <= j < i ==> (#[trigger] self.bindings@[j]).binding_id@ != id@,
            decreases self.bindings@.len() - i,
        {
            if str_eq(self.bindings[i].binding_id.as_str(), id) {
                assert(self.bindings@[i as int].binding_id@ == id@);
                return true;
            }
            i += 1;
        }
        false
    }

    fn are_agents_sound(&self) -> (r: bool)
        ensures
            r == (sessions_wf(self.sessions@) && approvals_wf(
                self.approvals@,
                self.sessions@,
            ) && questions_wf(self.questions@, self.sessions@)),
    {
        let asks = |t: &ApprovalRow| -> (b: bool)
            ensures
                b == has_session(self.sessions@, t.session_id@),
        { self.knows_session(t.session_id.as_str()) };
        let questions = |t: &QuestionRow| -> (b: bool)
            ensures
                b == has_session(self.sessions@, t.session_id@),
        { self.knows_session(t.session_id.as_str()) };
        sessions_differ_by_session_id(&self.sessions) && sessions_differ_by_short_code(
            &self.sessions,
        ) && approvals_differ_by_approval_id(&self.approvals) && approvals_differ_by_short_code(
            &self.approvals,
        ) && approvals_differ_by_idempotency_key(&self.approvals) && all_rows(
            &self.approvals,
            asks,
            Ghost(|t: ApprovalRow| has_session(self.sessions@, t.session_id@)),
        ) && questions_differ_by_question_id(&self.questions) && questions_differ_by_short_code(
            &self.questions,
        ) && all_rows(
            &self.questions,
            questions,
            Ghost(|t: QuestionRow| has_session(self.sessions@, t.session_id@)),
        )
    }

    fn are_messages_sound(&self) -> (r: bool)
        ensures
            r == (inbound_wf(self.inbound@) && deliveries_wf(
                self.deliveries@,
            )),
    {
        let holds = |t: &InboundRow| -> (b: bool)
            ensures
                b == (t.kind@ == "queued"@ && t.consumed_at is None ==> t.content is Some),
        { !str_eq(t.kind.as_str(), "queued") || t.consumed_at.is_some() || t.content.is_some() };
        inbound_differ_by_message_id(&self.inbound) && all_rows(
            &self.inbound,
            holds,
            Ghost(
                |t: InboundRow|
                    t.kind@ == "queued"@ && t.consumed_at is None ==> t.content is Some,
            ),
        ) && deliveries_differ_by_delivery_id(&self.deliveries)
            && deliveries_differ_by_idempotency_key(&self.deliveries)
    }

    fn is_catalog_sound(&self) -> (r: bool)
        ensures
            r == (unique(self.hosts@, |r: HostRow| r.endpoint_id@) && catalog_wf(
                self.catalog@,
                self.hosts@,
            )),
    {
        let hosted = |t: &CatalogRow| -> (b: bool)
            ensures
                b == has_host(self.hosts@, t.endpoint_id@),
        { self.knows_host(t.endpoint_id.as_str()) };
        hosts_differ_by_endpoint_id(&self.hosts) && catalog_differ_by_session_uri(&self.catalog)
            && catalog_differ_by_short_code(&self.catalog) && all_rows(
            &self.catalog,
            hosted,
            Ghost(|t: CatalogRow| has_host(self.hosts@, t.endpoint_id@)),
        )
    }

    fn are_bindings_sound(&self) -> (r: bool)
        ensures
            r == (bindings_wf(self.bindings@) && foreground_wf(
                self.foreground,
                self.bindings@,
            )),
    {
        let is_tracked = match &self.foreground {
            None => true,
            Some(f) => self.knows_binding(f.binding_id.as_str()),
        };
        is_tracked && bindings_differ_by_binding_id(&self.bindings)
            && bindings_differ_by_session_uri(&self.bindings)
    }

    fn are_commands_sound(&self) -> (r: bool)
        ensures
            r == commands_wf(self.commands@, self.next_command_id),
    {
        let next = self.next_command_id;
        let rise = |s: &CommandRow, t: &CommandRow| -> (b: bool)
            ensures
                b == (s.command_id < t.command_id),
        { s.command_id < t.command_id };
        let given = |t: &CommandRow| -> (b: bool)
            ensures
                b == (t.command_id < next),
        { t.command_id < next };
        commands_differ_by_command_key(&self.commands) && all_pairs(
            &self.commands,
            rise,
            Ghost(|s: CommandRow, t: CommandRow| s.command_id < t.command_id),
        ) && all_rows(&self.commands, given, Ghost(|t: CommandRow| t.command_id < next)) && 1 <= next
    }

    /// Whether what holds of the tables at all times holds of them.
    pub fn is_sound(&self) -> (r: bool)
        ensures
            r == self.wf(),
    {
        binding_codes_differ_by_code_hash(&self.binding_codes) && self.are_agents_sound()
            && self.are_messages_sound() && self.is_catalog_sound() && self.are_bindings_sound()
            && self.are_commands_sound() && events_differ_by_event_id(&self.events)
            && decisions_differ_by_approval_key(&self.decisions)
            && decisions_differ_by_short_code(&self.decisions)
            && decisions_differ_by_allow_button_data(&self.decisions)
            && decisions_differ_by_deny_button_data(&self.decisions)
            && inputs_differ_by_input_key(&self.inputs) && inputs_differ_by_short_code(&self.inputs)
            && input_buttons_differ_by_button_data(&self.input_buttons)
            && switch_buttons_differ_by_button_data(&self.switch_buttons)
            && interactions_differ_by_interaction_id(&self.interactions)
            && projections_differ_by_event_id(&self.projections)
            && wizard_buttons_differ_by_button_data(&self.wizard_buttons)
            && trust_requests_differ_by_request_id(&self.trust_requests)
    }

    /// Whether command numbers and generations are left to be given out.
    pub fn is_room_left(&self) -> (r: bool)
        ensures
            r == self.has_room(),
    {
        let left = |t: &BindingRow| -> (b: bool)
            ensures
                b == (t.generation < i64::MAX),
        { t.generation < i64::MAX };
        self.next_command_id < i64::MAX - 4 && all_rows(
            &self.bindings,
            left,
            Ghost(|t: BindingRow| t.generation < i64::MAX),
        )
    }

    /// Whether each message about an event can be tried once more.
    pub fn are_attempts_left(&self) -> (r: bool)
        ensures
            r == self.attempts_left(),
    {
        let left = |t: &ProjectionRow| -> (b: bool)
            ensures
                b == (t.attempts < u64::MAX),
        { t.attempts < u64::MAX };
        all_rows(&self.projections, left, Ghost(|t: ProjectionRow| t.attempts < u64::MAX))
    }
}

} // verus!
