//! The approvals and inputs that tracked sessions ask for.
use vstd::prelude::*;
use vstd::string::*;

use crate::bindings::{fits, out_of_range};
use crate::codes::{
    all_tokens, are_codes, draw_codes, draw_token, draw_tokens, is_token, DRAWS,
};
use crate::commands::{expired, routed, text_member};
use crate::config::{copy_texts, failure, Failure};
use crate::json::{lemma_members_are, Json, Member, Tree};
use crate::protocol::AhpCommandKind;
use crate::security::{is_code, random_code, sha256_hex, text_hash};
use crate::store::{
    is_open_decision, is_open_input, Database, DecisionRow, DecisionState, InputButtonRow, InputRow,
    InputState, InteractionRow,
};
use crate::tables::{
    changed, find, first, lemma_first, lemma_first_holds, least, select, is_selection, unique,
    opt_is, SortKey,
};
use crate::text::{cat, cat3, opt_str_view, opt_view, owned, str_eq, to_upper, upper, views};

verus! {

broadcast use vstd::string::group_string_axioms;

/// An approval that waited too long has expired.
pub open spec fn expire_decision(p: DecisionRow, now: i64) -> DecisionRow {
    if is_open_decision(p) && p.expires_at <= now {
        DecisionRow {
            state: DecisionState::Expired,
            updated_at: now,
            ..p
        }
    } else {
        p
    }
}

/// Whether each row of `b` is the row of `a` in its place after that change.
pub open spec fn all_expire_decision(a: Seq<DecisionRow>, b: Seq<DecisionRow>, now: i64) -> bool {
    a.len() == b.len() && forall|i: int|
        0 <= i < a.len() ==> #[trigger] b[i] == expire_decision(a[i], now)
}

pub(crate) fn apply_expire_decision(rows: &mut Vec<DecisionRow>, now: i64)
    ensures
        all_expire_decision(old(rows)@, final(rows)@, now),
{
    let ghost a = rows@;
    let mut i: usize = 0;
    while i < rows.len()
        invariant
            i <= rows@.len(),
            rows@.len() == a.len(),
            forall|j: int| 0 <= j < i ==> #[trigger] rows@[j] == expire_decision(a[j], now),
            forall|j: int| i <= j < rows@.len() ==> #[trigger] rows@[j] == a[j],
        decreases rows@.len() - i,
    {
        if (rows[i].state == DecisionState::Pending || rows[i].state == DecisionState::Submitted) && rows[i].expires_at <= now {
            rows[i].state = DecisionState::Expired;
            rows[i].updated_at = now;
        }
        i += 1;
    }
}

/// An input that waited too long has expired.
pub open spec fn expire_input(p: InputRow, now: i64) -> InputRow {
    if is_open_input(p) && p.expires_at <= now {
        InputRow {
            state: InputState::Expired,
            updated_at: now,
            ..p
        }
    } else {
        p
    }
}

/// Whether each row of `b` is the row of `a` in its place after that change.
pub open spec fn all_expire_input(a: Seq<InputRow>, b: Seq<InputRow>, now: i64) -> bool {
    a.len() == b.len() && forall|i: int|
        0 <= i < a.len() ==> #[trigger] b[i] == expire_input(a[i], now)
}

pub(crate) fn apply_expire_input(rows: &mut Vec<InputRow>, now: i64)
    ensures
        all_expire_input(old(rows)@, final(rows)@, now),
{
    let ghost a = rows@;
    let mut i: usize = 0;
    while i < rows.len()
        invariant
            i <= rows@.len(),
            rows@.len() == a.len(),
            forall|j: int| 0 <= j < i ==> #[trigger] rows@[j] == expire_input(a[j], now),
            forall|j: int| i <= j < rows@.len() ==> #[trigger] rows@[j] == a[j],
        decreases rows@.len() - i,
    {
        if (rows[i].state == InputState::Pending || rows[i].state == InputState::Submitted) && rows[i].expires_at <= now {
            rows[i].state = InputState::Expired;
            rows[i].updated_at = now;
        }
        i += 1;
    }
}

/// An approval whose command was rejected waits again, unless it has expired.
pub open spec fn reopen_decision(p: DecisionRow, id: i64, now: i64) -> DecisionRow {
    if p.command_id == Some(id) && p.state == DecisionState::Submitted && p.expires_at > now {
        DecisionRow {
            state: DecisionState::Pending,
            command_id: None,
            decided_by_surface: None,
            decided_by_message_id: None,
            updated_at: now,
            ..p
        }
    } else {
        p
    }
}

/// Whether each row of `b` is the row of `a` in its place after that change.
pub open spec fn all_reopen_decision(a: Seq<DecisionRow>, b: Seq<DecisionRow>, id: i64, now: i64) -> bool {
    a.len() == b.len() && forall|i: int|
        0 <= i < a.len() ==> #[trigger] b[i] == reopen_decision(a[i], id, now)
}

pub(crate) fn apply_reopen_decision(rows: &mut Vec<DecisionRow>, id: i64, now: i64)
    ensures
        all_reopen_decision(old(rows)@, final(rows)@, id, now),
{
    let ghost a = rows@;
    let mut i: usize = 0;
    while i < rows.len()
        invariant
            i <= rows@.len(),
            rows@.len() == a.len(),
            forall|j: int| 0 <= j < i ==> #[trigger] rows@[j] == reopen_decision(a[j], id, now),
            forall|j: int| i <= j < rows@.len() ==> #[trigger] rows@[j] == a[j],
        decreases rows@.len() - i,
    {
        if rows[i].command_id == Some(id) && rows[i].state == DecisionState::Submitted && rows[i].expires_at
            > now {
            rows[i].state = DecisionState::Pending;
            rows[i].command_id = None;
            rows[i].decided_by_surface = None;
            rows[i].decided_by_message_id = None;
            rows[i].updated_at = now;
        }
        i += 1;
    }
}

/// An input whose command was rejected waits again, unless it has expired.
pub open spec fn reopen_input(p: InputRow, id: i64, now: i64) -> InputRow {
    if p.command_id == Some(id) && p.state == InputState::Submitted && p.expires_at > now {
        InputRow {
            state: InputState::Pending,
            command_id: None,
            decided_by_surface: None,
            decided_by_message_id: None,
            updated_at: now,
            ..p
        }
    } else {
        p
    }
}

/// Whether each row of `b` is the row of `a` in its place after that change.
pub open spec fn all_reopen_input(a: Seq<InputRow>, b: Seq<InputRow>, id: i64, now: i64) -> bool {
    a.len() == b.len() && forall|i: int|
        0 <= i < a.len() ==> #[trigger] b[i] == reopen_input(a[i], id, now)
}

pub(crate) fn apply_reopen_input(rows: &mut Vec<InputRow>, id: i64, now: i64)
    ensures
        all_reopen_input(old(rows)@, final(rows)@, id, now),
{
    let ghost a = rows@;
    let mut i: usize = 0;
    while i < rows.len()
        invariant
            i <= rows@.len(),
            rows@.len() == a.len(),
            forall|j: int| 0 <= j < i ==> #[trigger] rows@[j] == reopen_input(a[j], id, now),
            forall|j: int| i <= j < rows@.len() ==> #[trigger] rows@[j] == a[j],
        decreases rows@.len() - i,
    {
        if rows[i].command_id == Some(id) && rows[i].state == InputState::Submitted && rows[i].expires_at
            > now {
            rows[i].state = InputState::Pending;
            rows[i].command_id = None;
            rows[i].decided_by_surface = None;
            rows[i].decided_by_message_id = None;
            rows[i].updated_at = now;
        }
        i += 1;
    }
}

/// An approval whose command failed has failed.
pub open spec fn fail_decision(p: DecisionRow, id: i64, now: i64) -> DecisionRow {
    if p.command_id == Some(id) && p.state == DecisionState::Submitted {
        DecisionRow {
            state: DecisionState::Failed,
            updated_at: now,
            ..p
        }
    } else {
        p
    }
}

/// Whether each row of `b` is the row of `a` in its place after that change.
pub open spec fn all_fail_decision(a: Seq<DecisionRow>, b: Seq<DecisionRow>, id: i64, now: i64) -> bool {
    a.len() == b.len() && forall|i: int|
        0 <= i < a.len() ==> #[trigger] b[i] == fail_decision(a[i], id, now)
}

pub(crate) fn apply_fail_decision(rows: &mut Vec<DecisionRow>, id: i64, now: i64)
    ensures
        all_fail_decision(old(rows)@, final(rows)@, id, now),
{
    let ghost a = rows@;
    let mut i: usize = 0;
    while i < rows.len()
        invariant
            i <= rows@.len(),
            rows@.len() == a.len(),
            forall|j: int| 0 <= j < i ==> #[trigger] rows@[j] == fail_decision(a[j], id, now),
            forall|j: int| i <= j < rows@.len() ==> #[trigger] rows@[j] == a[j],
        decreases rows@.len() - i,
    {
        if rows[i].command_id == Some(id) && rows[i].state == DecisionState::Submitted {
            rows[i].state = DecisionState::Failed;
            rows[i].updated_at = now;
        }
        i += 1;
    }
}

/// An input whose command failed has failed.
pub open spec fn fail_input(p: InputRow, id: i64, now: i64) -> InputRow {
    if p.command_id == Some(id) && p.state == InputState::Submitted {
        InputRow {
            state: InputState::Failed,
            updated_at: now,
            ..p
        }
    } else {
        p
    }
}

/// Whether each row of `b` is the row of `a` in its place after that change.
pub open spec fn all_fail_input(a: Seq<InputRow>, b: Seq<InputRow>, id: i64, now: i64) -> bool {
    a.len() == b.len() && forall|i: int|
        0 <= i < a.len() ==> #[trigger] b[i] == fail_input(a[i], id, now)
}

pub(crate) fn apply_fail_input(rows: &mut Vec<InputRow>, id: i64, now: i64)
    ensures
        all_fail_input(old(rows)@, final(rows)@, id, now),
{
    let ghost a = rows@;
    let mut i: usize = 0;
    while i < rows.len()
        invariant
            i <= rows@.len(),
            rows@.len() == a.len(),
            forall|j: int| 0 <= j < i ==> #[trigger] rows@[j] == fail_input(a[j], id, now),
            forall|j: int| i <= j < rows@.len() ==> #[trigger] rows@[j] == a[j],
        decreases rows@.len() - i,
    {
        if rows[i].command_id == Some(id) && rows[i].state == InputState::Submitted {
            rows[i].state = InputState::Failed;
            rows[i].updated_at = now;
        }
        i += 1;
    }
}

/// The press of a button after it was acknowledged.
pub open spec fn acknowledge(p: InteractionRow, id: Seq<char>, code: u8) -> InteractionRow {
    if p.interaction_id@ == id {
        InteractionRow {
            ack_code: Some(code),
            ..p
        }
    } else {
        p
    }
}

/// Whether each row of `b` is the row of `a` in its place after that change.
pub open spec fn all_acknowledge(a: Seq<InteractionRow>, b: Seq<InteractionRow>, id: Seq<char>, code: u8) -> bool {
    a.len() == b.len() && forall|i: int|
        0 <= i < a.len() ==> #[trigger] b[i] == acknowledge(a[i], id, code)
}

pub(crate) fn apply_acknowledge(rows: &mut Vec<InteractionRow>, id: &str, code: u8)
    ensures
        all_acknowledge(old(rows)@, final(rows)@, id@, code),
{
    let ghost a = rows@;
    let mut i: usize = 0;
    while i < rows.len()
        invariant
            i <= rows@.len(),
            rows@.len() == a.len(),
            forall|j: int| 0 <= j < i ==> #[trigger] rows@[j] == acknowledge(a[j], id@, code),
            forall|j: int| i <= j < rows@.len() ==> #[trigger] rows@[j] == a[j],
        decreases rows@.len() - i,
    {
        if str_eq(rows[i].interaction_id.as_str(), id) {
            rows[i].ack_code = Some(code);
        }
        i += 1;
    }
}

// ---------------------------------------------------------------------------
// Approvals

/// An approval that a session asks for.
#[derive(Debug)]
pub struct NewAhpApproval {
    pub approval_key: String,
    pub stage: String,
    pub session_uri: String,
    pub chat_uri: String,
    pub turn_id: String,
    pub tool_call_id: String,
    pub tool_name: String,
    pub summary: String,
    pub expires_at: i64,
}

/// An approval as it is shown.
#[derive(Debug)]
pub struct AhpApprovalRecord {
    pub approval_key: String,
    pub short_code: String,
    pub stage: String,
    pub session_uri: String,
    pub chat_uri: String,
    pub turn_id: String,
    pub tool_call_id: String,
    pub tool_name: String,
    pub summary: String,
    pub state: String,
    pub allow_button_data: String,
    pub deny_button_data: String,
    pub expires_at: i64,
}

/// An approval that was asked for, and whether it is new.
#[derive(Debug)]
pub struct BeginAhpApproval {
    pub record: AhpApprovalRecord,
    pub created: bool,
}

/// A decision that was taken on an approval, and whether it counts.
#[derive(Debug)]
pub struct AhpApprovalSubmission {
    pub record: AhpApprovalRecord,
    pub accepted: bool,
    pub approved: bool,
}

/// Whether the record shows the approval.
pub open spec fn shows_decision(row: DecisionRow, r: AhpApprovalRecord) -> bool {
    &&& r.approval_key == row.approval_key
    &&& r.short_code == row.short_code
    &&& r.stage == row.stage
    &&& r.session_uri == row.session_uri
    &&& r.chat_uri == row.chat_uri
    &&& r.turn_id == row.turn_id
    &&& r.tool_call_id == row.tool_call_id
    &&& r.tool_name == row.tool_name
    &&& r.summary == row.summary
    &&& r.state@ == row.state.label()
    &&& r.allow_button_data == row.allow_button_data
    &&& r.deny_button_data == row.deny_button_data
    &&& r.expires_at == row.expires_at
}

fn decision_record(row: &DecisionRow) -> (r: AhpApprovalRecord)
    ensures
        shows_decision(*row, r),
{
    AhpApprovalRecord {
        approval_key: row.approval_key.clone(),
        short_code: row.short_code.clone(),
        stage: row.stage.clone(),
        session_uri: row.session_uri.clone(),
        chat_uri: row.chat_uri.clone(),
        turn_id: row.turn_id.clone(),
        tool_call_id: row.tool_call_id.clone(),
        tool_name: row.tool_name.clone(),
        summary: row.summary.clone(),
        state: row.state.as_str().to_owned(),
        allow_button_data: row.allow_button_data.clone(),
        deny_button_data: row.deny_button_data.clone(),
        expires_at: row.expires_at,
    }
}

/// The condition of being the approval with that key.
pub open spec fn decision_keyed(key: Seq<char>) -> spec_fn(DecisionRow) -> bool {
    |r: DecisionRow| r.approval_key@ == key
}

/// The condition of being the approval with that code.
pub open spec fn decision_coded(code: Seq<char>) -> spec_fn(DecisionRow) -> bool {
    |r: DecisionRow| r.short_code@ == code
}

/// The condition of being the approval with that button.
pub open spec fn decision_buttoned(data: Seq<char>) -> spec_fn(DecisionRow) -> bool {
    |r: DecisionRow| r.allow_button_data@ == data || r.deny_button_data@ == data
}

/// Whether the row is the approval that was just asked for, with these codes.
pub open spec fn is_new_decision(
    r: DecisionRow,
    n: NewAhpApproval,
    code: Seq<char>,
    allow: Seq<char>,
    deny: Seq<char>,
    now: i64,
) -> bool {
    &&& r.approval_key == n.approval_key
    &&& r.short_code@ == code
    &&& r.stage == n.stage
    &&& r.session_uri == n.session_uri
    &&& r.chat_uri == n.chat_uri
    &&& r.turn_id == n.turn_id
    &&& r.tool_call_id == n.tool_call_id
    &&& r.tool_name == n.tool_name
    &&& r.summary == n.summary
    &&& r.state == DecisionState::Pending
    &&& r.allow_button_data@ == allow
    &&& r.deny_button_data@ == deny
    &&& r.command_id is None
    &&& r.decided_by_surface is None
    &&& r.decided_by_message_id is None
    &&& r.expires_at == n.expires_at
    &&& r.created_at == now
    &&& r.updated_at == now
}

/// Whether no approval has the code or one of the buttons.
pub open spec fn decision_codes_free(
    rows: Seq<DecisionRow>,
    code: Seq<char>,
    allow: Seq<char>,
    deny: Seq<char>,
) -> bool {
    forall|i: int|
        0 <= i < rows.len() ==> (#[trigger] rows[i]).short_code@ != code
            && rows[i].allow_button_data@ != allow && rows[i].deny_button_data@ != deny
}

/// Whether `b` is `a` with the approval asked for under these codes, after
/// approvals and inputs that waited too long have expired.
pub open spec fn decision_begun(
    a: Database,
    b: Database,
    n: NewAhpApproval,
    code: Seq<char>,
    allow: Seq<char>,
    deny: Seq<char>,
    now: i64,
) -> bool {
    exists|m: Database|
        {
            &&& #[trigger] expired(a, m, now)
            &&& b == (Database { decisions: b.decisions, ..m })
            &&& b.decisions@ == m.decisions@.push(b.decisions@.last())
            &&& is_new_decision(b.decisions@.last(), n, code, allow, deny, now)
        }
}

/// The code of an approval and the data of its two buttons.
#[derive(Debug)]
pub struct ApprovalCodes {
    pub code: String,
    pub allow: String,
    pub deny: String,
}

/// Whether the texts have the form of an approval's code and buttons.
pub open spec fn are_decision_codes(c: ApprovalCodes) -> bool {
    &&& is_code(c.code@, None, 5)
    &&& is_token(c.allow@, "appr_"@)
    &&& is_token(c.deny@, "rejt_"@)
}

/// Whether these are as many codes and buttons as are drawn for an approval at most.
pub open spec fn are_approval_draws(drawn: Seq<ApprovalCodes>) -> bool {
    &&& drawn.len() == DRAWS
    &&& forall|k: int| 0 <= k < drawn.len() ==> are_decision_codes(#[trigger] drawn[k])
}

/// The condition of being a code and buttons that no approval has.
pub open spec fn free_decision_codes(rows: Seq<DecisionRow>) -> spec_fn(ApprovalCodes) -> bool {
    |c: ApprovalCodes| decision_codes_free(rows, c.code@, c.allow@, c.deny@)
}

/// What comes of asking for an approval, where these codes and buttons were drawn for
/// it: it gets the first of them that are free, and where none are nothing happens.
pub open spec fn begin_decision_outcome(
    a: Database,
    b: Database,
    n: NewAhpApproval,
    drawn: Seq<ApprovalCodes>,
    now: i64,
    r: Result<BeginAhpApproval, Failure>,
) -> bool {
    match first(a.decisions@, decision_keyed(n.approval_key@)) {
        Some(row) => expired(a, b, now) && (r matches Ok(begun) && !begun.created
            && shows_decision(expire_decision(row, now), begun.record)),
        None => if n.stage@ != "parameter"@ && n.stage@ != "result"@ {
            b == a && (r matches Err(f) && f.message@ == "invalid AHP approval stage"@)
        } else {
            match first(drawn, free_decision_codes(a.decisions@)) {
                None => b == a && (r matches Err(f) && f.message@
                    == "failed to allocate a unique AHP approval code"@),
                Some(c) => {
                    &&& decision_begun(a, b, n, c.code@, c.allow@, c.deny@, now)
                    &&& r matches Ok(begun) && begun.created && shows_decision(
                        b.decisions@.last(),
                        begun.record,
                    )
                },
            }
        },
    }
}

fn draw_approval_codes() -> (r: Vec<ApprovalCodes>)
    ensures
        are_approval_draws(r@),
{
    let mut r: Vec<ApprovalCodes> = Vec::new();
    while r.len() < DRAWS
        invariant
            r@.len() <= DRAWS,
            forall|k: int| 0 <= k < r@.len() ==> are_decision_codes(#[trigger] r@[k]),
        decreases DRAWS - r@.len(),
    {
        let code = random_code(None, 5);
        r.push(ApprovalCodes { code, allow: draw_token("appr_"), deny: draw_token("rejt_") });
    }
    r
}

/// Why a decision on an approval that waits cannot be passed on.
pub open spec fn decision_fault(db: Database, row: DecisionRow) -> Option<Seq<char>> {
    if db.bound_fault(row.session_uri@) is Some {
        db.bound_fault(row.session_uri@)
    } else if opt_view(db.binding_of(row.session_uri@)->0.chat_uri) != Some(row.chat_uri@) {
        Some("AHP approval targets a stale Chat"@)
    } else {
        None
    }
}

/// The key of the command that passes a decision on.
pub open spec fn decision_key(row: DecisionRow, approved: bool) -> Seq<char> {
    "approval:"@ + row.approval_key@ + (if approved {
        ":allow"@
    } else {
        ":deny"@
    })
}

/// The kind of the command that passes a decision on.
pub open spec fn decision_kind(row: DecisionRow) -> AhpCommandKind {
    if row.stage@ == "parameter"@ {
        AhpCommandKind::ApproveTool
    } else {
        AhpCommandKind::ReviewToolResult
    }
}

/// What the command that passes a decision on says.
pub open spec fn decision_data(row: DecisionRow, approved: bool) -> Tree {
    Tree::Object(
        seq![
            ("approval_key"@, Tree::Text(row.approval_key@)),
            ("session_uri"@, Tree::Text(row.session_uri@)),
            ("chat_uri"@, Tree::Text(row.chat_uri@)),
            ("turn_id"@, Tree::Text(row.turn_id@)),
            ("tool_call_id"@, Tree::Text(row.tool_call_id@)),
            ("approved"@, Tree::Bool(approved)),
        ],
    )
}

/// The approval after a decision on it was passed on.
pub open spec fn is_submitted_decision(
    p: DecisionRow,
    q: DecisionRow,
    key: Seq<char>,
    command: i64,
    surface: Seq<char>,
    message: Seq<char>,
    now: i64,
) -> bool {
    if p.approval_key@ == key && p.state == DecisionState::Pending {
        &&& q == (DecisionRow {
            state: DecisionState::Submitted,
            command_id: Some(command),
            decided_by_surface: q.decided_by_surface,
            decided_by_message_id: q.decided_by_message_id,
            updated_at: now,
            ..p
        })
        &&& opt_view(q.decided_by_surface) == Some(surface)
        &&& opt_view(q.decided_by_message_id) == Some(message)
    } else {
        q == p
    }
}

/// Whether `b` is `a` with the decision on the approval passed on.
pub open spec fn decision_passed_on(
    a: Database,
    b: Database,
    row: DecisionRow,
    approved: bool,
    surface: Seq<char>,
    message: Seq<char>,
    now: i64,
) -> bool {
    exists|m: Database, x: Database, command: i64|
        {
            &&& #[trigger] expired(a, m, now)
            &&& #[trigger] routed(
                m,
                x,
                decision_key(row, approved),
                a.binding_of(row.session_uri@)->0,
                decision_kind(row),
                decision_data(row, approved),
                now,
                command,
            )
            &&& b == (Database { decisions: b.decisions, ..x })
            &&& changed(
                m.decisions@,
                b.decisions@,
                |p: DecisionRow, q: DecisionRow|
                    is_submitted_decision(
                        p,
                        q,
                        row.approval_key@,
                        command,
                        surface,
                        message,
                        now,
                    ),
            )
        }
}

/// What comes of a decision on an approval. Only the first one counts: an
/// approval that does not wait any more is left as it is.
pub open spec fn decision_outcome(
    a: Database,
    b: Database,
    found: Option<DecisionRow>,
    approved: bool,
    surface: Seq<char>,
    message: Seq<char>,
    now: i64,
    r: Result<Option<AhpApprovalSubmission>, Failure>,
) -> bool {
    match found {
        None => b == a && (r matches Ok(None)),
        Some(row) => if expire_decision(row, now).state != DecisionState::Pending {
            &&& expired(a, b, now)
            &&& r matches Ok(Some(s)) && !s.accepted && s.approved == approved && shows_decision(
                expire_decision(row, now),
                s.record,
            )
        } else {
            match r {
                Err(f) => b == a && decision_fault(a, row) == Some(f.message@),
                Ok(None) => false,
                Ok(Some(s)) => {
                    &&& decision_fault(a, row) is None
                    &&& decision_passed_on(a, b, row, approved, surface, message, now)
                    &&& s.accepted && s.approved == approved
                    &&& first(b.decisions@, decision_keyed(row.approval_key@)) is Some
                    &&& shows_decision(
                        first(b.decisions@, decision_keyed(row.approval_key@))->0,
                        s.record,
                    )
                },
            }
        },
    }
}

/// What comes of a button of an approval that was pressed, where the press says what is
/// decided: nothing where the two disagree.
pub open spec fn decision_button_outcome(
    a: Database,
    b: Database,
    data: Seq<char>,
    approved: bool,
    interaction: Seq<char>,
    now: i64,
    r: Result<Option<AhpApprovalSubmission>, Failure>,
) -> bool {
    let found = first(a.decisions@, decision_buttoned(data));
    if found is Some && (found->0.allow_button_data@ == data) != approved {
        b == a && r is Err && r->Err_0.message@
            == "QQ button ID does not match approval action data"@
    } else {
        decision_outcome(a, b, found, approved, "qq_button"@, interaction, now, r)
    }
}


/// Whether `b` is `a` after word of how an approval was decided: one that waits for its
/// outcome has it, and what is known of it is told.
pub open spec fn decision_resolved(
    a: Database,
    b: Database,
    key: Seq<char>,
    approved: bool,
    client: Option<Seq<char>>,
    now: i64,
    r: Option<AhpApprovalRecord>,
) -> bool {
    &&& b == (Database { decisions: b.decisions, ..a })
    &&& changed(
        a.decisions@,
        b.decisions@,
        |p: DecisionRow, q: DecisionRow|
            if p.approval_key@ == key && is_open_decision(p) {
                q == (DecisionRow {
                    state: if approved {
                        DecisionState::Allowed
                    } else {
                        DecisionState::Denied
                    },
                    decided_by_surface: q.decided_by_surface,
                    updated_at: now,
                    ..p
                }) && if p.decided_by_surface is Some {
                    q.decided_by_surface == p.decided_by_surface
                } else {
                    opt_view(q.decided_by_surface) == client
                }
            } else {
                q == p
            },
    )
    &&& match first(b.decisions@, decision_keyed(key)) {
        Some(row) => r matches Some(record) && shows_decision(row, record),
        None => r is None,
    }
}


impl Database {
    fn find_decision(&self, key: &str) -> (r: Option<usize>)
        ensures
            match r {
                Some(i) => i < self.decisions@.len() && self.decisions@[i as int].approval_key@
                    == key@ && first(self.decisions@, decision_keyed(key@)) == Some(
                    self.decisions@[i as int],
                ),
                None => first(self.decisions@, decision_keyed(key@)) is None && forall|j: int|
                    0 <= j < self.decisions@.len() ==> (#[trigger] self.decisions@[j]).approval_key@
                        != key@,
            },
    {
        let test = |r: &DecisionRow| -> (b: bool)
            ensures
                b == (r.approval_key@ == key@),
        { str_eq(r.approval_key.as_str(), key) };
        find(&self.decisions, test, Ghost(decision_keyed(key@)))
    }

    fn find_decision_code(&self, code: &str) -> (r: Option<usize>)
        ensures
            match r {
                Some(i) => i < self.decisions@.len() && first(
                    self.decisions@,
                    decision_coded(code@),
                ) == Some(self.decisions@[i as int]),
                None => first(self.decisions@, decision_coded(code@)) is None,
            },
    {
        let test = |r: &DecisionRow| -> (b: bool)
            ensures
                b == (r.short_code@ == code@),
        { str_eq(r.short_code.as_str(), code) };
        find(&self.decisions, test, Ghost(decision_coded(code@)))
    }

    fn are_decision_codes_free(&self, code: &str, allow: &str, deny: &str) -> (r: bool)
        ensures
            r == decision_codes_free(self.decisions@, code@, allow@, deny@),
    {
        let mut i: usize = 0;
        while i < self.decisions.len()
            invariant
                i <= self.decisions@.len(),
                forall|j: int|
                    0 <= j < i ==> (#[trigger] self.decisions@[j]).short_code@ != code@
                        && self.decisions@[j].allow_button_data@ != allow@
                        && self.decisions@[j].deny_button_data@ != deny@,
            decreases self.decisions@.len() - i,
        {
            if str_eq(self.decisions[i].short_code.as_str(), code) || str_eq(
                self.decisions[i].allow_button_data.as_str(),
                allow,
            ) || str_eq(self.decisions[i].deny_button_data.as_str(), deny) {
                return false;
            }
            i += 1;
        }
        true
    }

    /// Asks for an approval, unless it was asked for before.
    pub fn ahp_begin_approval(&mut self, approval: &NewAhpApproval, now: i64) -> (r: Result<
        BeginAhpApproval,
        Failure,
    >)
        requires
            old(self).wf(),
        ensures
            final(self).wf(),
            exists|drawn: Seq<ApprovalCodes>|
                are_approval_draws(drawn) && #[trigger] begin_decision_outcome(
                    *old(self),
                    *final(self),
                    *approval,
                    drawn,
                    now,
                    r,
                ),
    {
        let drawn = draw_approval_codes();
        self.begin_approval_with_codes(approval, &drawn, now)
    }

    /// Asks for an approval, unless it was asked for before, under the first of the
    /// codes and buttons that no approval has.
    pub fn begin_approval_with_codes(
        &mut self,
        approval: &NewAhpApproval,
        drawn: &Vec<ApprovalCodes>,
        now: i64,
    ) -> (r: Result<BeginAhpApproval, Failure>)
        requires
            old(self).wf(),
        ensures
            final(self).wf(),
            begin_decision_outcome(*old(self), *final(self), *approval, drawn@, now, r),
    {
        match self.find_decision(approval.approval_key.as_str()) {
            Some(i) => {
                self.expire_ahp_interactions(now);
                Ok(BeginAhpApproval { record: decision_record(&self.decisions[i]), created: false })
            },
            None => {
                if !str_eq(approval.stage.as_str(), "parameter") && !str_eq(
                    approval.stage.as_str(),
                    "result",
                ) {
                    return Err(failure("invalid AHP approval stage"));
                }
                let test = |c: &ApprovalCodes| -> (b: bool)
                    ensures
                        b == (free_decision_codes(self.decisions@))(*c),
                {
                    self.are_decision_codes_free(c.code.as_str(), c.allow.as_str(), c.deny.as_str())
                };
                match find(drawn, test, Ghost(free_decision_codes(self.decisions@))) {
                    None => Err(failure("failed to allocate a unique AHP approval code")),
                    Some(k) => {
                        let c = &drawn[k];
                        self.insert_decision(
                            approval,
                            c.code.clone(),
                            c.allow.clone(),
                            c.deny.clone(),
                            now,
                        );
                        let i: usize = self.decisions.len() - 1;
                        let record = decision_record(&self.decisions[i]);
                        Ok(BeginAhpApproval { record, created: true })
                    },
                }
            },
        }
    }

    /// Asks for an approval under codes that are free.
    pub fn insert_decision(
        &mut self,
        approval: &NewAhpApproval,
        code: String,
        allow: String,
        deny: String,
        now: i64,
    )
        requires
            old(self).wf(),
            first(old(self).decisions@, decision_keyed(approval.approval_key@)) is None,
            decision_codes_free(old(self).decisions@, code@, allow@, deny@),
        ensures
            final(self).wf(),
            decision_begun(*old(self), *final(self), *approval, code@, allow@, deny@, now),
            final(self).decisions@.len() == old(self).decisions@.len() + 1,
    {
        proof {
            lemma_first_holds(self.decisions@, decision_keyed(approval.approval_key@));
        }
        let ghost a = *self;
        self.expire_ahp_interactions(now);
        let ghost m = *self;
        let row = DecisionRow {
            approval_key: approval.approval_key.clone(),
            short_code: code,
            stage: approval.stage.clone(),
            session_uri: approval.session_uri.clone(),
            chat_uri: approval.chat_uri.clone(),
            turn_id: approval.turn_id.clone(),
            tool_call_id: approval.tool_call_id.clone(),
            tool_name: approval.tool_name.clone(),
            summary: approval.summary.clone(),
            state: DecisionState::Pending,
            allow_button_data: allow,
            deny_button_data: deny,
            command_id: None,
            decided_by_surface: None,
            decided_by_message_id: None,
            expires_at: approval.expires_at,
            created_at: now,
            updated_at: now,
        };
        self.decisions.push(row);
        proof {
            assert forall|j: int| 0 <= j < m.decisions@.len() implies (
            #[trigger] m.decisions@[j]).approval_key@ != approval.approval_key@
                && m.decisions@[j].short_code@ != code@ && m.decisions@[j].allow_button_data@
                != allow@ && m.decisions@[j].deny_button_data@ != deny@ by {
                assert(a.decisions@[j].approval_key@ != approval.approval_key@);
            }
            assert(expired(a, m, now));
        }
    }

    /// The approval with that code, whatever the case of its letters.
    pub fn ahp_approval_by_code(&self, short_code: &str) -> (r: Option<AhpApprovalRecord>)
        ensures
            match first(self.decisions@, decision_coded(upper(short_code@))) {
                Some(row) => r matches Some(record) && shows_decision(row, record),
                None => r is None,
            },
    {
        let code = to_upper(short_code);
        match self.find_decision_code(code.as_str()) {
            Some(i) => Some(decision_record(&self.decisions[i])),
            None => None,
        }
    }

    fn decide(
        &mut self,
        i: usize,
        approved: bool,
        surface: &str,
        message_id: &str,
        now: i64,
    ) -> (r: Result<Option<AhpApprovalSubmission>, Failure>)
        requires
            old(self).wf(),
            old(self).has_room(),
            i < old(self).decisions@.len(),
        ensures
            final(self).wf(),
            decision_outcome(
                *old(self),
                *final(self),
                Some(old(self).decisions@[i as int]),
                approved,
                surface@,
                message_id@,
                now,
                r,
            ),
    {
        let ghost a = *self;
        let ghost row = self.decisions@[i as int];
        if self.decisions[i].state != DecisionState::Pending || self.decisions[i].expires_at
            <= now {
            self.expire_ahp_interactions(now);
            let record = decision_record(&self.decisions[i]);
            return Ok(Some(AhpApprovalSubmission { record, accepted: false, approved }));
        }
        let at = match self.require_bound_binding_for_session(
            self.decisions[i].session_uri.as_str(),
        ) {
            Err(f) => {
                return Err(f);
            },
            Ok(at) => at,
        };
        if !opt_is(&self.bindings[at].chat_uri, self.decisions[i].chat_uri.as_str()) {
            return Err(failure("AHP approval targets a stale Chat"));
        }
        let kind = if str_eq(self.decisions[i].stage.as_str(), "parameter") {
            AhpCommandKind::ApproveTool
        } else {
            AhpCommandKind::ReviewToolResult
        };
        let approval_key = self.decisions[i].approval_key.clone();
        let key = cat3(
            "approval:",
            approval_key.as_str(),
            if approved {
                ":allow"
            } else {
                ":deny"
            },
        );
        let mut v: Vec<Member> = Vec::new();
        v.push(text_member("approval_key", self.decisions[i].approval_key.as_str()));
        v.push(text_member("session_uri", self.decisions[i].session_uri.as_str()));
        v.push(text_member("chat_uri", self.decisions[i].chat_uri.as_str()));
        v.push(text_member("turn_id", self.decisions[i].turn_id.as_str()));
        v.push(text_member("tool_call_id", self.decisions[i].tool_call_id.as_str()));
        v.push(Member { key: "approved".to_owned(), value: Json::Bool(approved) });
        proof {
            lemma_members_are(v, decision_data(row, approved)->Object_0);
        }
        let data = Json::Object(v);
        self.expire_ahp_interactions(now);
        let ghost m = *self;
        let command = self.route_command(key.as_str(), at, kind, &data, now);
        let ghost x = *self;
        assert(self.decisions@[i as int] == row);
        self.decisions[i].state = DecisionState::Submitted;
        self.decisions[i].command_id = Some(command);
        self.decisions[i].decided_by_surface = Some(surface.to_owned());
        self.decisions[i].decided_by_message_id = Some(message_id.to_owned());
        self.decisions[i].updated_at = now;
        let record = decision_record(&self.decisions[i]);
        proof {
            assert forall|j: int| 0 <= j < m.decisions@.len() && j != i implies (
            #[trigger] m.decisions@[j]).approval_key@ != row.approval_key@ by {
                if j < i {
                    assert(a.decisions@[j].approval_key@ != a.decisions@[i as int].approval_key@);
                } else {
                    assert(a.decisions@[i as int].approval_key@ != a.decisions@[j].approval_key@);
                }
            }
            assert forall|j: int| 0 <= j < m.decisions@.len() implies is_submitted_decision(
                m.decisions@[j],
                #[trigger] self.decisions@[j],
                row.approval_key@,
                command,
                surface@,
                message_id@,
                now,
            ) by {
                assert(m.decisions@[j] == x.decisions@[j]);
            }
            assert(expired(a, m, now));
            assert(routed(
                m,
                x,
                decision_key(row, approved),
                a.binding_of(row.session_uri@)->0,
                decision_kind(row),
                decision_data(row, approved),
                now,
                command,
            ));
            assert(decision_passed_on(a, *self, row, approved, surface@, message_id@, now));
            assert forall|j: int| 0 <= j < i implies !decision_keyed(row.approval_key@)(
                #[trigger] self.decisions@[j],
            ) by {
                assert(m.decisions@[j].approval_key@ != row.approval_key@);
            }
            lemma_first(self.decisions@, decision_keyed(row.approval_key@), i as int);
        }
        Ok(Some(AhpApprovalSubmission { record, accepted: true, approved }))
    }

    /// Takes a decision on the approval with that code.
    pub fn ahp_submit_approval(
        &mut self,
        short_code: &str,
        approved: bool,
        message_id: &str,
        now: i64,
    ) -> (r: Result<Option<AhpApprovalSubmission>, Failure>)
        requires
            old(self).wf(),
            old(self).has_room(),
        ensures
            final(self).wf(),
            decision_outcome(
                *old(self),
                *final(self),
                first(old(self).decisions@, decision_coded(upper(short_code@))),
                approved,
                "qq_text"@,
                message_id@,
                now,
                r,
            ),
    {
        let code = to_upper(short_code);
        match self.find_decision_code(code.as_str()) {
            Some(i) => self.decide(i, approved, "qq_text", message_id, now),
            None => Ok(None),
        }
    }

    /// Takes the decision that a button stands for.
    pub fn ahp_submit_approval_by_button(
        &mut self,
        button_data: &str,
        expected_approved: bool,
        interaction_id: &str,
        now: i64,
    ) -> (r: Result<Option<AhpApprovalSubmission>, Failure>)
        requires
            old(self).wf(),
            old(self).has_room(),
        ensures
            final(self).wf(),
            decision_button_outcome(
                *old(self),
                *final(self),
                button_data@,
                expected_approved,
                interaction_id@,
                now,
                r,
            ),
    {
        let test = |r: &DecisionRow| -> (b: bool)
            ensures
                b == (r.allow_button_data@ == button_data@ || r.deny_button_data@ == button_data@),
        {
            str_eq(r.allow_button_data.as_str(), button_data) || str_eq(
                r.deny_button_data.as_str(),
                button_data,
            )
        };
        match find(&self.decisions, test, Ghost(decision_buttoned(button_data@))) {
            None => Ok(None),
            Some(i) => {
                let approved = str_eq(self.decisions[i].allow_button_data.as_str(), button_data);
                if approved != expected_approved {
                    return Err(failure("QQ button ID does not match approval action data"));
                }
                self.decide(i, approved, "qq_button", interaction_id, now)
            },
        }
    }

    /// Takes note of how an approval was decided, here or elsewhere.
    pub fn ahp_resolve_approval(
        &mut self,
        approval_key: &str,
        approved: bool,
        client_id: Option<&str>,
        now: i64,
    ) -> (r: Option<AhpApprovalRecord>)
        requires
            old(self).wf(),
        ensures
            final(self).wf(),
            decision_resolved(
                *old(self),
                *final(self),
                approval_key@,
                approved,
                opt_str_view(client_id),
                now,
                r,
            ),
    {
        let ghost a = *self;
        match self.find_decision(approval_key) {
            None => None,
            Some(i) => {
                proof {
                    assert forall|j: int| 0 <= j < a.decisions@.len() && j != i implies (
                    #[trigger] a.decisions@[j]).approval_key@ != approval_key@ by {
                        if j < i {
                            assert(a.decisions@[j].approval_key@
                                != a.decisions@[i as int].approval_key@);
                        } else {
                            assert(a.decisions@[i as int].approval_key@
                                != a.decisions@[j].approval_key@);
                        }
                    }
                }
                if self.decisions[i].state == DecisionState::Pending || self.decisions[i].state
                    == DecisionState::Submitted {
                    self.decisions[i].state = if approved {
                        DecisionState::Allowed
                    } else {
                        DecisionState::Denied
                    };
                    if self.decisions[i].decided_by_surface.is_none() {
                        self.decisions[i].decided_by_surface = owned(client_id);
                    }
                    self.decisions[i].updated_at = now;
                }
                proof {
                    assert forall|j: int| 0 <= j < i implies !decision_keyed(approval_key@)(
                        #[trigger] self.decisions@[j],
                    ) by {
                        assert(self.decisions@[j] == a.decisions@[j]);
                    }
                    lemma_first(self.decisions@, decision_keyed(approval_key@), i as int);
                }
                Some(decision_record(&self.decisions[i]))
            },
        }
    }
}

// ---------------------------------------------------------------------------
// Inputs

/// An input that a session asks for.
#[derive(Debug)]
pub struct NewAhpInput {
    pub input_key: String,
    pub session_uri: String,
    pub chat_uri: String,
    pub request_id: String,
    pub prompt: String,
    pub choices: Vec<String>,
    pub allow_freeform: bool,
    pub selection_mode: String,
    pub expires_at: i64,
}

/// A button that answers an input.
#[derive(Debug)]
pub struct AhpInputButton {
    pub label: String,
    pub button_data: String,
}

/// An input as it is shown.
#[derive(Debug)]
pub struct AhpInputRecord {
    pub input_key: String,
    pub short_code: String,
    pub session_uri: String,
    pub chat_uri: String,
    pub request_id: String,
    pub prompt: String,
    pub choices: Vec<String>,
    pub allow_freeform: bool,
    pub selection_mode: String,
    pub buttons: Vec<AhpInputButton>,
    pub state: String,
    pub expires_at: i64,
}

/// An input that was asked for, and whether it is new.
#[derive(Debug)]
pub struct BeginAhpInput {
    pub record: AhpInputRecord,
    pub created: bool,
}

/// An answer that was given to an input, and whether it counts.
#[derive(Debug)]
pub struct AhpInputSubmission {
    pub record: AhpInputRecord,
    pub accepted: bool,
    pub answer: String,
}

/// How an input came to its end.
#[derive(Debug)]
pub struct AhpInputResolution {
    pub record: AhpInputRecord,
    pub transitioned: bool,
    pub decided_by_surface: Option<String>,
}

/// How many buttons an input has at most.
pub const MAX_INPUT_BUTTONS: usize = 25;

/// The condition of being the input with that key.
pub open spec fn input_keyed(key: Seq<char>) -> spec_fn(InputRow) -> bool {
    |r: InputRow| r.input_key@ == key
}

/// The condition of being the input with that code.
pub open spec fn input_coded(code: Seq<char>) -> spec_fn(InputRow) -> bool {
    |r: InputRow| r.short_code@ == code
}

/// The condition of being a button of that input.
pub open spec fn button_of(key: Seq<char>) -> spec_fn(InputButtonRow) -> bool {
    |r: InputButtonRow| r.input_key@ == key
}

/// What buttons are ordered by: their position.
pub open spec fn by_position() -> spec_fn(InputButtonRow) -> (int, int, Seq<char>) {
    |r: InputButtonRow| (r.position as int, 0int, Seq::empty())
}

/// Whether the records show the buttons of that input in their order.
pub open spec fn shows_buttons(
    rows: Seq<InputButtonRow>,
    key: Seq<char>,
    buttons: Seq<AhpInputButton>,
) -> bool {
    exists|picks: Seq<usize>|
        {
            &&& #[trigger] is_selection(rows, button_of(key), by_position(), false, picks)
            &&& buttons.len() == picks.len()
            &&& forall|k: int|
                0 <= k < picks.len() ==> (#[trigger] buttons[k]).label == rows[picks[k] as int].label
                    && buttons[k].button_data == rows[picks[k] as int].button_data
        }
}

/// Whether the record shows the input, with its buttons.
pub open spec fn shows_input(rows: Seq<InputButtonRow>, row: InputRow, r: AhpInputRecord) -> bool {
    &&& r.input_key == row.input_key
    &&& r.short_code == row.short_code
    &&& r.session_uri == row.session_uri
    &&& r.chat_uri == row.chat_uri
    &&& r.request_id == row.request_id
    &&& r.prompt == row.prompt
    &&& views(r.choices@) == views(row.choices@)
    &&& r.allow_freeform == row.allow_freeform
    &&& r.selection_mode == row.selection_mode
    &&& shows_buttons(rows, row.input_key@, r.buttons@)
    &&& r.state@ == row.state.label()
    &&& r.expires_at == row.expires_at
}

/// Whether the row is the input that was just asked for, with that code.
pub open spec fn is_new_input(r: InputRow, n: NewAhpInput, code: Seq<char>, now: i64) -> bool {
    &&& r.input_key == n.input_key
    &&& r.short_code@ == code
    &&& r.session_uri == n.session_uri
    &&& r.chat_uri == n.chat_uri
    &&& r.request_id == n.request_id
    &&& r.prompt == n.prompt
    &&& views(r.choices@) == views(n.choices@)
    &&& r.allow_freeform == n.allow_freeform
    &&& r.selection_mode == n.selection_mode
    &&& r.state == InputState::Pending
    &&& r.command_id is None
    &&& r.decided_by_surface is None
    &&& r.decided_by_message_id is None
    &&& r.expires_at == n.expires_at
    &&& r.created_at == now
    &&& r.updated_at == now
}

/// How many buttons the input gets: one for each choice, where one of them is
/// to be picked, and not too many.
pub open spec fn buttons_for(n: NewAhpInput) -> nat {
    if n.selection_mode@ != "single"@ {
        0
    } else if n.choices@.len() <= MAX_INPUT_BUTTONS {
        n.choices@.len()
    } else {
        MAX_INPUT_BUTTONS as nat
    }
}

/// Whether the buttons are those of the input, with these tokens.
pub open spec fn are_new_buttons(
    rows: Seq<InputButtonRow>,
    n: NewAhpInput,
    tokens: Seq<String>,
) -> bool {
    &&& rows.len() == tokens.len()
    &&& forall|k: int|
        0 <= k < rows.len() ==> {
            &&& (#[trigger] rows[k]).button_data == tokens[k]
            &&& rows[k].input_key == n.input_key
            &&& rows[k].label == n.choices@[k]
            &&& rows[k].position == k
        }
}

/// Whether `b` is `a` with the input asked for under that code, with buttons of
/// these tokens, after approvals and inputs that waited too long have expired.
pub open spec fn input_begun(
    a: Database,
    b: Database,
    n: NewAhpInput,
    code: Seq<char>,
    tokens: Seq<String>,
    now: i64,
) -> bool {
    exists|m: Database|
        {
            &&& #[trigger] expired(a, m, now)
            &&& b == (Database { inputs: b.inputs, input_buttons: b.input_buttons, ..m })
            &&& b.inputs@ == m.inputs@.push(b.inputs@.last())
            &&& is_new_input(b.inputs@.last(), n, code, now)
            &&& b.input_buttons@.len() == m.input_buttons@.len() + tokens.len()
            &&& b.input_buttons@.take(m.input_buttons@.len() as int) == m.input_buttons@
            &&& are_new_buttons(b.input_buttons@.skip(m.input_buttons@.len() as int), n, tokens)
        }
}

/// Whether the tokens are new: none is a button's, and no two are equal.
pub open spec fn tokens_free(rows: Seq<InputButtonRow>, tokens: Seq<String>) -> bool {
    &&& forall|i: int, k: int|
        0 <= i < rows.len() && 0 <= k < tokens.len() ==> (#[trigger] rows[i]).button_data@ != (
        #[trigger] tokens[k])@
    &&& forall|k: int, l: int|
        0 <= k < l < tokens.len() ==> (#[trigger] tokens[k])@ != (#[trigger] tokens[l])@
}

/// Whether no input has the code.
pub open spec fn input_code_free(rows: Seq<InputRow>, code: Seq<char>) -> bool {
    forall|i: int| 0 <= i < rows.len() ==> (#[trigger] rows[i]).short_code@ != code
}

/// The condition of being a code that no input has.
pub open spec fn free_input_code(rows: Seq<InputRow>) -> spec_fn(String) -> bool {
    |s: String| input_code_free(rows, s@)
}

/// What comes of asking for an input, where these codes were drawn for it and these
/// tokens for its buttons: it gets the first of the codes that is free. Where none is,
/// or where one of the tokens is taken, nothing happens.
pub open spec fn begin_input_outcome(
    a: Database,
    b: Database,
    n: NewAhpInput,
    drawn: Seq<String>,
    tokens: Seq<String>,
    now: i64,
    r: Result<BeginAhpInput, Failure>,
) -> bool {
    match first(a.inputs@, input_keyed(n.input_key@)) {
        Some(row) => expired(a, b, now) && (r matches Ok(begun) && !begun.created && shows_input(
            a.input_buttons@,
            expire_input(row, now),
            begun.record,
        )),
        None => if !valid_mode(n.selection_mode@) {
            b == a && (r matches Err(f) && f.message@ == "invalid AHP input selection mode"@)
        } else {
            match first(drawn, free_input_code(a.inputs@)) {
                None => b == a && (r matches Err(f) && f.message@
                    == "failed to allocate a unique AHP input code"@),
                Some(code) => if !tokens_free(a.input_buttons@, tokens) {
                    b == a && (r matches Err(f) && f.message@
                        == "UNIQUE constraint failed: ahp_input_buttons.button_data"@)
                } else {
                    &&& input_begun(a, b, n, code@, tokens, now)
                    &&& r matches Ok(begun) && begun.created && shows_input(
                        b.input_buttons@,
                        b.inputs@.last(),
                        begun.record,
                    )
                },
            }
        },
    }
}

/// Whether the selection mode is one of the three there are.
pub open spec fn valid_mode(mode: Seq<char>) -> bool {
    mode == "none"@ || mode == "single"@ || mode == "multi"@
}

/// Whether one of the choices is the answer.
pub open spec fn is_choice(choices: Seq<String>, answer: Seq<char>) -> bool {
    exists|i: int| 0 <= i < choices.len() && (#[trigger] choices[i])@ == answer
}

/// Why an answer to an input that waits cannot be passed on.
pub open spec fn answer_fault(db: Database, row: InputRow, answer: Seq<char>) -> Option<Seq<char>> {
    if !row.allow_freeform && !is_choice(row.choices@, answer) {
        Some("answer is not one of the allowed choices"@)
    } else if db.bound_fault(row.session_uri@) is Some {
        db.bound_fault(row.session_uri@)
    } else if opt_view(db.binding_of(row.session_uri@)->0.chat_uri) != Some(row.chat_uri@) {
        Some("AHP input targets a stale Chat"@)
    } else {
        None
    }
}

/// The key of the command that passes an answer on.
pub open spec fn answer_key(row: InputRow, decision: Seq<char>) -> Seq<char> {
    "input:"@ + row.input_key@ + ":"@ + decision
}

/// What the command that passes an answer on says.
pub open spec fn answer_data(row: InputRow, answer: Seq<char>) -> Tree {
    Tree::Object(
        seq![
            ("input_key"@, Tree::Text(row.input_key@)),
            ("session_uri"@, Tree::Text(row.session_uri@)),
            ("chat_uri"@, Tree::Text(row.chat_uri@)),
            ("request_id"@, Tree::Text(row.request_id@)),
            ("answer"@, Tree::Text(answer)),
        ],
    )
}

/// The input after an answer to it was passed on.
pub open spec fn is_submitted_input(
    p: InputRow,
    q: InputRow,
    key: Seq<char>,
    command: i64,
    surface: Seq<char>,
    message: Seq<char>,
    now: i64,
) -> bool {
    if p.input_key@ == key && p.state == InputState::Pending {
        &&& q == (InputRow {
            state: InputState::Submitted,
            command_id: Some(command),
            decided_by_surface: q.decided_by_surface,
            decided_by_message_id: q.decided_by_message_id,
            updated_at: now,
            ..p
        })
        &&& opt_view(q.decided_by_surface) == Some(surface)
        &&& opt_view(q.decided_by_message_id) == Some(message)
    } else {
        q == p
    }
}

/// Whether `b` is `a` with the answer to the input passed on.
pub open spec fn answer_passed_on(
    a: Database,
    b: Database,
    row: InputRow,
    answer: Seq<char>,
    surface: Seq<char>,
    message: Seq<char>,
    now: i64,
) -> bool {
    exists|m: Database, x: Database, command: i64|
        {
            &&& #[trigger] expired(a, m, now)
            &&& #[trigger] routed(
                m,
                x,
                answer_key(row, message),
                a.binding_of(row.session_uri@)->0,
                AhpCommandKind::CompleteInput,
                answer_data(row, answer),
                now,
                command,
            )
            &&& b == (Database { inputs: b.inputs, ..x })
            &&& changed(
                m.inputs@,
                b.inputs@,
                |p: InputRow, q: InputRow|
                    is_submitted_input(p, q, row.input_key@, command, surface, message, now),
            )
        }
}

/// What comes of an answer to an input. Only the first one counts: an input
/// that does not wait any more is left as it is.
pub open spec fn answer_outcome(
    a: Database,
    b: Database,
    row: InputRow,
    answer: Seq<char>,
    surface: Seq<char>,
    message: Seq<char>,
    now: i64,
    r: Result<bool, Failure>,
) -> bool {
    if expire_input(row, now).state != InputState::Pending {
        expired(a, b, now) && r == Ok::<bool, Failure>(false)
    } else {
        match r {
            Err(f) => b == a && answer_fault(a, row, answer) == Some(f.message@),
            Ok(accepted) => accepted && answer_fault(a, row, answer) is None && answer_passed_on(
                a,
                b,
                row,
                answer,
                surface,
                message,
                now,
            ),
        }
    }
}

/// The condition of waiting for an answer in that session.
pub open spec fn waits_in(uri: Seq<char>, now: i64) -> spec_fn(InputRow) -> bool {
    |r: InputRow| r.session_uri@ == uri && r.state == InputState::Pending && r.expires_at > now
}

/// What inputs are ordered by: the latest first.
pub open spec fn latest_input() -> spec_fn(InputRow) -> (int, int, Seq<char>) {
    |r: InputRow| (-(r.created_at as int), 0int, Seq::empty())
}

/// What comes of a button of an input that was pressed: its choice is the answer.
pub open spec fn answer_button_outcome(
    a: Database,
    b: Database,
    data: Seq<char>,
    interaction: Seq<char>,
    now: i64,
    r: Result<Option<AhpInputSubmission>, Failure>,
) -> bool {
    match first(a.input_buttons@, with_data(data)) {
        None => b == a && (r matches Ok(None)),
        Some(button) => match first(a.inputs@, input_keyed(button.input_key@)) {
            None => b == a && r is Err && r->Err_0.message@
                == "AHP input button references a missing request"@,
            Some(row) => match r {
                Ok(None) => false,
                Err(f) => answer_outcome(
                    a,
                    b,
                    row,
                    button.label@,
                    "qq_button"@,
                    interaction,
                    now,
                    Err(f),
                ),
                Ok(Some(s)) => {
                    &&& answer_outcome(
                        a,
                        b,
                        row,
                        button.label@,
                        "qq_button"@,
                        interaction,
                        now,
                        Ok(s.accepted),
                    )
                    &&& s.answer == button.label
                    &&& exists|i: int|
                        0 <= i < a.inputs@.len() && #[trigger] a.inputs@[i] == row && shows_input(
                            b.input_buttons@,
                            b.inputs@[i],
                            s.record,
                        )
                },
            },
        },
    }
}


/// What comes of word of how an input came to its end: one that waits for its outcome
/// has it, and what is known of it is told.
pub open spec fn input_resolved(
    a: Database,
    b: Database,
    key: Seq<char>,
    outcome: Seq<char>,
    client: Option<Seq<char>>,
    now: i64,
    r: Result<Option<AhpInputResolution>, Failure>,
) -> bool {
    match end_state(outcome) {
        None => b == a && r is Err && r->Err_0.message@ == "invalid AHP input outcome"@,
        Some(state) => {
            &&& b == (Database { inputs: b.inputs, ..a })
            &&& changed(
                a.inputs@,
                b.inputs@,
                |p: InputRow, q: InputRow|
                    if p.input_key@ == key && is_open_input(p) {
                        q == (InputRow {
                            state,
                            decided_by_surface: q.decided_by_surface,
                            updated_at: now,
                            ..p
                        }) && if p.decided_by_surface is Some {
                            q.decided_by_surface == p.decided_by_surface
                        } else {
                            opt_view(q.decided_by_surface) == client
                        }
                    } else {
                        q == p
                    },
            )
            &&& match first(a.inputs@, input_keyed(key)) {
                None => r matches Ok(None),
                Some(row) => r matches Ok(Some(res)) && {
                    let after = first(b.inputs@, input_keyed(key))->0;
                    &&& res.transitioned == is_open_input(row)
                    &&& res.decided_by_surface == after.decided_by_surface
                    &&& shows_input(b.input_buttons@, after, res.record)
                },
            }
        },
    }
}


/// What comes of asking whether the owner has something to answer.
pub open spec fn pending_outcome(
    a: Database,
    b: Database,
    now: i64,
    r: bool,
) -> bool {
    &&& expired(a, b, now)
    &&& r == ((exists|i: int|
        0 <= i < b.decisions@.len() && is_open_decision(
            #[trigger] b.decisions@[i],
        ) && b.decisions@[i].expires_at > now) || (exists|i: int|
        0 <= i < b.inputs@.len() && is_open_input(
            #[trigger] b.inputs@[i],
        ) && b.inputs@[i].expires_at > now))
}

impl Database {
    fn find_input(&self, key: &str) -> (r: Option<usize>)
        ensures
            match r {
                Some(i) => i < self.inputs@.len() && self.inputs@[i as int].input_key@ == key@
                    && first(self.inputs@, input_keyed(key@)) == Some(self.inputs@[i as int])
                    && forall|j: int|
                    0 <= j < i ==> (#[trigger] self.inputs@[j]).input_key@ != key@,
                None => first(self.inputs@, input_keyed(key@)) is None && forall|j: int|
                    0 <= j < self.inputs@.len() ==> (#[trigger] self.inputs@[j]).input_key@ != key@,
            },
    {
        let test = |r: &InputRow| -> (b: bool)
            ensures
                b == (r.input_key@ == key@),
        { str_eq(r.input_key.as_str(), key) };
        find(&self.inputs, test, Ghost(input_keyed(key@)))
    }

    fn input_button_records(&self, key: &str) -> (r: Vec<AhpInputButton>)
        ensures
            shows_buttons(self.input_buttons@, key@, r@),
    {
        let test = |r: &InputButtonRow| -> (b: bool)
            ensures
                b == (r.input_key@ == key@),
        { str_eq(r.input_key.as_str(), key) };
        let order = |r: &InputButtonRow| -> (s: SortKey)
            ensures
                s@ == (by_position())(*r),
        {
            let s = SortKey { first: r.position as i128, second: 0, text: String::new() };
            assert(s@ =~= (by_position())(*r));
            s
        };
        let picks = select(
            &self.input_buttons,
            test,
            order,
            false,
            Ghost(button_of(key@)),
            Ghost(by_position()),
        );
        let mut r: Vec<AhpInputButton> = Vec::new();
        let mut k: usize = 0;
        while k < picks.len()
            invariant
                k <= picks@.len(),
                is_selection(self.input_buttons@, button_of(key@), by_position(), false, picks@),
                r@.len() == k,
                forall|l: int|
                    0 <= l < k ==> (#[trigger] r@[l]).label
                        == self.input_buttons@[picks@[l] as int].label && r@[l].button_data
                        == self.input_buttons@[picks@[l] as int].button_data,
            decreases picks@.len() - k,
        {
            let row = &self.input_buttons[picks[k]];
            r.push(
                AhpInputButton { label: row.label.clone(), button_data: row.button_data.clone() },
            );
            k += 1;
        }
        r
    }

    fn input_record(&self, i: usize) -> (r: AhpInputRecord)
        requires
            i < self.inputs@.len(),
        ensures
            shows_input(self.input_buttons@, self.inputs@[i as int], r),
    {
        let row = &self.inputs[i];
        AhpInputRecord {
            input_key: row.input_key.clone(),
            short_code: row.short_code.clone(),
            session_uri: row.session_uri.clone(),
            chat_uri: row.chat_uri.clone(),
            request_id: row.request_id.clone(),
            prompt: row.prompt.clone(),
            choices: copy_texts(&row.choices),
            allow_freeform: row.allow_freeform,
            selection_mode: row.selection_mode.clone(),
            buttons: self.input_button_records(row.input_key.as_str()),
            state: row.state.as_str().to_owned(),
            expires_at: row.expires_at,
        }
    }

    fn is_input_code_free(&self, code: &str) -> (r: bool)
        ensures
            r == input_code_free(self.inputs@, code@),
    {
        let mut i: usize = 0;
        while i < self.inputs.len()
            invariant
                i <= self.inputs@.len(),
                forall|j: int| 0 <= j < i ==> (#[trigger] self.inputs@[j]).short_code@ != code@,
            decreases self.inputs@.len() - i,
        {
            if str_eq(self.inputs[i].short_code.as_str(), code) {
                return false;
            }
            i += 1;
        }
        true
    }

    /// Whether the tokens are no button's yet and no two are equal.
    fn are_tokens_free(&self, tokens: &Vec<String>) -> (r: bool)
        ensures
            r == tokens_free(self.input_buttons@, tokens@),
    {
        let mut k: usize = 0;
        while k < tokens.len()
            invariant
                k <= tokens@.len(),
                tokens_free(self.input_buttons@, tokens@.take(k as int)),
            decreases tokens@.len() - k,
        {
            let token = tokens[k].as_str();
            let mut i: usize = 0;
            while i < self.input_buttons.len()
                invariant
                    k < tokens@.len(),
                    token@ == tokens@[k as int]@,
                    i <= self.input_buttons@.len(),
                    forall|j: int|
                        0 <= j < i ==> (#[trigger] self.input_buttons@[j]).button_data@ != token@,
                decreases self.input_buttons@.len() - i,
            {
                if str_eq(self.input_buttons[i].button_data.as_str(), token) {
                    assert(self.input_buttons@[i as int].button_data@ == tokens@[k as int]@);
                    return false;
                }
                i += 1;
            }
            let mut l: usize = 0;
            while l < k
                invariant
                    l <= k < tokens@.len(),
                    token@ == tokens@[k as int]@,
                    forall|j: int| 0 <= j < l ==> (#[trigger] tokens@[j])@ != token@,
                decreases k - l,
            {
                if str_eq(tokens[l].as_str(), token) {
                    assert(tokens@[l as int]@ == tokens@[k as int]@);
                    return false;
                }
                l += 1;
            }
            proof {
                let t = tokens@.take(k as int);
                let u = tokens@.take(k + 1);
                assert forall|i: int, x: int|
                    0 <= i < self.input_buttons@.len() && 0 <= x < u.len() implies (
                #[trigger] self.input_buttons@[i]).button_data@ != (#[trigger] u[x])@ by {
                    if x < k {
                        assert(t[x] == u[x]);
                    }
                }
                assert forall|x: int, y: int| 0 <= x < y < u.len() implies (#[trigger] u[x])@ != (
                #[trigger] u[y])@ by {
                    if y < k {
                        assert(t[x]@ != t[y]@);
                    } else {
                        assert(tokens@[x]@ != token@);
                    }
                }
            }
            k += 1;
        }
        assert(tokens@.take(k as int) =~= tokens@);
        true
    }

    /// Asks for an input, unless it was asked for before.
    pub fn ahp_begin_input(&mut self, input: &NewAhpInput, now: i64) -> (r: Result<
        BeginAhpInput,
        Failure,
    >)
        requires
            old(self).wf(),
        ensures
            final(self).wf(),
            exists|drawn: Seq<String>, tokens: Seq<String>|
                {
                    &&& are_codes(drawn, Some('Q'), 4)
                    &&& tokens.len() == buttons_for(*input)
                    &&& all_tokens(tokens, "inpt_"@)
                    &&& #[trigger] begin_input_outcome(
                        *old(self),
                        *final(self),
                        *input,
                        drawn,
                        tokens,
                        now,
                        r,
                    )
                },
    {
        let n: usize = if !str_eq(input.selection_mode.as_str(), "single") {
            0
        } else if input.choices.len() <= MAX_INPUT_BUTTONS {
            input.choices.len()
        } else {
            MAX_INPUT_BUTTONS
        };
        let drawn = draw_codes(Some('Q'), 4);
        let tokens = draw_tokens("inpt_", n);
        let ghost t = tokens@;
        let r = self.begin_input_with_codes(input, &drawn, tokens, now);
        assert(begin_input_outcome(*old(self), *self, *input, drawn@, t, now, r));
        r
    }

    /// Asks for an input, unless it was asked for before, under the first of the codes
    /// that no input has, with buttons of these tokens.
    pub fn begin_input_with_codes(
        &mut self,
        input: &NewAhpInput,
        drawn: &Vec<String>,
        tokens: Vec<String>,
        now: i64,
    ) -> (r: Result<BeginAhpInput, Failure>)
        requires
            old(self).wf(),
            tokens@.len() == buttons_for(*input),
        ensures
            final(self).wf(),
            begin_input_outcome(*old(self), *final(self), *input, drawn@, tokens@, now, r),
    {
        match self.find_input(input.input_key.as_str()) {
            Some(i) => {
                self.expire_ahp_interactions(now);
                Ok(BeginAhpInput { record: self.input_record(i), created: false })
            },
            None => {
                let mode = input.selection_mode.as_str();
                if !str_eq(mode, "none") && !str_eq(mode, "single") && !str_eq(mode, "multi") {
                    return Err(failure("invalid AHP input selection mode"));
                }
                let test = |s: &String| -> (b: bool)
                    ensures
                        b == (free_input_code(self.inputs@))(*s),
                { self.is_input_code_free(s.as_str()) };
                let k = match find(drawn, test, Ghost(free_input_code(self.inputs@))) {
                    None => {
                        return Err(failure("failed to allocate a unique AHP input code"));
                    },
                    Some(k) => k,
                };
                if !self.are_tokens_free(&tokens) {
                    return Err(
                        failure("UNIQUE constraint failed: ahp_input_buttons.button_data"),
                    );
                }
                self.insert_input(input, drawn[k].clone(), tokens, now);
                let i: usize = self.inputs.len() - 1;
                let record = self.input_record(i);
                Ok(BeginAhpInput { record, created: true })
            },
        }
    }

    /// Asks for an input under a code and tokens that are free.
    pub fn insert_input(
        &mut self,
        input: &NewAhpInput,
        code: String,
        tokens: Vec<String>,
        now: i64,
    )
        requires
            old(self).wf(),
            first(old(self).inputs@, input_keyed(input.input_key@)) is None,
            input_code_free(old(self).inputs@, code@),
            tokens_free(old(self).input_buttons@, tokens@),
            tokens@.len() <= input.choices@.len(),
            tokens@.len() <= MAX_INPUT_BUTTONS,
        ensures
            final(self).wf(),
            input_begun(*old(self), *final(self), *input, code@, tokens@, now),
            final(self).inputs@.len() == old(self).inputs@.len() + 1,
    {
        proof {
            lemma_first_holds(self.inputs@, input_keyed(input.input_key@));
        }
        let ghost a = *self;
        self.expire_ahp_interactions(now);
        let ghost m = *self;
        let row = InputRow {
            input_key: input.input_key.clone(),
            short_code: code,
            session_uri: input.session_uri.clone(),
            chat_uri: input.chat_uri.clone(),
            request_id: input.request_id.clone(),
            prompt: input.prompt.clone(),
            choices: copy_texts(&input.choices),
            allow_freeform: input.allow_freeform,
            selection_mode: input.selection_mode.clone(),
            state: InputState::Pending,
            command_id: None,
            decided_by_surface: None,
            decided_by_message_id: None,
            expires_at: input.expires_at,
            created_at: now,
            updated_at: now,
        };
        self.inputs.push(row);
        proof {
            assert forall|j: int| 0 <= j < m.inputs@.len() implies (
            #[trigger] m.inputs@[j]).input_key@ != input.input_key@ && m.inputs@[j].short_code@
                != code@ by {
                assert(a.inputs@[j].input_key@ != input.input_key@);
            }
        }
        let ghost base = *self;
        let mut k: usize = 0;
        let ghost n = m.input_buttons@.len();
        while k < tokens.len()
            invariant
                k <= tokens@.len(),
                tokens@.len() <= input.choices@.len(),
                tokens@.len() <= MAX_INPUT_BUTTONS,
                *self == (Database { input_buttons: self.input_buttons, ..base }),
                base.input_buttons == m.input_buttons,
                n == m.input_buttons@.len(),
                self.input_buttons@.len() == n + k,
                tokens_free(m.input_buttons@, tokens@),
                unique(m.input_buttons@, |r: InputButtonRow| r.button_data@),
                forall|j: int|
                    0 <= j < n ==> #[trigger] self.input_buttons@[j] == m.input_buttons@[j],
                forall|j: int|
                    #![trigger self.input_buttons@[j]]
                    n <= j < n + k ==> {
                        &&& self.input_buttons@[j].button_data == tokens@[j - n]
                        &&& self.input_buttons@[j].input_key == input.input_key
                        &&& self.input_buttons@[j].label == input.choices@[j - n]
                        &&& self.input_buttons@[j].position == j - n
                    },
            decreases tokens@.len() - k,
        {
            self.input_buttons.push(
                InputButtonRow {
                    button_data: tokens[k].clone(),
                    input_key: input.input_key.clone(),
                    label: input.choices[k].clone(),
                    position: k as u32,
                },
            );
            k += 1;
        }
        proof {
            assert(self.input_buttons@.take(n as int) =~= m.input_buttons@);
            assert forall|i: int, j: int| 0 <= i < j < self.input_buttons@.len() implies (
            #[trigger] self.input_buttons@[i]).button_data@ != (
            #[trigger] self.input_buttons@[j]).button_data@ by {
                if j < n {
                    assert(m.input_buttons@[i].button_data@ != m.input_buttons@[j].button_data@);
                } else if i < n {
                    assert(m.input_buttons@[i].button_data@ != tokens@[j - n]@);
                } else {
                    assert(tokens@[i - n]@ != tokens@[j - n]@);
                }
            }
            assert(expired(a, m, now));
        }
    }

    /// The input with that code, whatever the case of its letters.
    pub fn ahp_input_by_code(&self, short_code: &str) -> (r: Option<AhpInputRecord>)
        ensures
            match first(self.inputs@, input_coded(upper(short_code@))) {
                Some(row) => r matches Some(record) && shows_input(
                    self.input_buttons@,
                    row,
                    record,
                ),
                None => r is None,
            },
    {
        let code = to_upper(short_code);
        let test = |r: &InputRow| -> (b: bool)
            ensures
                b == (r.short_code@ == code@),
        { str_eq(r.short_code.as_str(), code.as_str()) };
        match find(&self.inputs, test, Ghost(input_coded(code@))) {
            Some(i) => Some(self.input_record(i)),
            None => None,
        }
    }

    /// What is shown of the latest input that waits in that session.
    pub open spec fn latest_shown(self, uri: Seq<char>, now: i64, r: Option<AhpInputRecord>) -> bool {
        match r {
            None => forall|j: int|
                0 <= j < self.inputs@.len() ==> !waits_in(uri, now)(#[trigger] self.inputs@[j]),
            Some(record) => exists|i: int|
                {
                    &&& 0 <= i < self.inputs@.len()
                    &&& waits_in(uri, now)(#[trigger] self.inputs@[i])
                    &&& forall|j: int|
                        0 <= j < self.inputs@.len() && waits_in(uri, now)(
                            #[trigger] self.inputs@[j],
                        ) ==> self.inputs@[j].created_at <= self.inputs@[i].created_at
                    &&& shows_input(self.input_buttons@, self.inputs@[i], record)
                },
        }
    }

    /// The latest input that waits in the session at that address.
    pub fn ahp_pending_input_for_session(&mut self, session_uri: &str, now: i64) -> (r: Option<
        AhpInputRecord,
    >)
        requires
            old(self).wf(),
        ensures
            final(self).wf(),
            expired(*old(self), *final(self), now),
            final(self).latest_shown(session_uri@, now, r),
    {
        self.expire_ahp_interactions(now);
        let test = |r: &InputRow| -> (b: bool)
            ensures
                b == (waits_in(session_uri@, now))(*r),
        {
            str_eq(r.session_uri.as_str(), session_uri) && r.state == InputState::Pending
                && r.expires_at > now
        };
        let order = |r: &InputRow| -> (s: SortKey)
            ensures
                s@ == (latest_input())(*r),
        {
            let s = SortKey { first: -(r.created_at as i128), second: 0, text: String::new() };
            assert(s@ =~= (latest_input())(*r));
            s
        };
        match least(
            &self.inputs,
            test,
            order,
            Ghost(waits_in(session_uri@, now)),
            Ghost(latest_input()),
        ) {
            Some(i) => {
                let record = self.input_record(i);
                assert(waits_in(session_uri@, now)(self.inputs@[i as int]));
                Some(record)
            },
            None => None,
        }
    }

    /// The latest input that waits in the session in the foreground.
    pub fn ahp_pending_input(&mut self, now: i64) -> (r: Result<Option<AhpInputRecord>, Failure>)
        requires
            old(self).wf(),
        ensures
            final(self).wf(),
            match old(self).foreground_row() {
                None => *final(self) == *old(self) && (r matches Ok(None)),
                Some(row) => if !fits(row) {
                    *final(self) == *old(self) && r is Err && r->Err_0.message@ == out_of_range()
                } else {
                    expired(*old(self), *final(self), now) && (r matches Ok(shown)
                        && final(self).latest_shown(row.session_uri@, now, shown))
                },
            },
    {
        match self.ahp_binding() {
            Err(f) => Err(f),
            Ok(None) => Ok(None),
            Ok(Some(record)) => Ok(
                self.ahp_pending_input_for_session(record.session_uri.as_str(), now),
            ),
        }
    }

    /// Whether an approval or an input waits for its outcome.
    pub fn ahp_has_pending_interactions(&mut self, now: i64) -> (r: bool)
        requires
            old(self).wf(),
        ensures
            final(self).wf(),
            pending_outcome(
                *old(self),
                *final(self),
                now,
                r,
            ),
    {
        self.expire_ahp_interactions(now);
        let one = |r: &DecisionRow| -> (b: bool)
            ensures
                b == (is_open_decision(*r) && r.expires_at > now),
        {
            (r.state == DecisionState::Pending || r.state == DecisionState::Submitted)
                && r.expires_at > now
        };
        let two = |r: &InputRow| -> (b: bool)
            ensures
                b == (is_open_input(*r) && r.expires_at > now),
        {
            (r.state == InputState::Pending || r.state == InputState::Submitted) && r.expires_at
                > now
        };
        let x = find(
            &self.decisions,
            one,
            Ghost(|r: DecisionRow| is_open_decision(r) && r.expires_at > now),
        );
        let y = find(&self.inputs, two, Ghost(|r: InputRow| is_open_input(r) && r.expires_at > now));
        match x {
            Some(i) => {
                assert(is_open_decision(self.decisions@[i as int]));
                return true;
            },
            None => {
                assert forall|i: int| 0 <= i < self.decisions@.len() implies !(is_open_decision(
                    #[trigger] self.decisions@[i],
                ) && self.decisions@[i].expires_at > now) by {}
            },
        }
        match y {
            Some(i) => {
                assert(is_open_input(self.inputs@[i as int]));
                true
            },
            None => {
                assert forall|i: int| 0 <= i < self.inputs@.len() implies !(is_open_input(
                    #[trigger] self.inputs@[i],
                ) && self.inputs@[i].expires_at > now) by {}
                false
            },
        }
    }

    fn answer_at(
        &mut self,
        i: usize,
        answer: &str,
        surface: &str,
        message_id: &str,
        now: i64,
    ) -> (r: Result<bool, Failure>)
        requires
            old(self).wf(),
            old(self).has_room(),
            i < old(self).inputs@.len(),
        ensures
            final(self).wf(),
            final(self).inputs@.len() == old(self).inputs@.len(),
            final(self).input_buttons == old(self).input_buttons,
            final(self).inputs@[i as int].short_code == old(self).inputs@[i as int].short_code,
            answer_outcome(
                *old(self),
                *final(self),
                old(self).inputs@[i as int],
                answer@,
                surface@,
                message_id@,
                now,
                r,
            ),
    {
        let ghost a = *self;
        let ghost row = self.inputs@[i as int];
        if self.inputs[i].state != InputState::Pending || self.inputs[i].expires_at <= now {
            self.expire_ahp_interactions(now);
            return Ok(false);
        }
        if !self.inputs[i].allow_freeform && !any_choice(&self.inputs[i].choices, answer) {
            return Err(failure("answer is not one of the allowed choices"));
        }
        let at = match self.require_bound_binding_for_session(self.inputs[i].session_uri.as_str()) {
            Err(f) => {
                return Err(f);
            },
            Ok(at) => at,
        };
        if !opt_is(&self.bindings[at].chat_uri, self.inputs[i].chat_uri.as_str()) {
            return Err(failure("AHP input targets a stale Chat"));
        }
        let head = cat3("input:", self.inputs[i].input_key.as_str(), ":");
        let key = cat(head.as_str(), message_id);
        let mut v: Vec<Member> = Vec::new();
        v.push(text_member("input_key", self.inputs[i].input_key.as_str()));
        v.push(text_member("session_uri", self.inputs[i].session_uri.as_str()));
        v.push(text_member("chat_uri", self.inputs[i].chat_uri.as_str()));
        v.push(text_member("request_id", self.inputs[i].request_id.as_str()));
        v.push(text_member("answer", answer));
        proof {
            lemma_members_are(v, answer_data(row, answer@)->Object_0);
        }
        let data = Json::Object(v);
        self.expire_ahp_interactions(now);
        let ghost m = *self;
        let command = self.route_command(
            key.as_str(),
            at,
            AhpCommandKind::CompleteInput,
            &data,
            now,
        );
        let ghost x = *self;
        assert(self.inputs@[i as int] == row);
        self.inputs[i].state = InputState::Submitted;
        self.inputs[i].command_id = Some(command);
        self.inputs[i].decided_by_surface = Some(surface.to_owned());
        self.inputs[i].decided_by_message_id = Some(message_id.to_owned());
        self.inputs[i].updated_at = now;
        proof {
            assert forall|j: int| 0 <= j < m.inputs@.len() && j != i implies (
            #[trigger] m.inputs@[j]).input_key@ != row.input_key@ by {
                if j < i {
                    assert(a.inputs@[j].input_key@ != a.inputs@[i as int].input_key@);
                } else {
                    assert(a.inputs@[i as int].input_key@ != a.inputs@[j].input_key@);
                }
            }
            assert forall|j: int| 0 <= j < m.inputs@.len() implies is_submitted_input(
                m.inputs@[j],
                #[trigger] self.inputs@[j],
                row.input_key@,
                command,
                surface@,
                message_id@,
                now,
            ) by {
                assert(m.inputs@[j] == x.inputs@[j]);
            }
            assert(expired(a, m, now));
            assert(routed(
                m,
                x,
                answer_key(row, message_id@),
                a.binding_of(row.session_uri@)->0,
                AhpCommandKind::CompleteInput,
                answer_data(row, answer@),
                now,
                command,
            ));
            assert(answer_passed_on(a, *self, row, answer@, surface@, message_id@, now));
        }
        Ok(true)
    }

    /// Answers the input with that key.
    pub fn ahp_submit_input(
        &mut self,
        input_key: &str,
        answer: &str,
        message_id: &str,
        now: i64,
    ) -> (r: Result<bool, Failure>)
        requires
            old(self).wf(),
            old(self).has_room(),
        ensures
            final(self).wf(),
            match first(old(self).inputs@, input_keyed(input_key@)) {
                None => *final(self) == *old(self) && r is Err && r->Err_0.message@
                    == "AHP input request not found"@,
                Some(row) => answer_outcome(
                    *old(self),
                    *final(self),
                    row,
                    answer@,
                    "qq_text"@,
                    message_id@,
                    now,
                    r,
                ),
            },
    {
        match self.find_input(input_key) {
            None => Err(failure("AHP input request not found")),
            Some(i) => self.answer_at(i, answer, "qq_text", message_id, now),
        }
    }

    /// Gives the answer that a button stands for.
    pub fn ahp_submit_input_by_button(
        &mut self,
        button_data: &str,
        interaction_id: &str,
        now: i64,
    ) -> (r: Result<Option<AhpInputSubmission>, Failure>)
        requires
            old(self).wf(),
            old(self).has_room(),
        ensures
            final(self).wf(),
            answer_button_outcome(
                *old(self),
                *final(self),
                button_data@,
                interaction_id@,
                now,
                r,
            ),
    {
        let test = |r: &InputButtonRow| -> (b: bool)
            ensures
                b == (r.button_data@ == button_data@),
        { str_eq(r.button_data.as_str(), button_data) };
        match find(&self.input_buttons, test, Ghost(with_data(button_data@))) {
            None => Ok(None),
            Some(k) => {
                let input_key = self.input_buttons[k].input_key.clone();
                let answer = self.input_buttons[k].label.clone();
                match self.find_input(input_key.as_str()) {
                    None => Err(failure("AHP input button references a missing request")),
                    Some(i) => {
                        match self.answer_at(i, answer.as_str(), "qq_button", interaction_id, now) {
                            Err(f) => Err(f),
                            Ok(accepted) => {
                                let record = self.input_record(i);
                                assert(old(self).inputs@[i as int] == first(
                                    old(self).inputs@,
                                    input_keyed(input_key@),
                                )->0);
                                Ok(Some(AhpInputSubmission { record, accepted, answer }))
                            },
                        }
                    },
                }
            },
        }
    }

    /// Takes note of how an input came to its end, here or elsewhere.
    pub fn ahp_resolve_input(
        &mut self,
        input_key: &str,
        outcome: &str,
        client_id: Option<&str>,
        now: i64,
    ) -> (r: Result<Option<AhpInputResolution>, Failure>)
        requires
            old(self).wf(),
        ensures
            final(self).wf(),
            input_resolved(
                *old(self),
                *final(self),
                input_key@,
                outcome@,
                opt_str_view(client_id),
                now,
                r,
            ),
    {
        let state = if str_eq(outcome, "answered") {
            InputState::Answered
        } else if str_eq(outcome, "declined") {
            InputState::Declined
        } else if str_eq(outcome, "cancelled") {
            InputState::Cancelled
        } else {
            return Err(failure("invalid AHP input outcome"));
        };
        proof {
            assert(end_state(outcome@) == Some(state));
        }
        let ghost a = *self;
        match self.find_input(input_key) {
            None => Ok(None),
            Some(i) => {
                proof {
                    assert forall|j: int| 0 <= j < a.inputs@.len() && j != i implies (
                    #[trigger] a.inputs@[j]).input_key@ != input_key@ by {
                        if j < i {
                            assert(a.inputs@[j].input_key@ != a.inputs@[i as int].input_key@);
                        } else {
                            assert(a.inputs@[i as int].input_key@ != a.inputs@[j].input_key@);
                        }
                    }
                }
                let transitioned = self.inputs[i].state == InputState::Pending
                    || self.inputs[i].state == InputState::Submitted;
                if transitioned {
                    self.inputs[i].state = state;
                    if self.inputs[i].decided_by_surface.is_none() {
                        self.inputs[i].decided_by_surface = owned(client_id);
                    }
                    self.inputs[i].updated_at = now;
                }
                proof {
                    assert forall|j: int| 0 <= j < i implies !input_keyed(input_key@)(
                        #[trigger] self.inputs@[j],
                    ) by {
                        assert(self.inputs@[j] == a.inputs@[j]);
                    }
                    lemma_first(self.inputs@, input_keyed(input_key@), i as int);
                }
                let decided_by_surface = self.inputs[i].decided_by_surface.clone();
                let record = self.input_record(i);
                Ok(Some(AhpInputResolution { record, transitioned, decided_by_surface }))
            },
        }
    }
}

/// The condition of being the button with these data.
pub open spec fn with_data(data: Seq<char>) -> spec_fn(InputButtonRow) -> bool {
    |r: InputButtonRow| r.button_data@ == data
}

/// The state in which an input with that outcome ends.
pub open spec fn end_state(outcome: Seq<char>) -> Option<InputState> {
    if outcome == "answered"@ {
        Some(InputState::Answered)
    } else if outcome == "declined"@ {
        Some(InputState::Declined)
    } else if outcome == "cancelled"@ {
        Some(InputState::Cancelled)
    } else {
        None
    }
}

fn any_choice(choices: &Vec<String>, answer: &str) -> (r: bool)
    ensures
        r == is_choice(choices@, answer@),
{
    let mut i: usize = 0;
    while i < choices.len()
        invariant
            i <= choices@.len(),
            forall|j: int| 0 <= j < i ==> (#[trigger] choices@[j])@ != answer@,
        decreases choices@.len() - i,
    {
        if str_eq(choices[i].as_str(), answer) {
            assert(choices@[i as int]@ == answer@);
            return true;
        }
        i += 1;
    }
    false
}

// ---------------------------------------------------------------------------
// Buttons that were pressed

/// The condition of being that interaction.
pub open spec fn interaction_named(id: Seq<char>) -> spec_fn(InteractionRow) -> bool {
    |r: InteractionRow| r.interaction_id@ == id
}

/// What comes of word that a button was pressed.
pub open spec fn press_outcome(
    a: Database,
    b: Database,
    interaction: Seq<char>,
    event: Seq<char>,
    user: Seq<char>,
    data: Seq<char>,
    now: i64,
    r: bool,
) -> bool {
    &&& r == first(a.interactions@, interaction_named(interaction)) is None
    &&& !r ==> b == a
    &&& r ==> {
        let row = b.interactions@.last();
        &&& b == (Database {
            interactions: b.interactions,
            ..a
        })
        &&& b.interactions@ == a.interactions@.push(row)
        &&& row.interaction_id@ == interaction
        &&& row.outer_event_id@ == event
        &&& row.user_openid@ == user
        &&& row.button_data_hash@ == text_hash(data)
        &&& row.ack_code is None
        &&& row.created_at == now
    }
}

impl Database {
    /// Remembers that a button was pressed. Returns whether that is news.
    pub fn record_qq_interaction(
        &mut self,
        interaction_id: &str,
        outer_event_id: &str,
        user_openid: &str,
        button_data: &str,
        now: i64,
    ) -> (r: bool)
        requires
            old(self).wf(),
        ensures
            final(self).wf(),
            press_outcome(
                *old(self),
                *final(self),
                interaction_id@,
                outer_event_id@,
                user_openid@,
                button_data@,
                now,
                r,
            ),
    {
        let test = |r: &InteractionRow| -> (b: bool)
            ensures
                b == (r.interaction_id@ == interaction_id@),
        { str_eq(r.interaction_id.as_str(), interaction_id) };
        if find(&self.interactions, test, Ghost(interaction_named(interaction_id@))).is_some() {
            return false;
        }
        proof {
            lemma_first_holds(self.interactions@, interaction_named(interaction_id@));
        }
        self.interactions.push(
            InteractionRow {
                interaction_id: interaction_id.to_owned(),
                outer_event_id: outer_event_id.to_owned(),
                user_openid: user_openid.to_owned(),
                button_data_hash: sha256_hex(button_data.as_bytes()),
                ack_code: None,
                created_at: now,
            },
        );
        true
    }

    /// Remembers how the press of a button was acknowledged.
    pub fn set_qq_interaction_ack(&mut self, interaction_id: &str, code: u8)
        requires
            old(self).wf(),
        ensures
            final(self).wf(),
            *final(self) == (Database { interactions: final(self).interactions, ..*old(self) }),
            all_acknowledge(
                old(self).interactions@,
                final(self).interactions@,
                interaction_id@,
                code,
            ),
    {
        apply_acknowledge(&mut self.interactions, interaction_id, code);
    }
}

} // verus!
