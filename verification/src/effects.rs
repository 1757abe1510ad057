//! What operations bring about, told by what stands in the tables before and after
//! and by what is handed out.
use vstd::prelude::*;
use vstd::string::*;

use crate::bindings::{
    detach_outcome, ensure_fault, ensured, focus_outcome, focused_on, let_go, track_outcome,
    tracked_from,
};
use crate::commands::{ack_outcome, cancel_outcome, enqueued, message_outcome, poll_outcome, routed};
use crate::config::Failure;
use crate::interactions::{
    answer_outcome, decision_coded, decision_outcome, input_keyed, AhpApprovalSubmission,
};
use crate::json::{canonical, canonical_members, get_tree, insert_member, member, Tree};
use crate::protocol::{AhpAdapterCommand, AhpBindingRecord, AhpCommandKind, AhpCommandOutcome};
use crate::security::{
    lemma_redacted_members, redacted, redacted_members, regex_match, regex_replaced, REDACTED,
    SECRET_KEY, SECRET_VALUE,
};
use crate::store::{
    BindingRow, BindingState, CommandRow, CommandState, Database, DecisionState, InputState,
    MAX_TRACKED_AHP_SESSIONS,
};
use crate::tables::{first, lemma_filter_push, lemma_first, lemma_first_holds, lemma_first_none};
use crate::text::{integer, opt_view};

verus! {

broadcast use vstd::string::group_string_axioms;

// ---------------------------------------------------------------------------
// What a command tells

/// The text without the credentials in it.
pub open spec fn masked(s: Seq<char>) -> Seq<char> {
    regex_replaced(SECRET_VALUE@, s, REDACTED@)
}

/// Whether the data tell that value under that name, which is not one that announces
/// a credential.
pub open spec fn tells(data: Tree, name: Seq<char>, value: Tree) -> bool {
    regex_match(SECRET_KEY@, name) || get_tree(data, name) == Some(value)
}

/// Whether the data tell that text under that name, without the credentials in it.
pub open spec fn tells_text(data: Tree, name: Seq<char>, text: Seq<char>) -> bool {
    tells(data, name, Tree::Text(masked(text)))
}

/// Whether the data tell that text under that name, or that there is none.
pub open spec fn tells_option(data: Tree, name: Seq<char>, text: Option<Seq<char>>) -> bool {
    match text {
        Some(s) => tells_text(data, name, s),
        None => tells(data, name, Tree::Null),
    }
}

proof fn lemma_member_inserted(ms: Seq<(Seq<char>, Tree)>, key: Seq<char>, value: Tree, q: Seq<char>)
    ensures
        member(insert_member(ms, key, value), q) == (if q == key {
            Some(value)
        } else {
            member(ms, q)
        }),
    decreases ms.len(),
{
    let out = insert_member(ms, key, value);
    if ms.len() == 0 {
        assert(out.skip(1).len() == 0);
    } else if ms[0].0 == key {
        assert(out.skip(1) =~= ms.skip(1));
    } else if crate::text::less(key, ms[0].0) {
        assert(out.skip(1) =~= ms);
    } else {
        assert(out.skip(1) =~= insert_member(ms.skip(1), key, value));
        lemma_member_inserted(ms.skip(1), key, value, q);
    }
}

proof fn lemma_canonical_member(ms: Seq<(Seq<char>, Tree)>, n: nat, i: int)
    requires
        0 <= i < n <= ms.len(),
        forall|j: int| i < j < n ==> (#[trigger] ms[j]).0 != ms[i].0,
    ensures
        member(canonical_members(ms, n), ms[i].0) == Some(canonical(ms[i].1)),
    decreases n,
{
    lemma_member_inserted(
        canonical_members(ms, (n - 1) as nat),
        ms[n - 1].0,
        canonical(ms[n - 1].1),
        ms[i].0,
    );
    if i < n - 1 {
        lemma_canonical_member(ms, (n - 1) as nat, i);
    }
}

/// What is kept of an object tells what its members say, as long as no later member
/// has the same name.
pub proof fn kept_data_tell_their_members(ms: Seq<(Seq<char>, Tree)>, i: int)
    requires
        0 <= i < ms.len(),
        forall|j: int| i < j < ms.len() ==> (#[trigger] ms[j]).0 != ms[i].0,
    ensures
        ms[i].1 matches Tree::Text(s) ==> tells_text(
            canonical(redacted(Tree::Object(ms))),
            ms[i].0,
            s,
        ),
        ms[i].1 is Bool || ms[i].1 is Null || ms[i].1 is Number ==> tells(
            canonical(redacted(Tree::Object(ms))),
            ms[i].0,
            ms[i].1,
        ),
{
    let out = redacted_members(ms, ms.len());
    lemma_redacted_members(ms, ms.len());
    assert(out[i].0 == ms[i].0);
    assert forall|j: int| i < j < out.len() implies (#[trigger] out[j]).0 != out[i].0 by {
        assert(out[j].0 == ms[j].0);
    }
    lemma_canonical_member(out, out.len(), i);
}

/// The one row that the condition holds of is the first one.
proof fn lemma_only<T>(rows: Seq<T>, p: spec_fn(T) -> bool, i: int)
    requires
        0 <= i < rows.len(),
        p(rows[i]),
        forall|j: int| 0 <= j < rows.len() && p(#[trigger] rows[j]) ==> j == i,
    ensures
        first(rows, p) == Some(rows[i]),
{
    assert forall|j: int| 0 <= j < i implies !p(#[trigger] rows[j]) by {}
    lemma_first(rows, p, i);
}

/// Whether the command has just been queued for the tracked session.
pub open spec fn queued_for(c: CommandRow, row: BindingRow, kind: AhpCommandKind, now: i64) -> bool {
    &&& c.binding_id@ == row.binding_id@
    &&& c.binding_generation == row.generation
    &&& c.kind == kind
    &&& c.state == CommandState::Pending
    &&& c.lease_owner is None
    &&& c.created_at == now
}

proof fn lemma_binding_of(a: Database, uri: Seq<char>, j: int)
    requires
        a.wf(),
        0 <= j < a.bindings@.len(),
        a.bindings@[j].session_uri@ == uri,
    ensures
        a.binding_of(uri) == Some(a.bindings@[j]),
{
    let p = crate::bindings::with_session(uri);
    assert forall|k: int| 0 <= k < a.bindings@.len() && p(#[trigger] a.bindings@[k]) implies k
        == j by {
        if k < j {
            assert(a.bindings@[k].session_uri@ != a.bindings@[j].session_uri@);
        } else if j < k {
            assert(a.bindings@[j].session_uri@ != a.bindings@[k].session_uri@);
        }
    }
    lemma_only(a.bindings@, p, j);
}

proof fn lemma_no_command(a: Database, key: Seq<char>)
    requires
        forall|k: int| 0 <= k < a.commands@.len() ==> (#[trigger] a.commands@[k]).command_key@ != key,
    ensures
        a.command_with(key) is None,
{
    lemma_first_none(a.commands@, crate::bindings::with_key(key));
}

// ---------------------------------------------------------------------------
// Approvals and inputs of an agent host

proof fn lemma_decision_data(row: crate::store::DecisionRow, approved: bool)
    ensures
        ({
            let data = canonical(redacted(crate::interactions::decision_data(row, approved)));
            &&& tells(data, "approved"@, Tree::Bool(approved))
            &&& tells_text(data, "approval_key"@, row.approval_key@)
            &&& tells_text(data, "session_uri"@, row.session_uri@)
            &&& tells_text(data, "chat_uri"@, row.chat_uri@)
            &&& tells_text(data, "turn_id"@, row.turn_id@)
            &&& tells_text(data, "tool_call_id"@, row.tool_call_id@)
        }),
{
    reveal_strlit("approval_key");
    reveal_strlit("session_uri");
    reveal_strlit("chat_uri");
    reveal_strlit("turn_id");
    reveal_strlit("tool_call_id");
    reveal_strlit("approved");
    assert("approval_key"@.len() != "session_uri"@.len());
    assert("approval_key"@.len() != "chat_uri"@.len());
    assert("approval_key"@.len() != "turn_id"@.len());
    assert("approval_key"@[0] != "tool_call_id"@[0]);
    assert("approval_key"@.len() != "approved"@.len());
    assert("session_uri"@.len() != "chat_uri"@.len());
    assert("session_uri"@.len() != "turn_id"@.len());
    assert("session_uri"@.len() != "tool_call_id"@.len());
    assert("session_uri"@.len() != "approved"@.len());
    assert("chat_uri"@.len() != "turn_id"@.len());
    assert("chat_uri"@.len() != "tool_call_id"@.len());
    assert("chat_uri"@[0] != "approved"@[0]);
    assert("turn_id"@.len() != "tool_call_id"@.len());
    assert("turn_id"@.len() != "approved"@.len());
    assert("tool_call_id"@.len() != "approved"@.len());
    let ms = crate::interactions::decision_data(row, approved)->Object_0;
    kept_data_tell_their_members(ms, 0);
    kept_data_tell_their_members(ms, 1);
    kept_data_tell_their_members(ms, 2);
    kept_data_tell_their_members(ms, 3);
    kept_data_tell_their_members(ms, 4);
    kept_data_tell_their_members(ms, 5);
}

proof fn lemma_answer_data(row: crate::store::InputRow, answer: Seq<char>)
    ensures
        ({
            let data = canonical(redacted(crate::interactions::answer_data(row, answer)));
            &&& tells_text(data, "answer"@, answer)
            &&& tells_text(data, "input_key"@, row.input_key@)
            &&& tells_text(data, "session_uri"@, row.session_uri@)
            &&& tells_text(data, "chat_uri"@, row.chat_uri@)
            &&& tells_text(data, "request_id"@, row.request_id@)
        }),
{
    reveal_strlit("input_key");
    reveal_strlit("session_uri");
    reveal_strlit("chat_uri");
    reveal_strlit("request_id");
    reveal_strlit("answer");
    assert("input_key"@.len() != "session_uri"@.len());
    assert("input_key"@.len() != "chat_uri"@.len());
    assert("input_key"@.len() != "request_id"@.len());
    assert("input_key"@.len() != "answer"@.len());
    assert("session_uri"@.len() != "chat_uri"@.len());
    assert("session_uri"@.len() != "request_id"@.len());
    assert("session_uri"@.len() != "answer"@.len());
    assert("chat_uri"@.len() != "request_id"@.len());
    assert("chat_uri"@.len() != "answer"@.len());
    assert("request_id"@.len() != "answer"@.len());
    let ms = crate::interactions::answer_data(row, answer)->Object_0;
    kept_data_tell_their_members(ms, 0);
    kept_data_tell_their_members(ms, 1);
    kept_data_tell_their_members(ms, 2);
    kept_data_tell_their_members(ms, 3);
    kept_data_tell_their_members(ms, 4);
}

/// A decision on an approval that waits, in a session that is bound to its chat, is
/// accepted, and one command is queued for that session: it says what was decided,
/// and of which call of a tool.
pub proof fn decisions_reach_the_host(
    a: Database,
    b: Database,
    code: Seq<char>,
    i: int,
    j: int,
    approved: bool,
    surface: Seq<char>,
    message: Seq<char>,
    now: i64,
    r: Result<Option<AhpApprovalSubmission>, Failure>,
)
    requires
        a.wf(),
        0 <= i < a.decisions@.len(),
        a.decisions@[i].short_code@ == code,
        a.decisions@[i].state == DecisionState::Pending,
        a.decisions@[i].expires_at > now,
        0 <= j < a.bindings@.len(),
        a.bindings@[j].session_uri@ == a.decisions@[i].session_uri@,
        a.bindings@[j].state == BindingState::Bound,
        opt_view(a.bindings@[j].chat_uri) == Some(a.decisions@[i].chat_uri@),
        a.bindings@[j].queued_message_count <= u32::MAX,
        forall|k: int|
            0 <= k < a.commands@.len() ==> (#[trigger] a.commands@[k]).command_key@ != "approval:"@
                + a.decisions@[i].approval_key@ + (if approved {
                ":allow"@
            } else {
                ":deny"@
            }),
        decision_outcome(
            a,
            b,
            first(a.decisions@, decision_coded(code)),
            approved,
            surface,
            message,
            now,
            r,
        ),
    ensures
        r matches Ok(Some(s)) && s.accepted && s.approved == approved && s.record.approval_key
            == a.decisions@[i].approval_key && s.record.state@ == "submitted"@,
        b.commands@.len() == a.commands@.len() + 1,
        b.commands@.take(a.commands@.len() as int) == a.commands@,
        queued_for(
            b.commands@.last(),
            a.bindings@[j],
            if a.decisions@[i].stage@ == "parameter"@ {
                AhpCommandKind::ApproveTool
            } else {
                AhpCommandKind::ReviewToolResult
            },
            now,
        ),
        tells(b.commands@.last().data@, "approved"@, Tree::Bool(approved)),
        tells_text(b.commands@.last().data@, "approval_key"@, a.decisions@[i].approval_key@),
        tells_text(b.commands@.last().data@, "session_uri"@, a.decisions@[i].session_uri@),
        tells_text(b.commands@.last().data@, "chat_uri"@, a.decisions@[i].chat_uri@),
        tells_text(b.commands@.last().data@, "turn_id"@, a.decisions@[i].turn_id@),
        tells_text(b.commands@.last().data@, "tool_call_id"@, a.decisions@[i].tool_call_id@),
        b.decisions@.len() == a.decisions@.len(),
        b.decisions@[i].state == DecisionState::Submitted,
        b.decisions@[i].command_id == Some(b.commands@.last().command_id),
        opt_view(b.decisions@[i].decided_by_surface) == Some(surface),
        opt_view(b.decisions@[i].decided_by_message_id) == Some(message),
{
    let row = a.decisions@[i];
    let p = decision_coded(code);
    assert forall|k: int| 0 <= k < a.decisions@.len() && p(#[trigger] a.decisions@[k]) implies k
        == i by {
        if k < i {
            assert(a.decisions@[k].short_code@ != a.decisions@[i].short_code@);
        } else if i < k {
            assert(a.decisions@[i].short_code@ != a.decisions@[k].short_code@);
        }
    }
    lemma_only(a.decisions@, p, i);
    lemma_binding_of(a, row.session_uri@, j);
    let s = r->Ok_0->0;
    let key = crate::interactions::decision_key(row, approved);
    let data = crate::interactions::decision_data(row, approved);
    let (m, x, command) = choose|m: Database, x: Database, command: i64|
        {
            &&& #[trigger] crate::commands::expired(a, m, now)
            &&& #[trigger] routed(
                m,
                x,
                key,
                a.binding_of(row.session_uri@)->0,
                crate::interactions::decision_kind(row),
                data,
                now,
                command,
            )
            &&& b == (Database { decisions: b.decisions, ..x })
            &&& crate::tables::changed(
                m.decisions@,
                b.decisions@,
                |p: crate::store::DecisionRow, q: crate::store::DecisionRow|
                    crate::interactions::is_submitted_decision(
                        p,
                        q,
                        row.approval_key@,
                        command,
                        surface,
                        message,
                        now,
                    ),
            )
        };
    lemma_no_command(m, key);
    assert(m.decisions@[i] == row);
    assert(b.decisions@[i].state == DecisionState::Submitted);
    lemma_decision_data(row, approved);
    lemma_first_holds(b.decisions@, crate::interactions::decision_keyed(row.approval_key@));
    let found = first(b.decisions@, crate::interactions::decision_keyed(row.approval_key@))->0;
    let k = choose|k: int| 0 <= k < b.decisions@.len() && #[trigger] b.decisions@[k] == found;
    assert(m.decisions@[k].approval_key@ == row.approval_key@);
    assert(a.decisions@[k].approval_key@ == a.decisions@[i].approval_key@);
    assert(k == i) by {
        if k < i {
            assert(a.decisions@[k].approval_key@ != a.decisions@[i].approval_key@);
        } else if i < k {
            assert(a.decisions@[i].approval_key@ != a.decisions@[k].approval_key@);
        }
    }
    assert(b.commands@.take(a.commands@.len() as int) =~= a.commands@);
}

/// A decision on an approval that is decided already, or that waited too long, is not
/// accepted, and no command is queued.
pub proof fn late_decisions_do_nothing(
    a: Database,
    b: Database,
    code: Seq<char>,
    i: int,
    approved: bool,
    surface: Seq<char>,
    message: Seq<char>,
    now: i64,
    r: Result<Option<AhpApprovalSubmission>, Failure>,
)
    requires
        a.wf(),
        0 <= i < a.decisions@.len(),
        a.decisions@[i].short_code@ == code,
        a.decisions@[i].state != DecisionState::Pending || a.decisions@[i].expires_at <= now,
        decision_outcome(
            a,
            b,
            first(a.decisions@, decision_coded(code)),
            approved,
            surface,
            message,
            now,
            r,
        ),
    ensures
        r matches Ok(Some(s)) && !s.accepted && s.record.approval_key
            == a.decisions@[i].approval_key,
        b.commands == a.commands,
        b.bindings == a.bindings,
        a.decisions@[i].state != DecisionState::Pending && a.decisions@[i].state
            != DecisionState::Submitted ==> b.decisions@[i] == a.decisions@[i],
{
    let p = decision_coded(code);
    assert forall|k: int| 0 <= k < a.decisions@.len() && p(#[trigger] a.decisions@[k]) implies k
        == i by {
        if k < i {
            assert(a.decisions@[k].short_code@ != a.decisions@[i].short_code@);
        } else if i < k {
            assert(a.decisions@[i].short_code@ != a.decisions@[k].short_code@);
        }
    }
    lemma_only(a.decisions@, p, i);
}

/// A decision on an approval whose session is not bound to the chat that asked is
/// refused, and nothing changes.
pub proof fn stale_chats_get_no_decision(
    a: Database,
    b: Database,
    row: crate::store::DecisionRow,
    approved: bool,
    surface: Seq<char>,
    message: Seq<char>,
    now: i64,
    r: Result<Option<AhpApprovalSubmission>, Failure>,
)
    requires
        row.state == DecisionState::Pending,
        row.expires_at > now,
        forall|j: int|
            0 <= j < a.bindings@.len() ==> (#[trigger] a.bindings@[j]).session_uri@
                != row.session_uri@ || a.bindings@[j].state != BindingState::Bound || opt_view(
                a.bindings@[j].chat_uri,
            ) != Some(row.chat_uri@),
        decision_outcome(a, b, Some(row), approved, surface, message, now, r),
    ensures
        r is Err,
        b == a,
{
    lemma_first_holds(a.bindings@, crate::bindings::with_session(row.session_uri@));
}

/// An answer to an input that waits, in a session that is bound to its chat, is
/// accepted where any text or that one is allowed, and one command is queued for that
/// session: it says what was answered, and to which request.
pub proof fn answers_reach_the_host(
    a: Database,
    b: Database,
    key: Seq<char>,
    i: int,
    j: int,
    answer: Seq<char>,
    surface: Seq<char>,
    message: Seq<char>,
    now: i64,
    r: Result<bool, Failure>,
)
    requires
        a.wf(),
        0 <= i < a.inputs@.len(),
        a.inputs@[i].input_key@ == key,
        a.inputs@[i].state == InputState::Pending,
        a.inputs@[i].expires_at > now,
        a.inputs@[i].allow_freeform || exists|k: int|
            0 <= k < a.inputs@[i].choices@.len() && (#[trigger] a.inputs@[i].choices@[k])@
                == answer,
        0 <= j < a.bindings@.len(),
        a.bindings@[j].session_uri@ == a.inputs@[i].session_uri@,
        a.bindings@[j].state == BindingState::Bound,
        opt_view(a.bindings@[j].chat_uri) == Some(a.inputs@[i].chat_uri@),
        a.bindings@[j].queued_message_count <= u32::MAX,
        forall|k: int|
            0 <= k < a.commands@.len() ==> (#[trigger] a.commands@[k]).command_key@ != "input:"@
                + key + ":"@ + message,
        first(a.inputs@, input_keyed(key)) is Some,
        answer_outcome(
            a,
            b,
            first(a.inputs@, input_keyed(key))->0,
            answer,
            surface,
            message,
            now,
            r,
        ),
    ensures
        r == Ok::<bool, Failure>(true),
        b.commands@.len() == a.commands@.len() + 1,
        b.commands@.take(a.commands@.len() as int) == a.commands@,
        queued_for(b.commands@.last(), a.bindings@[j], AhpCommandKind::CompleteInput, now),
        tells_text(b.commands@.last().data@, "answer"@, answer),
        tells_text(b.commands@.last().data@, "input_key"@, key),
        tells_text(b.commands@.last().data@, "session_uri"@, a.inputs@[i].session_uri@),
        tells_text(b.commands@.last().data@, "chat_uri"@, a.inputs@[i].chat_uri@),
        tells_text(b.commands@.last().data@, "request_id"@, a.inputs@[i].request_id@),
        b.inputs@.len() == a.inputs@.len(),
        b.inputs@[i].state == InputState::Submitted,
        b.inputs@[i].command_id == Some(b.commands@.last().command_id),
        opt_view(b.inputs@[i].decided_by_surface) == Some(surface),
        opt_view(b.inputs@[i].decided_by_message_id) == Some(message),
{
    let row = a.inputs@[i];
    lemma_input(a, key, i);
    lemma_binding_of(a, row.session_uri@, j);
    let data = crate::interactions::answer_data(row, answer);
    let (m, x, command) = choose|m: Database, x: Database, command: i64|
        {
            &&& #[trigger] crate::commands::expired(a, m, now)
            &&& #[trigger] routed(
                m,
                x,
                crate::interactions::answer_key(row, message),
                a.binding_of(row.session_uri@)->0,
                AhpCommandKind::CompleteInput,
                data,
                now,
                command,
            )
            &&& b == (Database { inputs: b.inputs, ..x })
            &&& crate::tables::changed(
                m.inputs@,
                b.inputs@,
                |p: crate::store::InputRow, q: crate::store::InputRow|
                    crate::interactions::is_submitted_input(
                        p,
                        q,
                        row.input_key@,
                        command,
                        surface,
                        message,
                        now,
                    ),
            )
        };
    lemma_no_command(m, crate::interactions::answer_key(row, message));
    assert(m.inputs@[i] == row);
    assert(b.inputs@[i].state == InputState::Submitted);
    lemma_answer_data(row, answer);
    assert(b.commands@.take(a.commands@.len() as int) =~= a.commands@);
}

proof fn lemma_input(a: Database, key: Seq<char>, i: int)
    requires
        a.wf(),
        0 <= i < a.inputs@.len(),
        a.inputs@[i].input_key@ == key,
    ensures
        first(a.inputs@, input_keyed(key)) == Some(a.inputs@[i]),
{
    let p = input_keyed(key);
    assert forall|k: int| 0 <= k < a.inputs@.len() && p(#[trigger] a.inputs@[k]) implies k == i by {
        if k < i {
            assert(a.inputs@[k].input_key@ != a.inputs@[i].input_key@);
        } else if i < k {
            assert(a.inputs@[i].input_key@ != a.inputs@[k].input_key@);
        }
    }
    lemma_only(a.inputs@, p, i);
}

/// Where only some answers are allowed, another one is refused, and nothing changes.
pub proof fn only_choices_are_answers(
    a: Database,
    b: Database,
    row: crate::store::InputRow,
    answer: Seq<char>,
    surface: Seq<char>,
    message: Seq<char>,
    now: i64,
    r: Result<bool, Failure>,
)
    requires
        row.state == InputState::Pending,
        row.expires_at > now,
        !row.allow_freeform,
        forall|k: int| 0 <= k < row.choices@.len() ==> (#[trigger] row.choices@[k])@ != answer,
        answer_outcome(a, b, row, answer, surface, message, now, r),
    ensures
        r is Err,
        b == a,
{
}

/// An answer to an input that is answered already, or that waited too long, is not
/// accepted, and no command is queued.
pub proof fn late_answers_do_nothing(
    a: Database,
    b: Database,
    row: crate::store::InputRow,
    answer: Seq<char>,
    surface: Seq<char>,
    message: Seq<char>,
    now: i64,
    r: Result<bool, Failure>,
)
    requires
        row.state != InputState::Pending || row.expires_at <= now,
        answer_outcome(a, b, row, answer, surface, message, now, r),
    ensures
        r == Ok::<bool, Failure>(false),
        b.commands == a.commands,
        b.bindings == a.bindings,
{
}

/// An answer to an input whose session is not bound to the chat that asked is refused,
/// and nothing changes.
pub proof fn stale_chats_get_no_answer(
    a: Database,
    b: Database,
    row: crate::store::InputRow,
    answer: Seq<char>,
    surface: Seq<char>,
    message: Seq<char>,
    now: i64,
    r: Result<bool, Failure>,
)
    requires
        row.state == InputState::Pending,
        row.expires_at > now,
        forall|j: int|
            0 <= j < a.bindings@.len() ==> (#[trigger] a.bindings@[j]).session_uri@
                != row.session_uri@ || a.bindings@[j].state != BindingState::Bound || opt_view(
                a.bindings@[j].chat_uri,
            ) != Some(row.chat_uri@),
        answer_outcome(a, b, row, answer, surface, message, now, r),
    ensures
        r is Err,
        b == a,
{
    lemma_first_holds(a.bindings@, crate::bindings::with_session(row.session_uri@));
}

// ---------------------------------------------------------------------------
// Tracked sessions

/// Whether the tracked session is idle in the background: it has arrived or is lost
/// or failed, no turn is running, no message is queued, no command for it waits or is
/// leased, and no approval or input of it is open.
pub open spec fn idle_in_background(db: Database, row: BindingRow) -> bool {
    &&& db.foreground matches Some(f) ==> f.binding_id@ != row.binding_id@
    &&& row.state == BindingState::Bound || row.state == BindingState::Lost || row.state
        == BindingState::Failed
    &&& row.active_turn_id is None
    &&& row.queued_message_count == 0
    &&& forall|k: int|
        0 <= k < db.commands@.len() && (#[trigger] db.commands@[k]).binding_id@ == row.binding_id@
            ==> db.commands@[k].state != CommandState::Pending && db.commands@[k].state
            != CommandState::Leased
    &&& forall|k: int|
        0 <= k < db.decisions@.len() && (#[trigger] db.decisions@[k]).session_uri@
            == row.session_uri@ ==> db.decisions@[k].state != DecisionState::Pending
            && db.decisions@[k].state != DecisionState::Submitted
    &&& forall|k: int|
        0 <= k < db.inputs@.len() && (#[trigger] db.inputs@[k]).session_uri@ == row.session_uri@
            ==> db.inputs@[k].state != InputState::Pending && db.inputs@[k].state
            != InputState::Submitted
}

/// How many sessions are tracked and not about to be let go.
pub open spec fn how_many_tracked(db: Database) -> nat {
    db.bindings@.filter(|r: BindingRow| r.state != BindingState::Detaching).len()
}

proof fn lemma_idle(db: Database, row: BindingRow)
    ensures
        db.is_evictable(row) == idle_in_background(db, row),
{
    if db.is_evictable(row) {
        assert(idle_in_background(db, row));
    }
}

proof fn lemma_how_many(db: Database)
    ensures
        db.tracked_count() == how_many_tracked(db),
{
    assert(crate::store::tracking() =~= (|r: BindingRow| r.state != BindingState::Detaching));
}

/// Whether the tracked session `i` is the right one to be let go: it is idle in the
/// background, and of those that are, a failed one goes before a lost one, a lost one
/// before any other, and of two in the same state the one idle for longer.
pub open spec fn rightly_let_go(db: Database, i: int) -> bool {
    &&& idle_in_background(db, db.bindings@[i])
    &&& forall|j: int|
        0 <= j < db.bindings@.len() && idle_in_background(db, #[trigger] db.bindings@[j]) ==> {
            &&& db.bindings@[j].state == db.bindings@[i].state ==> db.bindings@[i].last_activity_at
                <= db.bindings@[j].last_activity_at
            &&& db.bindings@[j].state == BindingState::Failed ==> db.bindings@[i].state
                == BindingState::Failed
            &&& db.bindings@[j].state == BindingState::Lost ==> db.bindings@[i].state
                != BindingState::Bound
        }
}

proof fn lemma_room(
    a: Database,
    m: Database,
    endpoint: Seq<char>,
    uri: Seq<char>,
    touch: bool,
    id: Seq<char>,
    now: i64,
    i: int,
)
    requires
        a.wf(),
        ensure_fault(a, endpoint, uri, MAX_TRACKED_AHP_SESSIONS as nat, id) is None,
        ensured(a, m, endpoint, uri, MAX_TRACKED_AHP_SESSIONS as nat, touch, id, now),
        0 <= i < a.bindings@.len(),
        a.bindings@[i].state != BindingState::Detaching,
        m.bindings@[i].state == BindingState::Detaching,
    ensures
        how_many_tracked(a) >= 5,
        rightly_let_go(a, i),
        a.bindings@[i].session_uri@ != uri,
        (forall|k: int|
            0 <= k < a.commands@.len() ==> (#[trigger] a.commands@[k]).command_key@ != "unbind:"@
                + a.bindings@[i].binding_id@ + ":"@ + integer(a.bindings@[i].generation as int))
            ==> a.commands@.len() < m.commands@.len() && queued_for(
            m.commands@[a.commands@.len() as int],
            a.bindings@[i],
            AhpCommandKind::UnbindSession,
            now,
        ) && tells_text(
            m.commands@[a.commands@.len() as int].data@,
            "session_uri"@,
            a.bindings@[i].session_uri@,
        ) && tells_option(
            m.commands@[a.commands@.len() as int].data@,
            "chat_uri"@,
            opt_view(a.bindings@[i].chat_uri),
        ),
{
    let max = MAX_TRACKED_AHP_SESSIONS as nat;
    lemma_how_many(a);
    lemma_first_holds(a.bindings@, crate::bindings::with_session(uri));
    let found = a.binding_of(uri);
    if found is Some {
        assert(m.bindings@[i].state == a.bindings@[i].state || m.bindings@[i].state
            == BindingState::Binding);
        assert(false);
    }
    let host = crate::bindings::available_on(a, endpoint, uri)->0.host_instance_id@;
    let x = choose|x: Database| #[trigger]
        crate::bindings::room_made(a, x, max, now) && crate::bindings::newly_bound(
            x,
            m,
            id,
            endpoint,
            host,
            uri,
            now,
        );
    assert(m.bindings@ == x.bindings@.push(m.bindings@.last()));
    if a.tracked_count() < max {
        assert(false);
    }
    let v = choose|v: int| #[trigger]
        crate::bindings::is_next_victim(a, v) && let_go(
            a,
            x,
            a.bindings@[v],
            "lru_eviction"@,
            now,
        );
    assert(v == i) by {
        if v != i {
            assert(a.bindings@[v].binding_id@ != a.bindings@[i].binding_id@);
            assert(x.bindings@[i] == a.bindings@[i]);
        }
    }
    lemma_idle(a, a.bindings@[i]);
    assert forall|j: int|
        0 <= j < a.bindings@.len() && idle_in_background(a, #[trigger] a.bindings@[j]) implies ({
        &&& a.bindings@[j].state == a.bindings@[i].state ==> a.bindings@[i].last_activity_at
            <= a.bindings@[j].last_activity_at
        &&& a.bindings@[j].state == BindingState::Failed ==> a.bindings@[i].state
            == BindingState::Failed
        &&& a.bindings@[j].state == BindingState::Lost ==> a.bindings@[i].state
            != BindingState::Bound
    }) by {
        lemma_idle(a, a.bindings@[j]);
    }
    let row = a.bindings@[i];
    let key = crate::bindings::unbind_key(row.binding_id@, row.generation);
    if forall|k: int|
        0 <= k < a.commands@.len() ==> (#[trigger] a.commands@[k]).command_key@ != "unbind:"@
            + row.binding_id@ + ":"@ + integer(row.generation as int) {
        lemma_let_go(a, x, row, "lru_eviction"@, now);
        assert(m.commands@[a.commands@.len() as int] == x.commands@.last());
    }
}

proof fn lemma_let_go(a: Database, x: Database, row: BindingRow, reason: Seq<char>, now: i64)
    requires
        let_go(a, x, row, reason, now),
        forall|k: int|
            0 <= k < a.commands@.len() ==> (#[trigger] a.commands@[k]).command_key@ != "unbind:"@
                + row.binding_id@ + ":"@ + integer(row.generation as int),
    ensures
        x.commands@.len() == a.commands@.len() + 1,
        queued_for(x.commands@.last(), row, AhpCommandKind::UnbindSession, now),
        tells_text(x.commands@.last().data@, "session_uri"@, row.session_uri@),
        tells_option(x.commands@.last().data@, "chat_uri"@, opt_view(row.chat_uri)),
{
    let key = crate::bindings::unbind_key(row.binding_id@, row.generation);
    let data = crate::bindings::unbind_data(row);
    let m = choose|m: Database|
        {
            &&& m == (Database { bindings: m.bindings, foreground: m.foreground, ..a })
            &&& #[trigger] crate::bindings::requeued(
                m,
                x,
                key,
                row.binding_id@,
                row.generation,
                AhpCommandKind::UnbindSession,
                data,
                now,
            )
        };
    lemma_no_command(m, key);
    let (q, n) = choose|q: Database, n: i64|
        {
            &&& #[trigger] enqueued(
                m,
                q,
                key,
                row.binding_id@,
                row.generation,
                AhpCommandKind::UnbindSession,
                data,
                now,
                n,
            )
            &&& x == (Database { commands: x.commands, ..q })
            &&& crate::tables::changed(
                q.commands@,
                x.commands@,
                |p: CommandRow, q: CommandRow|
                    q == (if p.command_id == n && p.state == CommandState::Failed {
                        CommandRow {
                            state: CommandState::Pending,
                            lease_owner: None,
                            lease_expires_at: None,
                            error_code: None,
                            updated_at: now,
                            ..p
                        }
                    } else {
                        p
                    }),
            )
        };
    assert(x.commands@.last() == q.commands@.last());
    reveal_strlit("session_uri");
    reveal_strlit("chat_uri");
    assert("session_uri"@.len() != "chat_uri"@.len());
    kept_data_tell_their_members(data->Object_0, 0);
    kept_data_tell_their_members(data->Object_0, 1);
}

/// Where tracking a session lets another one go, five were tracked, and it is the
/// right one: idle in the background, and idle for longer than any other in the same
/// state. The adapter is asked to let it go.
pub proof fn tracking_lets_the_idlest_go(
    a: Database,
    b: Database,
    endpoint: Seq<char>,
    uri: Seq<char>,
    id: Seq<char>,
    now: i64,
    r: Result<AhpBindingRecord, Failure>,
    i: int,
)
    requires
        a.wf(),
        track_outcome(a, b, endpoint, uri, id, now, r),
        0 <= i < a.bindings@.len(),
        a.bindings@[i].state != BindingState::Detaching,
        b.bindings@[i].state == BindingState::Detaching,
    ensures
        how_many_tracked(a) >= 5,
        rightly_let_go(a, i),
        a.bindings@[i].session_uri@ != uri,
        (forall|k: int|
            0 <= k < a.commands@.len() ==> (#[trigger] a.commands@[k]).command_key@ != "unbind:"@
                + a.bindings@[i].binding_id@ + ":"@ + integer(a.bindings@[i].generation as int))
            ==> a.commands@.len() < b.commands@.len() && queued_for(
            b.commands@[a.commands@.len() as int],
            a.bindings@[i],
            AhpCommandKind::UnbindSession,
            now,
        ) && tells_text(
            b.commands@[a.commands@.len() as int].data@,
            "session_uri"@,
            a.bindings@[i].session_uri@,
        ),
{
    let m = choose|m: Database|
        {
            &&& #[trigger] ensured(
                a,
                m,
                endpoint,
                uri,
                MAX_TRACKED_AHP_SESSIONS as nat,
                false,
                id,
                now,
            )
            &&& tracked_from(a, m, b, uri, now)
            &&& crate::bindings::shows(m, m.binding_of(uri)->0, r->Ok_0)
        };
    assert(m.bindings == b.bindings && m.commands == b.commands);
    lemma_room(a, m, endpoint, uri, false, id, now, i);
}

/// Where bringing a session to the foreground lets another one go, five were tracked,
/// and it is the right one: idle in the background, and idle for longer than any other
/// in the same state. The adapter is asked to let it go.
pub proof fn focusing_lets_the_idlest_go(
    a: Database,
    b: Database,
    endpoint: Seq<char>,
    uri: Seq<char>,
    id: Seq<char>,
    now: i64,
    r: Result<AhpBindingRecord, Failure>,
    i: int,
)
    requires
        a.wf(),
        focus_outcome(a, b, endpoint, uri, id, now, r),
        0 <= i < a.bindings@.len(),
        a.bindings@[i].state != BindingState::Detaching,
        b.bindings@[i].state == BindingState::Detaching,
    ensures
        how_many_tracked(a) >= 5,
        rightly_let_go(a, i),
        a.bindings@[i].session_uri@ != uri,
        (forall|k: int|
            0 <= k < a.commands@.len() ==> (#[trigger] a.commands@[k]).command_key@ != "unbind:"@
                + a.bindings@[i].binding_id@ + ":"@ + integer(a.bindings@[i].generation as int))
            ==> a.commands@.len() < b.commands@.len() && queued_for(
            b.commands@[a.commands@.len() as int],
            a.bindings@[i],
            AhpCommandKind::UnbindSession,
            now,
        ) && tells_text(
            b.commands@[a.commands@.len() as int].data@,
            "session_uri"@,
            a.bindings@[i].session_uri@,
        ),
{
    let m = choose|m: Database|
        {
            &&& #[trigger] ensured(
                a,
                m,
                endpoint,
                uri,
                MAX_TRACKED_AHP_SESSIONS as nat,
                true,
                id,
                now,
            )
            &&& b == (Database { foreground: b.foreground, ..m })
            &&& focused_on(b, uri, now)
        };
    assert(m.bindings == b.bindings && m.commands == b.commands);
    lemma_room(a, m, endpoint, uri, true, id, now, i);
}

// ---------------------------------------------------------------------------
// Messages and cancellations

/// A message to a session that is tracked, and bound or about to be, is queued for it:
/// the command says the message, its number and the chat. The session was used just
/// now.
pub proof fn messages_reach_their_session(
    a: Database,
    b: Database,
    message: Seq<char>,
    uri: Seq<char>,
    content: Seq<char>,
    now: i64,
    r: Result<i64, Failure>,
    j: int,
)
    requires
        a.wf(),
        0 <= j < a.bindings@.len(),
        a.bindings@[j].session_uri@ == uri,
        a.bindings@[j].state == BindingState::Bound || a.bindings@[j].state
            == BindingState::Binding,
        a.bindings@[j].queued_message_count <= u32::MAX,
        forall|k: int|
            0 <= k < a.commands@.len() ==> (#[trigger] a.commands@[k]).command_key@
                != "qq-message:"@ + message,
        message_outcome(a, b, message, uri, content, now, r),
    ensures
        r is Ok,
        b.commands@.len() == a.commands@.len() + 1,
        b.commands@.take(a.commands@.len() as int) == a.commands@,
        r->Ok_0 == b.commands@.last().command_id,
        queued_for(b.commands@.last(), a.bindings@[j], AhpCommandKind::SendMessage, now),
        tells_text(b.commands@.last().data@, "content"@, content),
        tells_text(b.commands@.last().data@, "client_message_id"@, message),
        tells_text(b.commands@.last().data@, "session_uri"@, uri),
        tells_option(
            b.commands@.last().data@,
            "chat_uri"@,
            opt_view(a.bindings@[j].chat_uri),
        ),
        b.bindings@.len() == a.bindings@.len(),
        b.bindings@[j].last_activity_at == now,
        b.bindings@[j].state == a.bindings@[j].state,
        forall|k: int|
            0 <= k < a.bindings@.len() && k != j ==> #[trigger] b.bindings@[k] == a.bindings@[k],
        b.foreground == a.foreground,
{
    lemma_binding_of(a, uri, j);
    lemma_no_command(a, "qq-message:"@ + message);
    lemma_message_data(message, a.bindings@[j], content);
    lemma_others_untouched(a, b, j);
    assert(b.commands@.take(a.commands@.len() as int) =~= a.commands@);
}

proof fn lemma_others_untouched(a: Database, b: Database, j: int)
    requires
        a.wf(),
        0 <= j < a.bindings@.len(),
    ensures
        forall|k: int|
            0 <= k < a.bindings@.len() && k != j ==> (#[trigger] a.bindings@[k]).binding_id@
                != a.bindings@[j].binding_id@,
{
    assert forall|k: int| 0 <= k < a.bindings@.len() && k != j implies (
    #[trigger] a.bindings@[k]).binding_id@ != a.bindings@[j].binding_id@ by {
        if k < j {
            assert(a.bindings@[k].binding_id@ != a.bindings@[j].binding_id@);
        } else {
            assert(a.bindings@[j].binding_id@ != a.bindings@[k].binding_id@);
        }
    }
}

proof fn lemma_message_data(message: Seq<char>, row: BindingRow, content: Seq<char>)
    ensures
        ({
            let data = canonical(redacted(crate::commands::message_data(message, row, content)));
            &&& tells_text(data, "content"@, content)
            &&& tells_text(data, "client_message_id"@, message)
            &&& tells_text(data, "session_uri"@, row.session_uri@)
            &&& tells_option(data, "chat_uri"@, opt_view(row.chat_uri))
        }),
{
    reveal_strlit("client_message_id");
    reveal_strlit("session_uri");
    reveal_strlit("chat_uri");
    reveal_strlit("content");
    assert("client_message_id"@.len() != "session_uri"@.len());
    assert("client_message_id"@.len() != "chat_uri"@.len());
    assert("client_message_id"@.len() != "content"@.len());
    assert("session_uri"@.len() != "chat_uri"@.len());
    assert("session_uri"@.len() != "content"@.len());
    assert("chat_uri"@.len() != "content"@.len());
    let ms = crate::commands::message_data(message, row, content)->Object_0;
    kept_data_tell_their_members(ms, 0);
    kept_data_tell_their_members(ms, 1);
    kept_data_tell_their_members(ms, 2);
    kept_data_tell_their_members(ms, 3);
}

/// Asking for the turn of a session that is bound to a chat to be cancelled queues one
/// command for it, which names the chat.
pub proof fn cancellations_reach_their_session(
    a: Database,
    b: Database,
    message: Seq<char>,
    uri: Seq<char>,
    now: i64,
    r: Result<i64, Failure>,
    j: int,
)
    requires
        a.wf(),
        0 <= j < a.bindings@.len(),
        a.bindings@[j].session_uri@ == uri,
        a.bindings@[j].state == BindingState::Bound,
        a.bindings@[j].chat_uri is Some,
        a.bindings@[j].queued_message_count <= u32::MAX,
        forall|k: int|
            0 <= k < a.commands@.len() ==> (#[trigger] a.commands@[k]).command_key@
                != "qq-cancel:"@ + message,
        cancel_outcome(a, b, message, uri, now, r),
    ensures
        r is Ok,
        b.commands@.len() == a.commands@.len() + 1,
        b.commands@.take(a.commands@.len() as int) == a.commands@,
        queued_for(b.commands@.last(), a.bindings@[j], AhpCommandKind::CancelTurn, now),
        tells_text(b.commands@.last().data@, "session_uri"@, uri),
        tells_option(
            b.commands@.last().data@,
            "chat_uri"@,
            opt_view(a.bindings@[j].chat_uri),
        ),
        b.foreground == a.foreground,
{
    lemma_binding_of(a, uri, j);
    lemma_no_command(a, "qq-cancel:"@ + message);
    reveal_strlit("session_uri");
    reveal_strlit("chat_uri");
    assert("session_uri"@.len() != "chat_uri"@.len());
    let ms = crate::commands::cancel_data(a.bindings@[j])->Object_0;
    kept_data_tell_their_members(ms, 0);
    kept_data_tell_their_members(ms, 1);
    assert(b.commands@.take(a.commands@.len() as int) =~= a.commands@);
}

/// Nothing is sent to a session that is not tracked, is lost or failed, or is about to
/// be let go; and no turn is cancelled where there is no chat yet.
pub proof fn sessions_that_are_not_there_get_nothing(
    a: Database,
    b: Database,
    message: Seq<char>,
    uri: Seq<char>,
    content: Seq<char>,
    now: i64,
    r: Result<i64, Failure>,
)
    ensures
        message_outcome(a, b, message, uri, content, now, r) && (forall|j: int|
            0 <= j < a.bindings@.len() ==> (#[trigger] a.bindings@[j]).session_uri@ != uri || (
            a.bindings@[j].state != BindingState::Bound && a.bindings@[j].state
                != BindingState::Binding)) ==> r is Err && b == a,
        cancel_outcome(a, b, message, uri, now, r) && (forall|j: int|
            0 <= j < a.bindings@.len() ==> (#[trigger] a.bindings@[j]).session_uri@ != uri
                || a.bindings@[j].state != BindingState::Bound || a.bindings@[j].chat_uri is None)
            ==> r is Err && b == a,
{
    lemma_first_holds(a.bindings@, crate::bindings::with_session(uri));
}

/// The session in the foreground is the tracked one that was put there, unless it is
/// about to be let go.
pub proof fn the_foreground_is_the_session_put_there(a: Database, j: int)
    requires
        a.wf(),
    ensures
        a.foreground is None ==> a.foreground_row() is None,
        0 <= j < a.bindings@.len() && a.foreground is Some && a.foreground->0.binding_id@
            == a.bindings@[j].binding_id@ ==> (a.foreground_row() == if a.bindings@[j].state
            == BindingState::Detaching {
            None
        } else {
            Some(a.bindings@[j])
        }),
{
    if 0 <= j < a.bindings@.len() && a.foreground is Some && a.foreground->0.binding_id@
        == a.bindings@[j].binding_id@ {
        lemma_binding_with(a, j);
    }
}

proof fn lemma_binding_with(a: Database, j: int)
    requires
        a.wf(),
        0 <= j < a.bindings@.len(),
    ensures
        a.binding_with(a.bindings@[j].binding_id@) == Some(a.bindings@[j]),
{
    let p = crate::bindings::with_binding_id(a.bindings@[j].binding_id@);
    lemma_others_untouched(a, a, j);
    assert forall|k: int| 0 <= k < a.bindings@.len() && p(#[trigger] a.bindings@[k]) implies k
        == j by {}
    lemma_only(a.bindings@, p, j);
}

// ---------------------------------------------------------------------------
// Commands

proof fn lemma_place(rows: Seq<CommandRow>, n: nat, k: int) -> (i: int)
    requires
        n <= rows.len(),
        0 <= k < rows.take(n as int).filter(crate::commands::waiting()).len(),
    ensures
        0 <= i < n,
        rows[i] == rows.take(n as int).filter(crate::commands::waiting())[k],
        rows[i].state == CommandState::Pending,
        rows.take(i).filter(crate::commands::waiting()).len() == k,
    decreases n,
{
    let p = crate::commands::waiting();
    if n == 0 {
        reveal(Seq::filter);
        assert(rows.take(0).len() == 0);
        0
    } else {
        let front = rows.take(n - 1);
        assert(rows.take(n as int) =~= front.push(rows[n - 1]));
        lemma_filter_push(front, rows[n - 1], p);
        if k < front.filter(p).len() {
            lemma_place(rows, (n - 1) as nat, k)
        } else {
            n - 1
        }
    }
}

proof fn lemma_turn(rows: Seq<CommandRow>, n: nat, i: int)
    requires
        0 <= i < n <= rows.len(),
        rows[i].state == CommandState::Pending,
    ensures
        rows.take(i).filter(crate::commands::waiting()).len() < rows.take(n as int).filter(
            crate::commands::waiting(),
        ).len(),
        rows.take(n as int).filter(crate::commands::waiting())[rows.take(i).filter(
            crate::commands::waiting(),
        ).len() as int] == rows[i],
    decreases n,
{
    let p = crate::commands::waiting();
    let front = rows.take(n - 1);
    assert(rows.take(n as int) =~= front.push(rows[n - 1]));
    lemma_filter_push(front, rows[n - 1], p);
    if i < n - 1 {
        lemma_turn(rows, (n - 1) as nat, i);
    }
}

/// What an adapter is handed are commands that waited, or whose leases had run out, as
/// they were queued: each for the session that it was queued for, with what it says.
/// They are leased to the adapter for as long as it asked.
pub proof fn commands_are_handed_out_as_queued(
    a: Database,
    b: Database,
    adapter: Seq<char>,
    instance: Seq<char>,
    lease_seconds: u64,
    now: i64,
    commands: Vec<AhpAdapterCommand>,
    k: int,
) -> (i: int)
    requires
        a.wf(),
        now + lease_seconds <= i64::MAX,
        poll_outcome(a, b, adapter, instance, lease_seconds, now, Ok(commands)),
        0 <= k < commands@.len(),
    ensures
        0 <= i < a.commands@.len(),
        a.commands@[i].state == CommandState::Pending || (a.commands@[i].state
            == CommandState::Leased && a.commands@[i].lease_expires_at is Some
            && a.commands@[i].lease_expires_at->0 <= now),
        commands@[k].command_id == a.commands@[i].command_id,
        commands@[k].command_key@ == a.commands@[i].command_key@,
        commands@[k].binding_id@ == a.commands@[i].binding_id@,
        commands@[k].binding_generation == a.commands@[i].binding_generation,
        commands@[k].kind == a.commands@[i].kind,
        commands@[k].data@ == a.commands@[i].data@,
        b.commands@[i].state == CommandState::Leased,
        opt_view(b.commands@[i].lease_owner) == Some(instance),
        b.commands@[i].lease_expires_at == Some((now + lease_seconds) as i64),
        commands@.len() <= 32,
{
    let until = (now + lease_seconds) as i64;
    let m = choose|m: Seq<CommandRow>|
        {
            &&& #[trigger] crate::commands::all_release_command(a.commands@, m, now)
            &&& crate::commands::leased(m, b.commands@, instance, until, now)
            &&& commands@.len() == crate::commands::batch(m).len()
            &&& forall|k: int|
                0 <= k < commands@.len() ==> crate::commands::hands_out(
                    crate::commands::batch(m)[k],
                    #[trigger] commands@[k],
                )
        };
    assert(m.take(m.len() as int) =~= m);
    let i = lemma_place(m, m.len(), k);
    assert(crate::commands::hands_out(crate::commands::batch(m)[k], commands@[k]));
    assert(crate::commands::is_handed_out(m, i));
    assert(b.commands@[i].state == CommandState::Leased);
    assert(m[i] == crate::commands::release_command(a.commands@[i], now));
    i
}

/// Commands are handed out oldest first, and all that wait are handed out where they
/// are fewer than a batch.
pub proof fn waiting_commands_are_handed_out(
    a: Database,
    b: Database,
    adapter: Seq<char>,
    instance: Seq<char>,
    lease_seconds: u64,
    now: i64,
    commands: Vec<AhpAdapterCommand>,
    i: int,
)
    requires
        a.wf(),
        now + lease_seconds <= i64::MAX,
        poll_outcome(a, b, adapter, instance, lease_seconds, now, Ok(commands)),
        0 <= i < a.commands@.len(),
        a.commands@[i].state == CommandState::Pending,
    ensures
        commands@.len() < 32 ==> exists|k: int|
            0 <= k < commands@.len() && (#[trigger] commands@[k]).command_id
                == a.commands@[i].command_id,
        b.commands@[i].state == CommandState::Pending ==> commands@.len() == 32 && forall|k: int|
            0 <= k < commands@.len() ==> (#[trigger] commands@[k]).command_id
                < a.commands@[i].command_id,
        forall|k: int, l: int|
            0 <= k < l < commands@.len() ==> (#[trigger] commands@[k]).command_id < (
            #[trigger] commands@[l]).command_id,
{
    let until = (now + lease_seconds) as i64;
    let m = choose|m: Seq<CommandRow>|
        {
            &&& #[trigger] crate::commands::all_release_command(a.commands@, m, now)
            &&& crate::commands::leased(m, b.commands@, instance, until, now)
            &&& commands@.len() == crate::commands::batch(m).len()
            &&& forall|k: int|
                0 <= k < commands@.len() ==> crate::commands::hands_out(
                    crate::commands::batch(m)[k],
                    #[trigger] commands@[k],
                )
        };
    let p = crate::commands::waiting();
    let all = m.filter(p);
    assert(m.take(m.len() as int) =~= m);
    assert(m[i] == a.commands@[i]);
    lemma_turn(m, m.len(), i);
    let at = m.take(i).filter(p).len() as int;
    assert(all[at] == m[i]);
    assert forall|x: int, y: int| 0 <= x < y < m.len() implies (#[trigger] m[x]).command_id < (
    #[trigger] m[y]).command_id by {
        assert(a.commands@[x].command_id < a.commands@[y].command_id);
    }
    crate::tables::lemma_filter_pairs(
        m,
        p,
        |x: CommandRow, y: CommandRow| x.command_id < y.command_id,
    );
    assert forall|k: int| 0 <= k < commands@.len() implies (#[trigger] commands@[k]).command_id
        == all[k].command_id by {
        assert(crate::commands::hands_out(crate::commands::batch(m)[k], commands@[k]));
    }
    if at < commands@.len() {
        assert(commands@[at].command_id == a.commands@[i].command_id);
        assert(crate::commands::is_handed_out(m, i));
    }
    assert forall|k: int, l: int| 0 <= k < l < commands@.len() implies (
    #[trigger] commands@[k]).command_id < (#[trigger] commands@[l]).command_id by {
        assert(all[k].command_id < all[l].command_id);
    }
    if b.commands@[i].state == CommandState::Pending {
        assert(!crate::commands::is_handed_out(m, i));
        assert forall|k: int| 0 <= k < commands@.len() implies (#[trigger] commands@[k]).command_id
            < a.commands@[i].command_id by {
            assert(all[k].command_id < all[at].command_id);
        }
    }
}

/// An adapter that is not registered, or is registered as another instance, is handed
/// nothing.
pub proof fn only_the_registered_adapter_is_handed_commands(
    a: Database,
    b: Database,
    adapter: Seq<char>,
    instance: Seq<char>,
    lease_seconds: u64,
    now: i64,
    r: Result<Vec<AhpAdapterCommand>, Failure>,
)
    requires
        poll_outcome(a, b, adapter, instance, lease_seconds, now, r),
        lease_seconds <= i64::MAX,
    ensures
        r is Ok <==> a.adapter is Some && a.adapter->0.adapter_id@ == adapter
            && a.adapter->0.adapter_instance_id@ == instance,
        r is Err ==> b == a,
{
}

/// A command that the adapter holds is done with once it says so, in the way that it
/// says; no other command changes. Word of a command that it does not hold is refused.
pub proof fn acknowledged_commands_are_done_with(
    a: Database,
    b: Database,
    adapter: Seq<char>,
    instance: Seq<char>,
    outcome: AhpCommandOutcome,
    error: Option<Seq<char>>,
    result: Option<Tree>,
    now: i64,
    r: Result<(), Failure>,
    i: int,
)
    requires
        a.wf(),
        0 <= i < a.commands@.len(),
        ack_outcome(
            a,
            b,
            adapter,
            instance,
            a.commands@[i].command_id,
            outcome,
            error,
            result,
            now,
            r,
        ),
    ensures
        r is Ok <==> a.adapter is Some && a.adapter->0.adapter_id@ == adapter
            && a.adapter->0.adapter_instance_id@ == instance && a.commands@[i].state
            == CommandState::Leased && opt_view(a.commands@[i].lease_owner) == Some(instance),
        r is Err ==> b == a,
        r is Ok ==> {
            &&& b.commands@.len() == a.commands@.len()
            &&& outcome == AhpCommandOutcome::Applied ==> b.commands@[i].state
                == CommandState::Acked
            &&& outcome == AhpCommandOutcome::Rejected ==> b.commands@[i].state
                == CommandState::Rejected
            &&& outcome == AhpCommandOutcome::Failed ==> b.commands@[i].state
                == CommandState::Failed
            &&& b.commands@[i].command_key == a.commands@[i].command_key
            &&& opt_view(b.commands@[i].error_code) == error
            &&& match result {
                Some(t) => b.commands@[i].result is Some && b.commands@[i].result->0@ == t,
                None => b.commands@[i].result is None,
            }
            &&& forall|k: int|
                0 <= k < a.commands@.len() && k != i ==> #[trigger] b.commands@[k] == a.commands@[k]
        },
{
    let id = a.commands@[i].command_id;
    assert forall|k: int| 0 <= k < a.commands@.len() && k != i implies (
    #[trigger] a.commands@[k]).command_id != id by {
        if k < i {
            assert(a.commands@[k].command_id < a.commands@[i].command_id);
        } else {
            assert(a.commands@[i].command_id < a.commands@[k].command_id);
        }
    }
    if r is Ok {
        let k = choose|k: int|
            0 <= k < a.commands@.len() && crate::commands::is_held(
                #[trigger] a.commands@[k],
                id,
                instance,
            ) && crate::commands::acknowledged(
                a,
                b,
                a.commands@[k],
                instance,
                outcome,
                error,
                result,
                now,
            );
        assert(k == i);
        lemma_ack_commands(a, b, a.commands@[i], instance, outcome, error, result, now);
    } else if a.adapter is Some && a.adapter->0.adapter_id@ == adapter
        && a.adapter->0.adapter_instance_id@ == instance && a.commands@[i].state
        == CommandState::Leased && opt_view(a.commands@[i].lease_owner) == Some(instance) {
        assert(crate::commands::is_held(a.commands@[i], id, instance));
    }
}

proof fn lemma_ack_commands(
    a: Database,
    b: Database,
    row: CommandRow,
    instance: Seq<char>,
    outcome: AhpCommandOutcome,
    error: Option<Seq<char>>,
    result: Option<Tree>,
    now: i64,
) -> (m: (Database, Database))
    requires
        crate::commands::acknowledged(a, b, row, instance, outcome, error, result, now),
    ensures
        crate::commands::disposed(
            a.commands@,
            b.commands@,
            row.command_id,
            instance,
            outcome,
            error,
            result,
            now,
        ),
        m.0 == (Database { commands: m.0.commands, ..a }),
        if row.kind == AhpCommandKind::UnbindSession {
            crate::commands::unbound(m.0, m.1, row.binding_id@, outcome, error, now)
        } else {
            m.1 == m.0
        },
        crate::commands::settled(m.1, b, row.command_id, outcome, now),
{
    let (m1, m2) = choose|m1: Database, m2: Database|
        {
            &&& m1 == (Database { commands: m1.commands, ..a })
            &&& crate::commands::disposed(
                a.commands@,
                m1.commands@,
                row.command_id,
                instance,
                outcome,
                error,
                result,
                now,
            )
            &&& if row.kind == AhpCommandKind::UnbindSession {
                crate::commands::unbound(m1, m2, row.binding_id@, outcome, error, now)
            } else {
                m2 == m1
            }
            &&& #[trigger] crate::commands::settled_after(m1, m2, b, row.command_id, outcome, now)
        };
    assert(m2.commands == m1.commands);
    assert(b.commands == m2.commands);
    (m1, m2)
}

/// What an acknowledgement means to those who waited for the command. Where it was
/// applied, approvals and inputs stay as they are. Where it failed, those whose answer
/// it carried have failed.
pub proof fn acknowledgements_settle_what_waited(
    a: Database,
    b: Database,
    row: CommandRow,
    instance: Seq<char>,
    outcome: AhpCommandOutcome,
    error: Option<Seq<char>>,
    result: Option<Tree>,
    now: i64,
)
    requires
        crate::commands::acknowledged(a, b, row, instance, outcome, error, result, now),
    ensures
        outcome == AhpCommandOutcome::Applied ==> b.decisions == a.decisions && b.inputs
            == a.inputs,
        outcome == AhpCommandOutcome::Failed ==> {
            &&& b.decisions@.len() == a.decisions@.len()
            &&& forall|i: int|
                0 <= i < a.decisions@.len() ==> if a.decisions@[i].command_id == Some(
                    row.command_id,
                ) && a.decisions@[i].state == DecisionState::Submitted {
                    (#[trigger] b.decisions@[i]).state == DecisionState::Failed
                } else {
                    b.decisions@[i] == a.decisions@[i]
                }
            &&& b.inputs@.len() == a.inputs@.len()
            &&& forall|i: int|
                0 <= i < a.inputs@.len() ==> if a.inputs@[i].command_id == Some(row.command_id)
                    && a.inputs@[i].state == InputState::Submitted {
                    (#[trigger] b.inputs@[i]).state == InputState::Failed
                } else {
                    b.inputs@[i] == a.inputs@[i]
                }
        },
        row.kind != AhpCommandKind::UnbindSession ==> b.bindings == a.bindings && b.foreground
            == a.foreground,
{
    let m = lemma_ack_commands(a, b, row, instance, outcome, error, result, now);
    assert(m.1.decisions == a.decisions && m.1.inputs == a.inputs);
}

/// A session that was about to be let go is tracked no longer once the adapter has let
/// it go, and has failed where it could not. The other tracked sessions stay.
pub proof fn sessions_are_let_go_in_the_end(
    a: Database,
    b: Database,
    row: CommandRow,
    instance: Seq<char>,
    outcome: AhpCommandOutcome,
    error: Option<Seq<char>>,
    result: Option<Tree>,
    now: i64,
    i: int,
)
    requires
        crate::commands::acknowledged(a, b, row, instance, outcome, error, result, now),
        row.kind == AhpCommandKind::UnbindSession,
        0 <= i < a.bindings@.len(),
    ensures
        outcome != AhpCommandOutcome::Failed ==> {
            &&& forall|k: int|
                0 <= k < b.bindings@.len() ==> (#[trigger] b.bindings@[k]).binding_id@
                    != row.binding_id@ || b.bindings@[k].state != BindingState::Detaching
            &&& a.bindings@[i].binding_id@ != row.binding_id@ || a.bindings@[i].state
                != BindingState::Detaching ==> b.bindings@.contains(a.bindings@[i])
        },
        outcome == AhpCommandOutcome::Failed ==> b.bindings@.len() == a.bindings@.len() && if (
        a.bindings@[i].binding_id@ == row.binding_id@ && a.bindings@[i].state
            == BindingState::Detaching) {
            b.bindings@[i].state == BindingState::Failed
        } else {
            b.bindings@[i] == a.bindings@[i]
        },
{
    let m = lemma_ack_commands(a, b, row, instance, outcome, error, result, now);
    assert(b.bindings == m.1.bindings);
    if outcome != AhpCommandOutcome::Failed {
        let stays = crate::commands::stays(row.binding_id@);
        let x = choose|x: Database| #[trigger]
            crate::commands::binding_removed(m.0, x, row.binding_id@)
                && crate::bindings::replaced(x, m.1, now);
        assert(b.bindings == x.bindings);
        assert forall|k: int| 0 <= k < b.bindings@.len() implies (
        #[trigger] b.bindings@[k]).binding_id@ != row.binding_id@ || b.bindings@[k].state
            != BindingState::Detaching by {
            a.bindings@.lemma_filter_pred(stays, k);
        }
        if a.bindings@[i].binding_id@ != row.binding_id@ || a.bindings@[i].state
            != BindingState::Detaching {
            crate::tables::lemma_filter_keeps(a.bindings@, stays, i);
        }
    }
}

// ---------------------------------------------------------------------------
// Coming to be tracked, and being let go

/// A session that is available and not tracked comes to be tracked where fewer than
/// five are: on the host that the catalogue knows, in a generation that is new. The
/// adapter is asked to bind it, and no other tracked session changes.
pub proof fn sessions_come_to_be_tracked(
    a: Database,
    b: Database,
    endpoint: Seq<char>,
    uri: Seq<char>,
    id: Seq<char>,
    now: i64,
    r: Result<AhpBindingRecord, Failure>,
    focus: bool,
    c: int,
)
    requires
        a.wf(),
        b.wf(),
        if focus {
            focus_outcome(a, b, endpoint, uri, id, now, r)
        } else {
            track_outcome(a, b, endpoint, uri, id, now, r)
        },
        0 <= c < a.catalog@.len(),
        a.catalog@[c].session_uri@ == uri,
        a.catalog@[c].endpoint_id@ == endpoint,
        a.catalog@[c].available,
        how_many_tracked(a) < 5,
        forall|j: int|
            0 <= j < a.bindings@.len() ==> (#[trigger] a.bindings@[j]).session_uri@ != uri
                && a.bindings@[j].binding_id@ != id,
        forall|k: int, g: int|
            0 <= k < a.commands@.len() ==> (#[trigger] a.commands@[k]).command_key@ != "bind:"@ + id
                + ":"@ + #[trigger] integer(g),
    ensures
        r is Ok,
        b.bindings@.len() == a.bindings@.len() + 1,
        b.bindings@.take(a.bindings@.len() as int) == a.bindings@,
        b.bindings@.last().binding_id@ == id,
        b.bindings@.last().session_uri@ == uri,
        b.bindings@.last().endpoint_id@ == endpoint,
        opt_view(b.bindings@.last().host_instance_id) == Some(a.catalog@[c].host_instance_id@),
        b.bindings@.last().state == BindingState::Binding,
        b.bindings@.last().last_activity_at == now,
        forall|j: int|
            0 <= j < a.bindings@.len() ==> (#[trigger] a.bindings@[j]).generation
                < b.bindings@.last().generation,
        b.commands@.len() == a.commands@.len() + 1,
        queued_for(b.commands@.last(), b.bindings@.last(), AhpCommandKind::BindSession, now),
        tells_text(b.commands@.last().data@, "endpoint_id"@, endpoint),
        tells_text(
            b.commands@.last().data@,
            "host_instance_id"@,
            a.catalog@[c].host_instance_id@,
        ),
        tells_text(b.commands@.last().data@, "session_uri"@, uri),
        r->Ok_0.binding_id@ == id,
        r->Ok_0.session_uri@ == uri,
        focus || a.foreground is None ==> b.foreground is Some && b.foreground->0.binding_id@ == id,
        !focus && a.foreground is Some ==> b.foreground == a.foreground,
{
    let max = MAX_TRACKED_AHP_SESSIONS as nat;
    lemma_how_many(a);
    let p = crate::bindings::at_uri(uri);
    assert forall|k: int| 0 <= k < a.catalog@.len() && p(#[trigger] a.catalog@[k]) implies k
        == c by {
        if k < c {
            assert(a.catalog@[k].session_uri@ != a.catalog@[c].session_uri@);
        } else if c < k {
            assert(a.catalog@[c].session_uri@ != a.catalog@[k].session_uri@);
        }
    }
    lemma_only(a.catalog@, p, c);
    lemma_first_none(a.bindings@, crate::bindings::with_session(uri));
    lemma_first_none(a.bindings@, crate::bindings::with_binding_id(id));
    assert(ensure_fault(a, endpoint, uri, max, id) is None);
    assert(r is Ok);
    let m = if focus {
        choose|m: Database|
            {
                &&& #[trigger] ensured(a, m, endpoint, uri, max, true, id, now)
                &&& b == (Database { foreground: b.foreground, ..m })
                &&& focused_on(b, uri, now)
            }
    } else {
        choose|m: Database|
            {
                &&& #[trigger] ensured(a, m, endpoint, uri, max, false, id, now)
                &&& tracked_from(a, m, b, uri, now)
                &&& crate::bindings::shows(m, m.binding_of(uri)->0, r->Ok_0)
            }
    };
    let host = a.catalog@[c].host_instance_id@;
    let x = choose|x: Database| #[trigger]
        crate::bindings::room_made(a, x, max, now) && crate::bindings::newly_bound(
            x,
            m,
            id,
            endpoint,
            host,
            uri,
            now,
        );
    assert(x == a);
    let (q, g, command) = choose|q: Database, g: i64, command: i64|
        {
            &&& crate::bindings::is_next_generation(a.bindings@, g)
            &&& q == (Database { bindings: q.bindings, ..a })
            &&& q.bindings@ == a.bindings@.push(q.bindings@.last())
            &&& crate::bindings::is_new_binding(
                q.bindings@.last(),
                id,
                g,
                endpoint,
                host,
                uri,
                now,
            )
            &&& #[trigger] enqueued(
                q,
                m,
                crate::bindings::bind_key(id, g),
                id,
                g,
                AhpCommandKind::BindSession,
                crate::bindings::bind_data(endpoint, host, uri),
                now,
                command,
            )
        };
    assert forall|k: int| 0 <= k < a.commands@.len() implies (
    #[trigger] a.commands@[k]).command_key@ != crate::bindings::bind_key(id, g) by {
        assert(a.commands@[k].command_key@ != "bind:"@ + id + ":"@ + integer(g as int));
    }
    lemma_no_command(q, crate::bindings::bind_key(id, g));
    assert(b.bindings == q.bindings);
    assert(b.commands == m.commands);
    assert(b.bindings@.take(a.bindings@.len() as int) =~= a.bindings@);
    reveal_strlit("endpoint_id");
    reveal_strlit("host_instance_id");
    reveal_strlit("session_uri");
    assert("endpoint_id"@.len() != "host_instance_id"@.len());
    assert("endpoint_id"@[0] != "session_uri"@[0]);
    assert("host_instance_id"@.len() != "session_uri"@.len());
    let ms = crate::bindings::bind_data(endpoint, host, uri)->Object_0;
    kept_data_tell_their_members(ms, 0);
    kept_data_tell_their_members(ms, 1);
    kept_data_tell_their_members(ms, 2);
    lemma_binding_of(b, uri, b.bindings@.len() - 1);
    assert(m.bindings == b.bindings);
}

/// A session that the catalogue does not hold as available on that host cannot be
/// tracked, nor can one that is about to be let go; nothing changes.
pub proof fn missing_sessions_are_not_tracked(
    a: Database,
    b: Database,
    endpoint: Seq<char>,
    uri: Seq<char>,
    id: Seq<char>,
    now: i64,
    r: Result<AhpBindingRecord, Failure>,
)
    requires
        focus_outcome(a, b, endpoint, uri, id, now, r) || track_outcome(
            a,
            b,
            endpoint,
            uri,
            id,
            now,
            r,
        ),
        (forall|c: int|
            0 <= c < a.catalog@.len() ==> (#[trigger] a.catalog@[c]).session_uri@ != uri
                || a.catalog@[c].endpoint_id@ != endpoint || !a.catalog@[c].available) || (a.wf()
            && exists|j: int|
            0 <= j < a.bindings@.len() && (#[trigger] a.bindings@[j]).session_uri@ == uri
                && a.bindings@[j].state == BindingState::Detaching),
    ensures
        r is Err,
        b == a,
{
    lemma_first_holds(a.catalog@, crate::bindings::at_uri(uri));
    if a.wf() && exists|j: int|
        0 <= j < a.bindings@.len() && (#[trigger] a.bindings@[j]).session_uri@ == uri
            && a.bindings@[j].state == BindingState::Detaching {
        let j = choose|j: int|
            0 <= j < a.bindings@.len() && (#[trigger] a.bindings@[j]).session_uri@ == uri
                && a.bindings@[j].state == BindingState::Detaching;
        lemma_binding_of(a, uri, j);
    }
}

/// Bringing a session to the foreground that is tracked on its host already leaves it
/// bound as it is: it is in the foreground and was used just now, and no command is
/// queued.
pub proof fn tracked_sessions_come_to_the_foreground(
    a: Database,
    b: Database,
    endpoint: Seq<char>,
    uri: Seq<char>,
    id: Seq<char>,
    now: i64,
    r: Result<AhpBindingRecord, Failure>,
    c: int,
    j: int,
)
    requires
        a.wf(),
        focus_outcome(a, b, endpoint, uri, id, now, r),
        0 <= c < a.catalog@.len(),
        a.catalog@[c].session_uri@ == uri,
        a.catalog@[c].endpoint_id@ == endpoint,
        a.catalog@[c].available,
        0 <= j < a.bindings@.len(),
        a.bindings@[j].session_uri@ == uri,
        a.bindings@[j].endpoint_id@ == endpoint,
        opt_view(a.bindings@[j].host_instance_id) == Some(a.catalog@[c].host_instance_id@),
        a.bindings@[j].state == BindingState::Bound || a.bindings@[j].state
            == BindingState::Binding,
        a.bindings@[j].queued_message_count <= u32::MAX,
    ensures
        r is Ok,
        b.commands == a.commands,
        b.bindings@.len() == a.bindings@.len(),
        b.bindings@[j] == (BindingRow { last_activity_at: now, updated_at: now, ..a.bindings@[j] }),
        forall|k: int|
            0 <= k < a.bindings@.len() && k != j ==> #[trigger] b.bindings@[k] == a.bindings@[k],
        b.foreground is Some,
        b.foreground->0.binding_id@ == a.bindings@[j].binding_id@,
{
    let p = crate::bindings::at_uri(uri);
    assert forall|k: int| 0 <= k < a.catalog@.len() && p(#[trigger] a.catalog@[k]) implies k
        == c by {
        if k < c {
            assert(a.catalog@[k].session_uri@ != a.catalog@[c].session_uri@);
        } else if c < k {
            assert(a.catalog@[c].session_uri@ != a.catalog@[k].session_uri@);
        }
    }
    lemma_only(a.catalog@, p, c);
    lemma_binding_of(a, uri, j);
    lemma_others_untouched(a, a, j);
    let max = MAX_TRACKED_AHP_SESSIONS as nat;
    assert(ensure_fault(a, endpoint, uri, max, id) is None);
    let m = choose|m: Database|
        {
            &&& #[trigger] ensured(a, m, endpoint, uri, max, true, id, now)
            &&& b == (Database { foreground: b.foreground, ..m })
            &&& focused_on(b, uri, now)
        };
    assert(crate::bindings::touched(a, m, a.bindings@[j].binding_id@, now));
    lemma_first_holds(b.bindings@, crate::bindings::with_session(uri));
    let found = b.binding_of(uri)->0;
    let k = choose|k: int| 0 <= k < b.bindings@.len() && #[trigger] b.bindings@[k] == found;
    assert(a.bindings@[k].session_uri@ == uri);
    assert(k == j) by {
        if k < j {
            assert(a.bindings@[k].session_uri@ != a.bindings@[j].session_uri@);
        } else if j < k {
            assert(a.bindings@[j].session_uri@ != a.bindings@[k].session_uri@);
        }
    }
}

/// A session whose host has changed, or that was lost or had failed, is bound anew when
/// it is brought to the foreground: in a generation that is new, to the host that the
/// catalogue knows. What was under way for it has failed.
pub proof fn lost_sessions_are_bound_anew(
    a: Database,
    b: Database,
    endpoint: Seq<char>,
    uri: Seq<char>,
    id: Seq<char>,
    now: i64,
    r: Result<AhpBindingRecord, Failure>,
    c: int,
    j: int,
)
    requires
        a.wf(),
        focus_outcome(a, b, endpoint, uri, id, now, r),
        0 <= c < a.catalog@.len(),
        a.catalog@[c].session_uri@ == uri,
        a.catalog@[c].endpoint_id@ == endpoint,
        a.catalog@[c].available,
        0 <= j < a.bindings@.len(),
        a.bindings@[j].session_uri@ == uri,
        a.bindings@[j].endpoint_id@ != endpoint || opt_view(a.bindings@[j].host_instance_id)
            != Some(a.catalog@[c].host_instance_id@) || a.bindings@[j].state == BindingState::Lost
            || a.bindings@[j].state == BindingState::Failed,
        a.bindings@[j].state != BindingState::Detaching,
        a.bindings@[j].queued_message_count <= u32::MAX,
    ensures
        r is Ok,
        b.bindings@.len() == a.bindings@.len(),
        b.bindings@[j].state == BindingState::Binding,
        b.bindings@[j].binding_id == a.bindings@[j].binding_id,
        b.bindings@[j].session_uri == a.bindings@[j].session_uri,
        b.bindings@[j].endpoint_id@ == endpoint,
        opt_view(b.bindings@[j].host_instance_id) == Some(a.catalog@[c].host_instance_id@),
        b.bindings@[j].chat_uri is None,
        b.bindings@[j].active_turn_id is None,
        b.bindings@[j].queued_message_count == 0,
        forall|k: int|
            0 <= k < a.bindings@.len() ==> (#[trigger] a.bindings@[k]).generation
                < b.bindings@[j].generation,
        forall|k: int|
            0 <= k < a.commands@.len() && a.commands@[k].binding_id@ == a.bindings@[j].binding_id@
                && (a.commands@[k].state == CommandState::Pending || a.commands@[k].state
                == CommandState::Leased) ==> (#[trigger] b.commands@[k]).state
                == CommandState::Failed,
        b.foreground is Some,
        b.foreground->0.binding_id@ == a.bindings@[j].binding_id@,
{
    let p = crate::bindings::at_uri(uri);
    assert forall|k: int| 0 <= k < a.catalog@.len() && p(#[trigger] a.catalog@[k]) implies k
        == c by {
        if k < c {
            assert(a.catalog@[k].session_uri@ != a.catalog@[c].session_uri@);
        } else if c < k {
            assert(a.catalog@[c].session_uri@ != a.catalog@[k].session_uri@);
        }
    }
    lemma_only(a.catalog@, p, c);
    lemma_binding_of(a, uri, j);
    lemma_others_untouched(a, a, j);
    let max = MAX_TRACKED_AHP_SESSIONS as nat;
    let row = a.bindings@[j];
    let host = a.catalog@[c].host_instance_id@;
    assert(ensure_fault(a, endpoint, uri, max, id) is None);
    let m = choose|m: Database|
        {
            &&& #[trigger] ensured(a, m, endpoint, uri, max, true, id, now)
            &&& b == (Database { foreground: b.foreground, ..m })
            &&& focused_on(b, uri, now)
        };
    assert(crate::bindings::rebound(a, m, row, endpoint, host, now));
    let (q, g, command) = choose|q: Database, g: i64, command: i64|
        {
            &&& crate::bindings::is_next_generation(a.bindings@, g)
            &&& q == (Database { bindings: q.bindings, commands: q.commands, ..a })
            &&& crate::bindings::commands_failed(
                a.commands@,
                q.commands@,
                row.binding_id@,
                "binding_replaced"@,
                now,
            )
            &&& crate::tables::changed(
                a.bindings@,
                q.bindings@,
                |p: BindingRow, q: BindingRow|
                    if p.binding_id@ == row.binding_id@ {
                        q == (BindingRow {
                            generation: g,
                            endpoint_id: q.endpoint_id,
                            host_instance_id: q.host_instance_id,
                            chat_uri: None,
                            state: BindingState::Binding,
                            last_server_sequence: 0,
                            active_turn_id: None,
                            queued_message_count: 0,
                            error_code: None,
                            last_activity_at: now,
                            updated_at: now,
                            ..p
                        }) && q.endpoint_id@ == endpoint && opt_view(q.host_instance_id) == Some(
                            host,
                        )
                    } else {
                        q == p
                    },
            )
            &&& #[trigger] enqueued(
                q,
                m,
                crate::bindings::bind_key(row.binding_id@, g),
                row.binding_id@,
                g,
                AhpCommandKind::BindSession,
                crate::bindings::bind_data(endpoint, host, row.session_uri@),
                now,
                command,
            )
        };
    assert(b.bindings == q.bindings);
    assert forall|k: int|
        0 <= k < a.commands@.len() && a.commands@[k].binding_id@ == row.binding_id@ && (
        a.commands@[k].state == CommandState::Pending || a.commands@[k].state
            == CommandState::Leased) implies (#[trigger] b.commands@[k]).state
        == CommandState::Failed by {
        assert(q.commands@[k].state == CommandState::Failed);
        assert(b.commands@[k] == q.commands@[k]);
    }
    lemma_first_holds(b.bindings@, crate::bindings::with_session(uri));
    let found = b.binding_of(uri)->0;
    let k = choose|k: int| 0 <= k < b.bindings@.len() && #[trigger] b.bindings@[k] == found;
    assert(a.bindings@[k].session_uri@ == uri);
    assert(k == j) by {
        if k < j {
            assert(a.bindings@[k].session_uri@ != a.bindings@[j].session_uri@);
        } else if j < k {
            assert(a.bindings@[j].session_uri@ != a.bindings@[k].session_uri@);
        }
    }
}

/// A tracked session is let go on request exactly where nothing is under way for it:
/// no turn is running, no message is queued, no command, approval or input is open.
/// Then the adapter is asked to let it go, and it is in the foreground no longer.
pub proof fn idle_sessions_can_be_let_go(
    a: Database,
    b: Database,
    reason: Seq<char>,
    now: i64,
    r: Result<bool, Failure>,
    j: int,
)
    requires
        a.wf(),
        0 <= j < a.bindings@.len(),
        a.bindings@[j].state != BindingState::Detaching,
        0 <= a.bindings@[j].queued_message_count <= u32::MAX,
        detach_outcome(a, b, Some(a.bindings@[j]), reason, now, r),
        forall|k: int|
            0 <= k < a.commands@.len() ==> (#[trigger] a.commands@[k]).command_key@ != "unbind:"@
                + a.bindings@[j].binding_id@ + ":"@ + integer(a.bindings@[j].generation as int),
    ensures
        r is Ok <==> {
            let row = a.bindings@[j];
            &&& row.active_turn_id is None
            &&& row.queued_message_count == 0
            &&& forall|k: int|
                0 <= k < a.commands@.len() && (#[trigger] a.commands@[k]).binding_id@
                    == row.binding_id@ ==> a.commands@[k].state != CommandState::Pending
                    && a.commands@[k].state != CommandState::Leased
            &&& forall|k: int|
                0 <= k < a.decisions@.len() && (#[trigger] a.decisions@[k]).session_uri@
                    == row.session_uri@ ==> a.decisions@[k].state != DecisionState::Pending
                    && a.decisions@[k].state != DecisionState::Submitted
            &&& forall|k: int|
                0 <= k < a.inputs@.len() && (#[trigger] a.inputs@[k]).session_uri@
                    == row.session_uri@ ==> a.inputs@[k].state != InputState::Pending
                    && a.inputs@[k].state != InputState::Submitted
        },
        r is Err ==> b == a,
        r is Ok ==> {
            &&& r->Ok_0
            &&& b.bindings@.len() == a.bindings@.len()
            &&& b.bindings@[j].state == BindingState::Detaching
            &&& opt_view(b.bindings@[j].error_code) == Some(reason)
            &&& forall|k: int|
                0 <= k < a.bindings@.len() && k != j ==> #[trigger] b.bindings@[k] == a.bindings@[k]
            &&& b.commands@.len() == a.commands@.len() + 1
            &&& queued_for(
                b.commands@.last(),
                a.bindings@[j],
                AhpCommandKind::UnbindSession,
                now,
            )
            &&& tells_text(
                b.commands@.last().data@,
                "session_uri"@,
                a.bindings@[j].session_uri@,
            )
            &&& b.foreground is Some ==> b.foreground->0.binding_id@
                != a.bindings@[j].binding_id@
        },
{
    let row = a.bindings@[j];
    lemma_others_untouched(a, a, j);
    if r is Ok {
        let m = choose|m: Database|
            {
                &&& let_go(a, m, row, reason, now)
                &&& #[trigger] crate::bindings::replaced(m, b, now)
            };
        lemma_let_go(a, m, row, reason, now);
        assert(b.bindings == m.bindings && b.commands == m.commands);
        assert(m.bindings@[j].state == BindingState::Detaching);
        if m.foreground is None && b.foreground is Some {
            let i = choose|i: int|
                {
                    &&& 0 <= i < m.bindings@.len()
                    &&& crate::store::is_tracked(#[trigger] m.bindings@[i])
                    &&& b.foreground->0.binding_id == m.bindings@[i].binding_id
                };
            assert(i != j);
            assert(m.bindings@[i] == a.bindings@[i]);
        }
    }
}

/// When the session in the foreground is let go, the next one in the foreground is one
/// with a running turn where there is one, and of these, or of all where there is none,
/// the one used last. There is none only where no session is tracked.
pub proof fn the_foreground_passes_on(
    a: Database,
    b: Database,
    reason: Seq<char>,
    now: i64,
    j: int,
    k: int,
)
    requires
        a.wf(),
        0 <= j < a.bindings@.len(),
        a.bindings@[j].state != BindingState::Detaching,
        a.foreground is Some,
        a.foreground->0.binding_id@ == a.bindings@[j].binding_id@,
        detach_outcome(a, b, Some(a.bindings@[j]), reason, now, Ok(true)),
        0 <= k < a.bindings@.len(),
        k != j,
        a.bindings@[k].state != BindingState::Detaching,
    ensures
        exists|i: int|
            {
                &&& 0 <= i < a.bindings@.len()
                &&& i != j
                &&& (#[trigger] a.bindings@[i]).state != BindingState::Detaching
                &&& b.foreground is Some
                &&& b.foreground->0.binding_id == a.bindings@[i].binding_id
                &&& a.bindings@[k].active_turn_id is Some ==> a.bindings@[i].active_turn_id is Some
                &&& a.bindings@[k].active_turn_id is Some == a.bindings@[i].active_turn_id is Some
                    ==> a.bindings@[k].last_activity_at <= a.bindings@[i].last_activity_at
            },
{
    let row = a.bindings@[j];
    lemma_others_untouched(a, a, j);
    let m = choose|m: Database|
        {
            &&& let_go(a, m, row, reason, now)
            &&& #[trigger] crate::bindings::replaced(m, b, now)
        };
    assert(m.foreground is None);
    assert(m.bindings@[k] == a.bindings@[k]);
    assert(crate::store::is_tracked(m.bindings@[k]));
    let i = choose|i: int|
        {
            &&& 0 <= i < m.bindings@.len()
            &&& crate::store::is_tracked(#[trigger] m.bindings@[i])
            &&& forall|x: int|
                0 <= x < m.bindings@.len() && crate::store::is_tracked(#[trigger] m.bindings@[x])
                    ==> !crate::tables::precedes(
                    crate::bindings::foreground_by()(m.bindings@[x]),
                    crate::bindings::foreground_by()(m.bindings@[i]),
                    false,
                )
            &&& b.foreground is Some
            &&& b.foreground->0.binding_id == m.bindings@[i].binding_id
        };
    assert(i != j) by {
        assert(m.bindings@[j].state == BindingState::Detaching);
    }
    assert(m.bindings@[i] == a.bindings@[i]);
}

} // verus!
