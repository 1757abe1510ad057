//! What the owner's word and the agents' requests bring about, told by what stands in
//! the tables before and after and by what is answered.
use vstd::prelude::*;
use vstd::string::*;

use crate::agents::{
    all_abandon_approval, all_close_approval, all_drop_approval, all_finish_session,
    all_forget_answer, all_halt_session, all_hear_cancel, all_lapse_question, all_pause_session,
    all_refuse_approval, all_resume_session, approvals_denied, ask_outcome, bind_outcome,
    code_outcome, decide_outcome, is_latest_for, question_outcome, questions_cancelled,
    register_outcome, reply_outcome, resolved, running_code, stop_outcome, with_session_id,
    ApprovalDecision, BeginApproval, BindOutcome, NewApproval, NewQuestion, QuestionRecord,
    SessionRecord,
};
use crate::commands::{enqueued, AhpCommandStatusRecord};
use crate::config::Failure;
use crate::json::Tree;
use crate::messages::{
    begin_outcome, finish_outcome, inbound_outcome, queue_outcome, take_outcome, tells_snapshot,
    with_message, BeginDelivery, NewDelivery, StatusSnapshot,
};
use crate::protocol::{AhpCommandKind, ApprovalState, StopDecision, StopResult};
use crate::security::text_hash;
use crate::store::{
    ApprovalRow, AuditRow, CommandRow, CommandState, Database, DeliveryStatus, InboundRow,
    QuestionRow, QuestionState, SentRow, SessionRow, SessionState,
};
use crate::tables::{first, lemma_first, lemma_first_holds, lemma_first_none};
use crate::text::{lower, opt_view, trim, upper};

verus! {

broadcast use vstd::string::group_string_axioms;

/// The one row that the condition holds of is the first one.
proof fn lemma_only<T>(rows: Seq<T>, p: spec_fn(T) -> bool, i: int)
    requires
        0 <= i < rows.len(),
        p(rows[i]),
        forall|j: int| 0 <= j < rows.len() && p(#[trigger] rows[j]) ==> j == i,
    ensures
        first(rows, p) == Some(rows[i]),
{
    assert forall|j: int| 0 <= j < i implies !p(#[trigger] rows[j]) by {}
    lemma_first(rows, p, i);
}

// ---------------------------------------------------------------------------
// The owner

/// Who shows the latest code while it is good becomes the owner, and can speak at once;
/// the code is used up.
pub proof fn the_latest_code_makes_the_owner(
    a: Database,
    b: Database,
    user: Seq<char>,
    code: Seq<char>,
    message: Seq<char>,
    now: i64,
    r: BindOutcome,
    i: int,
)
    requires
        a.wf(),
        a.owner is None,
        0 <= i < a.binding_codes@.len(),
        a.binding_codes@[i].consumed_at is None,
        a.binding_codes@[i].expires_at > now,
        a.binding_codes@[i].code_hash@ == text_hash(upper(trim(code))),
        forall|j: int|
            0 <= j < a.binding_codes@.len() && j != i && (
            #[trigger] a.binding_codes@[j]).consumed_at is None && a.binding_codes@[j].expires_at
                > now ==> a.binding_codes@[j].created_at < a.binding_codes@[i].created_at,
        bind_outcome(a, b, user, code, message, now, r),
    ensures
        r == BindOutcome::Bound,
        b.owner is Some,
        b.owner->0.user_openid@ == user,
        b.owner->0.enabled,
        b.binding_codes@.len() == a.binding_codes@.len(),
        b.binding_codes@[i].consumed_at is Some,
{
    assert(crate::agents::is_usable(a.binding_codes@[i], now));
    if r == BindOutcome::InvalidOrExpired {
        let k = choose|k: int| #[trigger]
            crate::agents::is_latest_code(a.binding_codes@, k, now) && a.binding_codes@[k].code_hash@
                != text_hash(upper(trim(code)));
        assert(k == i);
    }
    if r == BindOutcome::Bound {
        let k = choose|k: int| #[trigger]
            crate::agents::is_latest_code(a.binding_codes@, k, now) && a.binding_codes@[k].code_hash@
                == text_hash(upper(trim(code))) && crate::agents::owner_bound(
                a,
                b,
                user,
                k,
                message,
                now,
            );
        assert(k == i) by {
            if k != i {
                assert(crate::agents::is_usable(a.binding_codes@[k], now));
            }
        }
    }
}

/// Nobody becomes the owner without a code that is good: one that was offered, is not
/// used up and has not expired.
pub proof fn nobody_becomes_the_owner_without_a_code(
    a: Database,
    b: Database,
    user: Seq<char>,
    code: Seq<char>,
    message: Seq<char>,
    now: i64,
    r: BindOutcome,
)
    requires
        bind_outcome(a, b, user, code, message, now, r),
        forall|j: int|
            0 <= j < a.binding_codes@.len() ==> (#[trigger] a.binding_codes@[j]).code_hash@
                != text_hash(upper(trim(code))) || a.binding_codes@[j].consumed_at is Some
                || a.binding_codes@[j].expires_at <= now,
    ensures
        r != BindOutcome::Bound,
        b == a,
{
    if r == BindOutcome::Bound {
        let k = choose|k: int| #[trigger]
            crate::agents::is_latest_code(a.binding_codes@, k, now) && a.binding_codes@[k].code_hash@
                == text_hash(upper(trim(code))) && crate::agents::owner_bound(
                a,
                b,
                user,
                k,
                message,
                now,
            );
        assert(crate::agents::is_usable(a.binding_codes@[k], now));
    }
}

/// A code that was offered is good for as long as was said, and no longer; it can be
/// used while no later one is offered.
pub proof fn offered_codes_are_good_for_a_time(
    a: Database,
    b: Database,
    c: Database,
    code: Seq<char>,
    ttl: u64,
    now: i64,
    user: Seq<char>,
    shown: Seq<char>,
    message: Seq<char>,
    later: i64,
    r: BindOutcome,
)
    requires
        a.wf(),
        b.wf(),
        code_outcome(a, b, code, ttl, now, Ok(())),
        forall|j: int|
            0 <= j < a.binding_codes@.len() ==> (#[trigger] a.binding_codes@[j]).created_at < now
                && a.binding_codes@[j].code_hash@ != text_hash(code),
        upper(trim(shown)) == code,
        now <= later,
        bind_outcome(b, c, user, shown, message, later, r),
    ensures
        later < now + ttl ==> r == BindOutcome::Bound && c.owner is Some
            && c.owner->0.user_openid@ == user,
        later >= now + ttl ==> r != BindOutcome::Bound && c == b,
{
    let usable = crate::agents::usable_code(now);
    let kept = a.binding_codes@.filter(usable);
    let i = b.binding_codes@.len() - 1;
    assert forall|j: int| 0 <= j < i implies (#[trigger] b.binding_codes@[j]).created_at < now
        && b.binding_codes@[j].code_hash@ != text_hash(code) by {
        assert(b.binding_codes@[j] == kept[j]);
        assert(kept.contains(kept[j]));
        a.binding_codes@.lemma_filter_contains_rev(usable, kept[j]);
    }
    if later < now + ttl {
        the_latest_code_makes_the_owner(b, c, user, shown, message, later, r, i);
    } else {
        nobody_becomes_the_owner_without_a_code(b, c, user, shown, message, later, r);
    }
}

/// Once there is an owner no code is offered, and nobody else becomes the owner.
pub proof fn there_is_one_owner(
    a: Database,
    b: Database,
    code: Seq<char>,
    ttl: u64,
    now: i64,
    r: Result<(), Failure>,
    c: Database,
    user: Seq<char>,
    message: Seq<char>,
    s: BindOutcome,
)
    requires
        a.owner is Some,
        code_outcome(a, b, code, ttl, now, r),
        bind_outcome(a, c, user, code, message, now, s),
    ensures
        r is Err,
        b == a,
        s == BindOutcome::AlreadyBound,
        c == a,
{
}

// ---------------------------------------------------------------------------
// Agent sessions

/// Whether the session is at work or waits.
pub open spec fn at_work(row: SessionRow) -> bool {
    row.state == SessionState::Active || row.state == SessionState::Waiting
}

proof fn lemma_session(a: Database, id: Seq<char>, i: int)
    requires
        a.wf(),
        0 <= i < a.sessions@.len(),
        a.sessions@[i].session_id@ == id,
    ensures
        first(a.sessions@, with_session_id(id)) == Some(a.sessions@[i]),
        forall|j: int|
            0 <= j < a.sessions@.len() && j != i ==> (#[trigger] a.sessions@[j]).session_id@ != id,
{
    let p = with_session_id(id);
    assert forall|j: int| 0 <= j < a.sessions@.len() && j != i implies (
    #[trigger] a.sessions@[j]).session_id@ != id by {
        if j < i {
            assert(a.sessions@[j].session_id@ != a.sessions@[i].session_id@);
        } else {
            assert(a.sessions@[i].session_id@ != a.sessions@[j].session_id@);
        }
    }
    lemma_only(a.sessions@, p, i);
}

/// A session that starts for the first time is added under a code that was drawn for it
/// and that no session has; nothing is known of it but that it is at work.
pub proof fn new_sessions_start_afresh(
    a: Database,
    b: Database,
    id: Seq<char>,
    workspace: Seq<char>,
    drawn: Seq<String>,
    now: i64,
    r: Result<SessionRecord, Failure>,
)
    requires
        register_outcome(a, b, id, workspace, drawn, now, r),
        forall|j: int| 0 <= j < a.sessions@.len() ==> (#[trigger] a.sessions@[j]).session_id@ != id,
    ensures
        r is Ok <==> exists|k: int|
            0 <= k < drawn.len() && forall|j: int|
                0 <= j < a.sessions@.len() ==> (#[trigger] a.sessions@[j]).short_code@ != (
                #[trigger] drawn[k])@,
        r is Err ==> b == a,
        r is Ok ==> {
            &&& b.sessions@.len() == a.sessions@.len() + 1
            &&& b.sessions@.take(a.sessions@.len() as int) == a.sessions@
            &&& b.sessions@.last().session_id@ == id
            &&& b.sessions@.last().workspace_hash@ == workspace
            &&& b.sessions@.last().state == SessionState::Active
            &&& !b.sessions@.last().final_sent
            &&& !b.sessions@.last().stop_blocked_once
            &&& !b.sessions@.last().cancel_requested
            &&& exists|k: int|
                0 <= k < drawn.len() && (#[trigger] drawn[k])@ == b.sessions@.last().short_code@
            &&& forall|j: int|
                0 <= j < a.sessions@.len() ==> (#[trigger] a.sessions@[j]).short_code@
                    != b.sessions@.last().short_code@
            &&& r->Ok_0.session_id@ == id
            &&& r->Ok_0.short_code@ == b.sessions@.last().short_code@
        },
{
    lemma_first_none(a.sessions@, with_session_id(id));
    let p = crate::agents::free_session_code(a.sessions@);
    lemma_first_holds(drawn, p);
    if r is Ok {
        let code = first(drawn, p)->0;
        let k = choose|k: int| 0 <= k < drawn.len() && #[trigger] drawn[k] == code;
        assert(drawn[k]@ == b.sessions@.last().short_code@);
        assert(b.sessions@.take(a.sessions@.len() as int) =~= a.sessions@);
    } else if exists|k: int|
        0 <= k < drawn.len() && forall|j: int|
            0 <= j < a.sessions@.len() ==> (#[trigger] a.sessions@[j]).short_code@ != (
            #[trigger] drawn[k])@ {
        let k = choose|k: int|
            0 <= k < drawn.len() && forall|j: int|
                0 <= j < a.sessions@.len() ==> (#[trigger] a.sessions@[j]).short_code@ != (
                #[trigger] drawn[k])@;
        assert(p(drawn[k]));
    }
}

/// A session that starts again keeps its code, and what was known of its end is
/// forgotten; other sessions stay as they are.
pub proof fn known_sessions_start_again(
    a: Database,
    b: Database,
    id: Seq<char>,
    workspace: Seq<char>,
    drawn: Seq<String>,
    now: i64,
    r: Result<SessionRecord, Failure>,
    i: int,
)
    requires
        a.wf(),
        register_outcome(a, b, id, workspace, drawn, now, r),
        0 <= i < a.sessions@.len(),
        a.sessions@[i].session_id@ == id,
    ensures
        r is Ok,
        b.sessions@.len() == a.sessions@.len(),
        b.sessions@[i].session_id == a.sessions@[i].session_id,
        b.sessions@[i].short_code == a.sessions@[i].short_code,
        b.sessions@[i].workspace_hash@ == workspace,
        b.sessions@[i].state == SessionState::Active,
        !b.sessions@[i].final_sent,
        !b.sessions@[i].stop_blocked_once,
        !b.sessions@[i].cancel_requested,
        forall|j: int|
            0 <= j < a.sessions@.len() && j != i ==> #[trigger] b.sessions@[j] == a.sessions@[j],
{
    lemma_session(a, id, i);
}

/// A session is found by its identifier while it is at work, and where a label is given
/// beside it, the two have to agree.
pub proof fn sessions_are_found_by_identifier(
    db: Database,
    id: &str,
    label: Option<&str>,
    r: Result<SessionRecord, Failure>,
    i: int,
)
    requires
        db.wf(),
        resolved(db, Some(id), label, r),
        trim(id@).len() > 0,
        0 <= i < db.sessions@.len(),
        db.sessions@[i].session_id@ == id@,
    ensures
        r is Ok <==> at_work(db.sessions@[i]) && (label is None || trim(label->0@).len() == 0
            || lower(label->0@) == lower(db.sessions@[i].short_code@)),
        r is Ok ==> r->Ok_0.session_id == db.sessions@[i].session_id && r->Ok_0.short_code
            == db.sessions@[i].short_code,
{
    lemma_session(db, id@, i);
}

/// Without an identifier a session is found by its code, whatever the case of its
/// letters, while it is at work.
pub proof fn sessions_are_found_by_label(
    db: Database,
    label: &str,
    r: Result<SessionRecord, Failure>,
)
    requires
        resolved(db, None, Some(label), r),
        trim(label@).len() > 0,
    ensures
        r is Ok <==> exists|i: int|
            0 <= i < db.sessions@.len() && (#[trigger] db.sessions@[i]).short_code@ == upper(label@)
                && at_work(db.sessions@[i]),
        r is Ok ==> r->Ok_0.short_code@ == upper(label@),
{
    let p = running_code(upper(label@));
    lemma_first_holds(db.sessions@, p);
    if r is Ok {
        let row = first(db.sessions@, p)->0;
        let i = choose|i: int| 0 <= i < db.sessions@.len() && #[trigger] db.sessions@[i] == row;
        assert(db.sessions@[i].short_code@ == upper(label@) && at_work(db.sessions@[i]));
    } else if exists|i: int|
        0 <= i < db.sessions@.len() && (#[trigger] db.sessions@[i]).short_code@ == upper(label@)
            && at_work(db.sessions@[i]) {
        let i = choose|i: int|
            0 <= i < db.sessions@.len() && (#[trigger] db.sessions@[i]).short_code@ == upper(label@)
                && at_work(db.sessions@[i]);
        assert(p(db.sessions@[i]));
    }
}

/// Without an identifier and a label the session is the one that is at work, where it
/// is the only one.
pub proof fn the_only_session_is_found(db: Database, r: Result<SessionRecord, Failure>, i: int)
    requires
        resolved(db, None, None, r),
        0 <= i < db.sessions@.len(),
        at_work(db.sessions@[i]),
    ensures
        r is Ok ==> r->Ok_0.session_id == db.sessions@[i].session_id,
        (forall|j: int|
            0 <= j < db.sessions@.len() && at_work(#[trigger] db.sessions@[j]) ==> j == i) ==> r is Ok,
{
    let p = crate::agents::running();
    lemma_count_one(db.sessions@, p, i);
    if r is Ok {
        lemma_first_holds(db.sessions@, p);
        let row = first(db.sessions@, p)->0;
        let k = choose|k: int| 0 <= k < db.sessions@.len() && #[trigger] db.sessions@[k] == row;
        if k != i {
            lemma_count_two(db.sessions@, p, k, i);
        }
    }
}

proof fn lemma_count_one<T>(rows: Seq<T>, p: spec_fn(T) -> bool, i: int)
    requires
        0 <= i < rows.len(),
        p(rows[i]),
    ensures
        rows.filter(p).len() >= 1,
        (forall|j: int| 0 <= j < rows.len() && p(#[trigger] rows[j]) ==> j == i) ==> rows.filter(
            p,
        ).len() == 1,
    decreases rows.len(),
{
    reveal(Seq::filter);
    let init = rows.drop_last();
    if i < rows.len() - 1 {
        lemma_count_one(init, p, i);
        if forall|j: int| 0 <= j < rows.len() && p(#[trigger] rows[j]) ==> j == i {
            assert forall|j: int| 0 <= j < init.len() && p(#[trigger] init[j]) implies j == i by {
                assert(p(rows[j]));
            }
            assert(!p(rows[rows.len() - 1]));
        }
    } else {
        if forall|j: int| 0 <= j < rows.len() && p(#[trigger] rows[j]) ==> j == i {
            lemma_count_none(init, p);
        }
    }
}

proof fn lemma_count_none<T>(rows: Seq<T>, p: spec_fn(T) -> bool)
    ensures
        (forall|j: int| 0 <= j < rows.len() ==> !p(#[trigger] rows[j])) ==> rows.filter(p).len()
            == 0,
    decreases rows.len(),
{
    reveal(Seq::filter);
    if rows.len() > 0 {
        lemma_count_none(rows.drop_last(), p);
        if forall|j: int| 0 <= j < rows.len() ==> !p(#[trigger] rows[j]) {
            assert(!p(rows[rows.len() - 1]));
            assert forall|j: int| 0 <= j < rows.drop_last().len() implies !p(
                #[trigger] rows.drop_last()[j],
            ) by {
                assert(!p(rows[j]));
            }
        }
    }
}

proof fn lemma_count_two<T>(rows: Seq<T>, p: spec_fn(T) -> bool, i: int, j: int)
    requires
        0 <= i < rows.len(),
        0 <= j < rows.len(),
        i != j,
        p(rows[i]),
        p(rows[j]),
    ensures
        rows.filter(p).len() >= 2,
    decreases rows.len(),
{
    reveal(Seq::filter);
    let init = rows.drop_last();
    let last = rows.len() - 1;
    if i < last && j < last {
        lemma_count_two(init, p, i, j);
    } else if i == last {
        lemma_count_one(init, p, j);
    } else {
        lemma_count_one(init, p, i);
    }
}

// ---------------------------------------------------------------------------
// Approvals

/// An approval that a session at work asks for, and that was not asked for before, waits
/// for the owner's word as it was asked for, under a code that no approval has. It is
/// refused while another one of the session waits, and where the session is not at work.
pub proof fn approvals_are_asked_for(
    a: Database,
    b: Database,
    approval: NewApproval,
    drawn: Seq<String>,
    now: i64,
    r: Result<BeginApproval, Failure>,
    i: int,
)
    requires
        a.wf(),
        ask_outcome(a, b, approval, drawn, now, r),
        forall|j: int|
            0 <= j < a.approvals@.len() ==> (#[trigger] a.approvals@[j]).idempotency_key@
                != approval.idempotency_key@ && a.approvals@[j].approval_id != approval.approval_id,
        0 <= i < a.sessions@.len(),
        a.sessions@[i].session_id@ == approval.session_id@,
    ensures
        r is Ok <==> at_work(a.sessions@[i]) && (forall|j: int|
            0 <= j < a.approvals@.len() ==> (#[trigger] a.approvals@[j]).session_id@
                != approval.session_id@ || a.approvals@[j].state != ApprovalState::Pending
                || a.approvals@[j].expires_at <= now) && exists|k: int|
            0 <= k < drawn.len() && forall|j: int|
                0 <= j < a.approvals@.len() ==> (#[trigger] a.approvals@[j]).short_code@ != (
                #[trigger] drawn[k])@,
        r is Err ==> b == a,
        r is Ok ==> {
            let row = b.approvals@.last();
            &&& r->Ok_0.created
            &&& b.approvals@.len() == a.approvals@.len() + 1
            &&& row.approval_id == approval.approval_id
            &&& row.idempotency_key@ == approval.idempotency_key@
            &&& row.session_id@ == approval.session_id@
            &&& row.tool_use_id@ == approval.tool_use_id@
            &&& row.tool_name@ == approval.tool_name@
            &&& row.input_hash@ == approval.input_hash@
            &&& row.redacted_summary@ == approval.redacted_summary@
            &&& row.risk == approval.risk
            &&& row.state == ApprovalState::Pending
            &&& row.expires_at == approval.expires_at
            &&& row.decided_by_message_id is None
            &&& forall|j: int|
                0 <= j < a.approvals@.len() ==> (#[trigger] a.approvals@[j]).short_code@
                    != row.short_code@
            &&& r->Ok_0.record.short_code@ == row.short_code@
            &&& r->Ok_0.record.approval_id == approval.approval_id
        },
{
    lemma_first_none(
        a.approvals@,
        crate::agents::approval_keyed(approval.idempotency_key@),
    );
    lemma_first_none(a.approvals@, crate::agents::approval_numbered(approval.approval_id));
    lemma_session(a, approval.session_id@, i);
    let p = crate::agents::free_approval_code(a.approvals@);
    lemma_first_holds(drawn, p);
    let free = exists|k: int|
        0 <= k < drawn.len() && forall|j: int|
            0 <= j < a.approvals@.len() ==> (#[trigger] a.approvals@[j]).short_code@ != (
            #[trigger] drawn[k])@;
    if first(drawn, p) is Some {
        let code = first(drawn, p)->0;
        let k = choose|k: int| 0 <= k < drawn.len() && #[trigger] drawn[k] == code;
        assert(forall|j: int|
            0 <= j < a.approvals@.len() ==> (#[trigger] a.approvals@[j]).short_code@ != drawn[k]@);
        assert(free);
    } else if free {
        let k = choose|k: int|
            0 <= k < drawn.len() && forall|j: int|
                0 <= j < a.approvals@.len() ==> (#[trigger] a.approvals@[j]).short_code@ != (
                #[trigger] drawn[k])@;
        assert(p(drawn[k]));
    }
    assert(crate::agents::awaits_approval(a.approvals@, approval.session_id@, now) <==> !(
    forall|j: int|
        0 <= j < a.approvals@.len() ==> (#[trigger] a.approvals@[j]).session_id@
            != approval.session_id@ || a.approvals@[j].state != ApprovalState::Pending
            || a.approvals@[j].expires_at <= now)) by {
        if crate::agents::awaits_approval(a.approvals@, approval.session_id@, now) {
            let j = choose|j: int|
                0 <= j < a.approvals@.len() && (#[trigger] a.approvals@[j]).session_id@
                    == approval.session_id@ && a.approvals@[j].state == ApprovalState::Pending
                    && a.approvals@[j].expires_at > now;
            assert(a.approvals@[j].session_id@ == approval.session_id@);
        }
    }
}

proof fn lemma_approval(a: Database, code: Seq<char>, i: int)
    requires
        a.wf(),
        0 <= i < a.approvals@.len(),
        a.approvals@[i].short_code@ == code,
    ensures
        first(a.approvals@, crate::agents::approval_coded(code)) == Some(a.approvals@[i]),
        forall|j: int|
            0 <= j < a.approvals@.len() && j != i ==> (#[trigger] a.approvals@[j]).approval_id
                != a.approvals@[i].approval_id,
{
    let p = crate::agents::approval_coded(code);
    assert forall|j: int| 0 <= j < a.approvals@.len() && p(#[trigger] a.approvals@[j]) implies j
        == i by {
        if j < i {
            assert(a.approvals@[j].short_code@ != a.approvals@[i].short_code@);
        } else if i < j {
            assert(a.approvals@[i].short_code@ != a.approvals@[j].short_code@);
        }
    }
    lemma_only(a.approvals@, p, i);
}

/// The owner's word on an approval that waits counts as it was given: allowed where it
/// was to allow, denied where it was to deny. It is noted which message said so, and no
/// other approval changes but those that have expired.
pub proof fn the_owners_word_counts(
    a: Database,
    b: Database,
    code: Seq<char>,
    allow: bool,
    message: Seq<char>,
    now: i64,
    r: Option<ApprovalDecision>,
    i: int,
)
    requires
        a.wf(),
        0 <= i < a.approvals@.len(),
        a.approvals@[i].short_code@ == upper(code),
        a.approvals@[i].state == ApprovalState::Pending,
        a.approvals@[i].expires_at > now,
        decide_outcome(a, b, code, allow, message, now, r),
    ensures
        b.approvals@.len() == a.approvals@.len(),
        allow ==> b.approvals@[i].state == ApprovalState::Allowed,
        !allow ==> b.approvals@[i].state == ApprovalState::Denied,
        opt_view(b.approvals@[i].decided_by_message_id) == Some(message),
        r is Some,
        r->0.approval_id == a.approvals@[i].approval_id,
        r->0.state == b.approvals@[i].state,
        forall|j: int|
            0 <= j < a.approvals@.len() && j != i ==> #[trigger] b.approvals@[j] == a.approvals@[j]
                || (a.approvals@[j].state == ApprovalState::Pending && a.approvals@[j].expires_at
                <= now && b.approvals@[j].state == ApprovalState::Expired),
{
    lemma_approval(a, upper(code), i);
    let row = a.approvals@[i];
    let m = choose|m: Database|
        {
            &&& #[trigger] crate::agents::lapsed(a, m, now)
            &&& b == (Database { approvals: b.approvals, audit: b.audit, ..m })
            &&& crate::tables::changed(
                m.approvals@,
                b.approvals@,
                |p: ApprovalRow, q: ApprovalRow|
                    if p.approval_id == row.approval_id {
                        q == (ApprovalRow {
                            state: crate::agents::spoken(allow),
                            decided_by_message_id: q.decided_by_message_id,
                            updated_at: now,
                            ..p
                        }) && opt_view(q.decided_by_message_id) == Some(message)
                    } else {
                        q == p
                    },
            )
        };
    assert(m.approvals@[i] == row);
    assert forall|j: int| 0 <= j < a.approvals@.len() && j != i implies #[trigger] b.approvals@[j]
        == a.approvals@[j] || (a.approvals@[j].state == ApprovalState::Pending
        && a.approvals@[j].expires_at <= now && b.approvals@[j].state
        == ApprovalState::Expired) by {
        assert(m.approvals@[j].approval_id == a.approvals@[j].approval_id);
    }
}

/// The owner's word on an approval that is decided already, or that waited too long,
/// changes nothing; the owner is told what became of it.
pub proof fn late_words_change_nothing(
    a: Database,
    b: Database,
    code: Seq<char>,
    allow: bool,
    message: Seq<char>,
    now: i64,
    r: Option<ApprovalDecision>,
    i: int,
)
    requires
        a.wf(),
        0 <= i < a.approvals@.len(),
        a.approvals@[i].short_code@ == upper(code),
        a.approvals@[i].state != ApprovalState::Pending || a.approvals@[i].expires_at <= now,
        decide_outcome(a, b, code, allow, message, now, r),
    ensures
        b == a,
        r is Some,
        r->0.approval_id == a.approvals@[i].approval_id,
        a.approvals@[i].state != ApprovalState::Pending ==> r->0.state == a.approvals@[i].state,
        a.approvals@[i].state == ApprovalState::Pending ==> r->0.state == ApprovalState::Expired,
{
    lemma_approval(a, upper(code), i);
}

/// What becomes of an approval. Where its message could not be sent it is denied, where
/// its time is up it has expired, and where an allowed call is over it is completed; each
/// only out of the state in which that can happen, and no other approval changes.
pub proof fn approvals_change_one_at_a_time(
    a: Seq<ApprovalRow>,
    b: Seq<ApprovalRow>,
    id: u128,
    session: Seq<char>,
    tool: Seq<char>,
    now: i64,
    i: int,
)
    requires
        0 <= i < a.len(),
    ensures
        all_refuse_approval(a, b, id, now) ==> if a[i].approval_id == id && a[i].state
            == ApprovalState::Pending {
            b[i].state == ApprovalState::Denied && b[i].approval_id == id
        } else {
            b[i] == a[i]
        },
        all_drop_approval(a, b, id, now) ==> if a[i].approval_id == id && a[i].state
            == ApprovalState::Pending {
            b[i].state == ApprovalState::Expired && b[i].approval_id == id
        } else {
            b[i] == a[i]
        },
        all_close_approval(a, b, session, tool, now) ==> if a[i].session_id@ == session
            && a[i].tool_use_id@ == tool && a[i].state == ApprovalState::Allowed {
            b[i].state == ApprovalState::Completed && b[i].approval_id == a[i].approval_id
        } else {
            b[i] == a[i]
        },
        all_abandon_approval(a, b, session, now) ==> if a[i].session_id@ == session && a[i].state
            == ApprovalState::Allowed {
            b[i].state == ApprovalState::UnknownFailure && b[i].approval_id == a[i].approval_id
        } else {
            b[i] == a[i]
        },
{
}

/// The approval that is found for a tool call is one that was asked for it in that
/// session, and none was asked for it later.
pub proof fn the_latest_approval_is_found(
    rows: Seq<ApprovalRow>,
    i: int,
    session: Seq<char>,
    tool: Seq<char>,
    j: int,
)
    requires
        is_latest_for(rows, i, session, tool),
    ensures
        rows[i].session_id@ == session,
        rows[i].tool_use_id@ == tool,
        0 <= j < rows.len() && rows[j].session_id@ == session && rows[j].tool_use_id@ == tool
            ==> rows[j].created_at <= rows[i].created_at,
{
    if 0 <= j < rows.len() && rows[j].session_id@ == session && rows[j].tool_use_id@ == tool {
        assert(crate::agents::is_for_tool(rows[j], session, tool));
    }
}

// ---------------------------------------------------------------------------
// Stopping

/// A session that wants to stop is held back exactly where it is at work, its final
/// answer was not sent, and neither was it held back before nor is its hook at work
/// already. Else it has stopped, and what became of its allowed calls is not known.
pub proof fn sessions_stop_unless_held_back(
    a: Database,
    b: Database,
    session: Seq<char>,
    hook_active: bool,
    now: i64,
    r: Result<StopResult, Failure>,
    i: int,
)
    requires
        a.wf(),
        0 <= i < a.sessions@.len(),
        a.sessions@[i].session_id@ == session,
        stop_outcome(a, b, session, hook_active, now, r),
    ensures
        r is Ok,
        r->Ok_0.decision == StopDecision::Block <==> at_work(a.sessions@[i])
            && !a.sessions@[i].final_sent && !a.sessions@[i].stop_blocked_once && !hook_active,
        r->Ok_0.decision == StopDecision::Allow || r->Ok_0.decision == StopDecision::Block,
        b.sessions@.len() == a.sessions@.len(),
        r->Ok_0.decision == StopDecision::Block ==> r->Ok_0.reason is Some
            && b.sessions@[i].stop_blocked_once && b.sessions@[i].state == a.sessions@[i].state
            && b.approvals == a.approvals,
        r->Ok_0.decision == StopDecision::Allow ==> b.sessions@[i].state == SessionState::Stopped
            && forall|j: int|
            0 <= j < a.approvals@.len() ==> if a.approvals@[j].session_id@ == session
                && a.approvals@[j].state == ApprovalState::Allowed {
                (#[trigger] b.approvals@[j]).state == ApprovalState::UnknownFailure
            } else {
                b.approvals@[j] == a.approvals@[j]
            },
        r->Ok_0.decision == StopDecision::Allow ==> (r->Ok_0.reason is None <==> !at_work(
            a.sessions@[i],
        ) || a.sessions@[i].final_sent),
        forall|j: int|
            0 <= j < a.sessions@.len() && j != i ==> #[trigger] b.sessions@[j] == a.sessions@[j],
{
    lemma_session(a, session, i);
}

/// How the marks of a session change: its final answer is noted as sent while it is at
/// work, it waits and goes on, and it is told once that the owner stopped it. Other
/// sessions stay as they are.
pub proof fn sessions_change_one_at_a_time(
    a: Seq<SessionRow>,
    b: Seq<SessionRow>,
    session: Seq<char>,
    now: i64,
    i: int,
)
    requires
        0 <= i < a.len(),
    ensures
        all_finish_session(a, b, session, now) ==> if a[i].session_id@ == session && at_work(a[i]) {
            b[i].final_sent && b[i].state == a[i].state && b[i].session_id == a[i].session_id
        } else {
            b[i] == a[i]
        },
        all_pause_session(a, b, session, now) ==> if a[i].session_id@ == session && a[i].state
            == SessionState::Active {
            b[i].state == SessionState::Waiting && b[i].final_sent == a[i].final_sent
        } else {
            b[i] == a[i]
        },
        all_resume_session(a, b, session, now) ==> if a[i].session_id@ == session && a[i].state
            == SessionState::Waiting {
            b[i].state == SessionState::Active && b[i].final_sent == a[i].final_sent
        } else {
            b[i] == a[i]
        },
        all_halt_session(a, b, session, now) ==> if a[i].session_id@ == session {
            b[i].state == SessionState::Stopped && b[i].cancel_requested
        } else {
            b[i] == a[i]
        },
        all_hear_cancel(a, b, session) ==> if a[i].session_id@ == session {
            !b[i].cancel_requested && b[i].state == a[i].state
        } else {
            b[i] == a[i]
        },
{
}

/// Where the owner stops a session, the approvals that it waits for are denied and the
/// questions that it waits for are taken back; those of other sessions, and those that
/// are settled, stay as they are.
pub proof fn stopped_sessions_get_no_answer(
    a: Database,
    b: Database,
    session: Seq<char>,
    message: Seq<char>,
    now: i64,
    i: int,
    j: int,
)
    requires
        approvals_denied(a.approvals@, b.approvals@, session, message, now),
        questions_cancelled(a.questions@, b.questions@, session, message, now),
        0 <= i < a.approvals@.len(),
        0 <= j < a.questions@.len(),
    ensures
        if a.approvals@[i].session_id@ == session && a.approvals@[i].state
            == ApprovalState::Pending {
            b.approvals@[i].state == ApprovalState::Denied && opt_view(
                b.approvals@[i].decided_by_message_id,
            ) == Some(message)
        } else {
            b.approvals@[i] == a.approvals@[i]
        },
        if a.questions@[j].session_id@ == session && a.questions@[j].state
            == QuestionState::Pending {
            b.questions@[j].state == QuestionState::Cancelled && opt_view(
                b.questions@[j].answer_message_id,
            ) == Some(message)
        } else {
            b.questions@[j] == a.questions@[j]
        },
{
    assert(b.approvals@[i] == b.approvals@[i]);
    assert(b.questions@[j] == b.questions@[j]);
}

// ---------------------------------------------------------------------------
// Questions

/// A question is asked as the session puts it, under a code that no question has, and the
/// session waits. It is refused while another question of the session waits.
pub proof fn questions_are_asked(
    a: Database,
    b: Database,
    question: NewQuestion,
    drawn: Seq<String>,
    now: i64,
    r: Result<QuestionRecord, Failure>,
    i: int,
)
    requires
        a.wf(),
        question_outcome(a, b, question, drawn, now, r),
        forall|j: int|
            0 <= j < a.questions@.len() ==> (#[trigger] a.questions@[j]).question_id
                != question.question_id,
        0 <= i < a.sessions@.len(),
        a.sessions@[i].session_id@ == question.session_id@,
    ensures
        r is Ok <==> (forall|j: int|
            0 <= j < a.questions@.len() ==> (#[trigger] a.questions@[j]).session_id@
                != question.session_id@ || a.questions@[j].state != QuestionState::Pending)
            && exists|k: int|
            0 <= k < drawn.len() && forall|j: int|
                0 <= j < a.questions@.len() ==> (#[trigger] a.questions@[j]).short_code@ != (
                #[trigger] drawn[k])@,
        r is Err ==> b == a,
        r is Ok ==> {
            let row = b.questions@.last();
            &&& b.questions@.len() == a.questions@.len() + 1
            &&& b.questions@.take(a.questions@.len() as int) == a.questions@
            &&& row.question_id == question.question_id
            &&& row.session_id@ == question.session_id@
            &&& row.question_hash@ == question.question_hash@
            &&& row.choices_json@ == question.choices_json@
            &&& row.allow_freeform == question.allow_freeform
            &&& row.state == QuestionState::Pending
            &&& row.answer is None
            &&& row.expires_at == question.expires_at
            &&& r->Ok_0.short_code@ == row.short_code@
            &&& r->Ok_0.question_id == question.question_id
            &&& a.sessions@[i].state == SessionState::Active ==> b.sessions@[i].state
                == SessionState::Waiting
            &&& forall|j: int|
                0 <= j < a.questions@.len() ==> (#[trigger] a.questions@[j]).short_code@
                    != row.short_code@
        },
{
    lemma_first_none(a.questions@, crate::agents::question_numbered(question.question_id));
    assert(crate::store::has_session(a.sessions@, question.session_id@));
    let p = crate::agents::free_question_code(a.questions@);
    lemma_first_holds(drawn, p);
    let free = exists|k: int|
        0 <= k < drawn.len() && forall|j: int|
            0 <= j < a.questions@.len() ==> (#[trigger] a.questions@[j]).short_code@ != (
            #[trigger] drawn[k])@;
    if first(drawn, p) is Some {
        let code = first(drawn, p)->0;
        let k = choose|k: int| 0 <= k < drawn.len() && #[trigger] drawn[k] == code;
        assert(forall|j: int|
            0 <= j < a.questions@.len() ==> (#[trigger] a.questions@[j]).short_code@ != drawn[k]@);
        assert(free);
    } else if free {
        let k = choose|k: int|
            0 <= k < drawn.len() && forall|j: int|
                0 <= j < a.questions@.len() ==> (#[trigger] a.questions@[j]).short_code@ != (
                #[trigger] drawn[k])@;
        assert(p(drawn[k]));
    }
    assert(crate::agents::awaits_answer(a.questions@, question.session_id@) <==> !(forall|j: int|
        0 <= j < a.questions@.len() ==> (#[trigger] a.questions@[j]).session_id@
            != question.session_id@ || a.questions@[j].state != QuestionState::Pending)) by {
        if crate::agents::awaits_answer(a.questions@, question.session_id@) {
            let j = choose|j: int|
                0 <= j < a.questions@.len() && (#[trigger] a.questions@[j]).session_id@
                    == question.session_id@ && a.questions@[j].state == QuestionState::Pending;
            assert(a.questions@[j].session_id@ == question.session_id@);
        }
    }
    if r is Ok {
        assert(b.questions@.take(a.questions@.len() as int) =~= a.questions@);
    }
}

/// An answer to a question that waits is kept as it was given, and the session goes on.
/// One that comes late, or to a question that does not wait, is not.
pub proof fn answers_are_kept(
    a: Database,
    b: Database,
    answer: Seq<char>,
    message: Seq<char>,
    now: i64,
    r: bool,
    i: int,
    k: int,
)
    requires
        a.wf(),
        0 <= i < a.questions@.len(),
        0 <= k < a.sessions@.len(),
        a.sessions@[k].session_id@ == a.questions@[i].session_id@,
        reply_outcome(a, b, a.questions@[i].question_id, answer, message, now, r),
    ensures
        r <==> a.questions@[i].state == QuestionState::Pending && a.questions@[i].expires_at > now,
        !r ==> b == a,
        r ==> {
            &&& b.questions@.len() == a.questions@.len()
            &&& b.questions@[i].state == QuestionState::Answered
            &&& opt_view(b.questions@[i].answer) == Some(answer)
            &&& opt_view(b.questions@[i].answer_message_id) == Some(message)
            &&& forall|j: int|
                0 <= j < a.questions@.len() && j != i ==> #[trigger] b.questions@[j]
                    == a.questions@[j]
            &&& a.sessions@[k].state == SessionState::Waiting ==> b.sessions@[k].state
                == SessionState::Active
        },
{
    let id = a.questions@[i].question_id;
    let p = crate::agents::waiting_question(id);
    assert forall|j: int| 0 <= j < a.questions@.len() && j != i implies (
    #[trigger] a.questions@[j]).question_id != id by {
        if j < i {
            assert(a.questions@[j].question_id != a.questions@[i].question_id);
        } else {
            assert(a.questions@[i].question_id != a.questions@[j].question_id);
        }
    }
    if a.questions@[i].state == QuestionState::Pending {
        lemma_only(a.questions@, p, i);
    } else {
        lemma_first_none(a.questions@, p);
    }
}

/// A question whose time is up has expired, and an answer that was handed on is kept no
/// longer; other questions stay as they are.
pub proof fn questions_change_one_at_a_time(
    a: Seq<QuestionRow>,
    b: Seq<QuestionRow>,
    id: u128,
    now: i64,
    i: int,
)
    requires
        0 <= i < a.len(),
    ensures
        all_lapse_question(a, b, id, now) ==> if a[i].question_id == id && a[i].state
            == QuestionState::Pending {
            b[i].state == QuestionState::Expired
        } else {
            b[i] == a[i]
        },
        all_forget_answer(a, b, id, now) ==> if a[i].question_id == id && a[i].state
            == QuestionState::Answered {
            b[i].answer is None && b[i].state == QuestionState::Answered
        } else {
            b[i] == a[i]
        },
{
}

// ---------------------------------------------------------------------------
// Messages

/// A message that comes in for the first time is kept as received from its sender, and
/// for no session yet.
pub proof fn new_messages_are_kept(
    a: Database,
    b: Database,
    message: Seq<char>,
    user: Seq<char>,
    now: i64,
    r: bool,
)
    requires
        inbound_outcome(a, b, message, user, now, r),
    ensures
        r <==> forall|j: int|
            0 <= j < a.inbound@.len() ==> (#[trigger] a.inbound@[j]).message_id@ != message,
        r ==> {
            &&& b.inbound@.len() == a.inbound@.len() + 1
            &&& b.inbound@.take(a.inbound@.len() as int) == a.inbound@
            &&& b.inbound@.last().message_id@ == message
            &&& b.inbound@.last().user_openid@ == user
            &&& b.inbound@.last().kind@ == "received"@
            &&& b.inbound@.last().session_id is None
            &&& b.inbound@.last().consumed_at is None
            &&& b.inbound@.last().created_at == now
        },
{
    let p = with_message(message);
    lemma_first_holds(a.inbound@, p);
    if first(a.inbound@, p) is Some {
        let row = first(a.inbound@, p)->0;
        let j = choose|j: int| 0 <= j < a.inbound@.len() && #[trigger] a.inbound@[j] == row;
        assert(a.inbound@[j].message_id@ == message);
    } else {
        assert forall|j: int| 0 <= j < a.inbound@.len() implies (
        #[trigger] a.inbound@[j]).message_id@ != message by {
            assert(!p(a.inbound@[j]));
        }
        assert(b.inbound@.take(a.inbound@.len() as int) =~= a.inbound@);
    }
}

/// A message that came in can be queued for a session that is known, once; it then
/// waits for that session with what it says, until its time is up.
pub proof fn received_messages_can_be_queued(
    a: Database,
    b: Database,
    message: Seq<char>,
    session: Seq<char>,
    content: Seq<char>,
    ttl: u64,
    now: i64,
    r: Result<(), Failure>,
    i: int,
)
    requires
        a.wf(),
        0 <= i < a.inbound@.len(),
        a.inbound@[i].message_id@ == message,
        now + ttl <= i64::MAX,
        ttl <= i64::MAX,
        queue_outcome(a, b, message, session, content, ttl, now, r),
    ensures
        r is Ok <==> a.inbound@[i].kind@ == "received"@ && exists|k: int|
            0 <= k < a.sessions@.len() && (#[trigger] a.sessions@[k]).session_id@ == session,
        r is Err ==> b == a,
        r is Ok ==> {
            &&& b.inbound@.len() == a.inbound@.len()
            &&& opt_view(b.inbound@[i].session_id) == Some(session)
            &&& opt_view(b.inbound@[i].content) == Some(content)
            &&& b.inbound@[i].kind@ == "queued"@
            &&& b.inbound@[i].expires_at == Some((now + ttl) as i64)
            &&& b.inbound@[i].message_id == a.inbound@[i].message_id
            &&& b.inbound@[i].created_at == a.inbound@[i].created_at
            &&& b.inbound@[i].consumed_at == a.inbound@[i].consumed_at
            &&& forall|j: int|
                0 <= j < a.inbound@.len() && j != i ==> #[trigger] b.inbound@[j] == a.inbound@[j]
        },
{
    let p = with_message(message);
    assert forall|j: int| 0 <= j < a.inbound@.len() && j != i implies (
    #[trigger] a.inbound@[j]).message_id@ != message by {
        if j < i {
            assert(a.inbound@[j].message_id@ != a.inbound@[i].message_id@);
        } else {
            assert(a.inbound@[i].message_id@ != a.inbound@[j].message_id@);
        }
    }
    lemma_only(a.inbound@, p, i);
}

/// Whether the message waits for the session: it is queued for it, was not taken, and
/// its time is not up.
pub open spec fn waits_for(row: InboundRow, session: Seq<char>, now: i64) -> bool {
    &&& opt_view(row.session_id) == Some(session)
    &&& row.kind@ == "queued"@
    &&& row.consumed_at is None
    &&& row.expires_at matches Some(t) ==> t > now
}

/// A session is handed the oldest message that waits for it, with what it says, and the
/// message is taken; it is handed none only where none waits.
pub proof fn the_oldest_message_is_handed_over(
    a: Database,
    b: Database,
    session: Seq<char>,
    now: i64,
    r: Option<(String, String)>,
    i: int,
)
    requires
        a.wf(),
        take_outcome(a, b, session, now, r),
        0 <= i < a.inbound@.len(),
        waits_for(a.inbound@[i], session, now),
    ensures
        r is Some,
        exists|k: int|
            {
                let row = #[trigger] a.inbound@[k];
                &&& 0 <= k < a.inbound@.len()
                &&& waits_for(row, session, now)
                &&& row.created_at <= a.inbound@[i].created_at
                &&& (r->0).0@ == row.message_id@
                &&& opt_view(row.content) == Some((r->0).1@)
                &&& b.inbound@[k].consumed_at == Some(now)
                &&& b.inbound@[k].content is None
                &&& b.inbound@ == a.inbound@.update(k, b.inbound@[k])
            },
{
    assert(crate::messages::is_waiting_message(a.inbound@[i], session, now));
    let (message, content) = r->0;
    let k = choose|k: int|
        {
            &&& #[trigger] crate::messages::is_next_message(a.inbound@, k, session, now)
            &&& message == a.inbound@[k].message_id
            &&& Some(content) == a.inbound@[k].content
            &&& b == (Database { inbound: b.inbound, ..a })
            &&& b.inbound@ == a.inbound@.update(k, b.inbound@[k])
            &&& crate::messages::taken(a.inbound@[k], b.inbound@[k], now)
        };
    assert(waits_for(a.inbound@[k], session, now));
}

/// A session for which nothing waits is handed nothing.
pub proof fn nothing_is_handed_over_where_nothing_waits(
    a: Database,
    b: Database,
    session: Seq<char>,
    now: i64,
    r: Option<(String, String)>,
)
    requires
        take_outcome(a, b, session, now, r),
        forall|i: int|
            0 <= i < a.inbound@.len() ==> !waits_for(#[trigger] a.inbound@[i], session, now),
    ensures
        r is None,
        b == a,
{
    if let Some((message, content)) = r {
        let k = choose|k: int| #[trigger]
            crate::messages::is_next_message(a.inbound@, k, session, now);
        assert(waits_for(a.inbound@[k], session, now));
    }
}

/// A delivery that begins is on its way under its own number and key, and nothing is
/// known of it yet.
pub proof fn new_deliveries_are_on_their_way(
    a: Database,
    b: Database,
    d: NewDelivery,
    now: i64,
    begun: BeginDelivery,
)
    requires
        begin_outcome(a, b, d, now, Ok(begun)),
        begun.created,
    ensures
        b.deliveries@.len() == a.deliveries@.len() + 1,
        b.deliveries@.take(a.deliveries@.len() as int) == a.deliveries@,
        b.deliveries@.last().delivery_id == d.delivery_id,
        b.deliveries@.last().idempotency_key@ == d.idempotency_key@,
        b.deliveries@.last().kind@ == d.kind@,
        opt_view(b.deliveries@.last().session_id) == opt_view(d.session_id),
        b.deliveries@.last().status == DeliveryStatus::Pending,
        b.deliveries@.last().qq_message_id is None,
        b.deliveries@.last().error_code is None,
        begun.record.delivery_id == d.delivery_id,
        forall|j: int|
            0 <= j < a.deliveries@.len() ==> (#[trigger] a.deliveries@[j]).idempotency_key@
                != d.idempotency_key@,
{
    let p = crate::messages::delivery_keyed(d.idempotency_key@);
    lemma_first_holds(a.deliveries@, p);
    assert forall|j: int| 0 <= j < a.deliveries@.len() implies (
    #[trigger] a.deliveries@[j]).idempotency_key@ != d.idempotency_key@ by {
        assert(!p(a.deliveries@[j]));
    }
    assert(b.deliveries@.take(a.deliveries@.len() as int) =~= a.deliveries@);
}

/// A delivery that is on its way ends as it is said to: sent, failed or in doubt. It is
/// noted under which number it was sent, or why not; no other delivery changes.
pub proof fn deliveries_end_as_told(
    a: Database,
    b: Database,
    status: Seq<char>,
    message: Option<Seq<char>>,
    error: Option<Seq<char>>,
    now: i64,
    r: Result<(), Failure>,
    i: int,
)
    requires
        a.wf(),
        0 <= i < a.deliveries@.len(),
        finish_outcome(a, b, a.deliveries@[i].delivery_id, status, message, error, now, r),
    ensures
        r is Ok <==> a.deliveries@[i].status == DeliveryStatus::Pending && (status == "sent"@
            || status == "failed"@ || status == "in_doubt"@),
        r is Err ==> b == a,
        r is Ok ==> {
            &&& b.deliveries@.len() == a.deliveries@.len()
            &&& status == "sent"@ ==> b.deliveries@[i].status == DeliveryStatus::Sent
            &&& status == "failed"@ ==> b.deliveries@[i].status == DeliveryStatus::Failed
            &&& status == "in_doubt"@ ==> b.deliveries@[i].status == DeliveryStatus::InDoubt
            &&& opt_view(b.deliveries@[i].qq_message_id) == message
            &&& opt_view(b.deliveries@[i].error_code) == error
            &&& b.deliveries@[i].idempotency_key == a.deliveries@[i].idempotency_key
            &&& forall|j: int|
                0 <= j < a.deliveries@.len() && j != i ==> #[trigger] b.deliveries@[j]
                    == a.deliveries@[j]
        },
{
    let id = a.deliveries@[i].delivery_id;
    let p = crate::messages::delivery_numbered(id);
    assert forall|j: int| 0 <= j < a.deliveries@.len() && j != i implies (
    #[trigger] a.deliveries@[j]).delivery_id != id by {
        if j < i {
            assert(a.deliveries@[j].delivery_id != a.deliveries@[i].delivery_id);
        } else {
            assert(a.deliveries@[i].delivery_id != a.deliveries@[j].delivery_id);
        }
    }
    lemma_only(a.deliveries@, p, i);
    reveal_strlit("sent");
    reveal_strlit("failed");
    reveal_strlit("in_doubt");
    assert("sent"@.len() != "failed"@.len());
    assert("sent"@.len() != "in_doubt"@.len());
    assert("failed"@.len() != "in_doubt"@.len());
}

/// The parts that count as sent since a time are those that were sent then or later.
pub proof fn parts_are_counted_from_a_time(rows: Seq<SentRow>, since: i64)
    ensures
        crate::tables::count(rows, crate::messages::sent_since(since)) == rows.filter(
            |r: SentRow| r.sent_at >= since,
        ).len(),
{
    assert(crate::messages::sent_since(since) =~= (|r: SentRow| r.sent_at >= since));
}

/// Where a gateway session can be resumed is remembered as it was told; an address that
/// is not told again stays.
pub proof fn resumption_is_remembered(
    a: Database,
    b: Database,
    session: Seq<char>,
    sequence: u64,
    url: Option<Seq<char>>,
    now: i64,
)
    requires
        crate::messages::resume_saved(a, b, session, sequence, url, now),
    ensures
        b.gateway is Some,
        b.gateway->0.session_id@ == session,
        b.gateway->0.sequence == sequence,
        url is Some ==> opt_view(b.gateway->0.resume_gateway_url) == url,
        url is None && a.gateway is Some ==> opt_view(b.gateway->0.resume_gateway_url) == opt_view(
            a.gateway->0.resume_gateway_url,
        ),
        url is None && a.gateway is None ==> b.gateway->0.resume_gateway_url is None,
{
}

/// What the gateway connection is doing is remembered, and when the gateway was last
/// heard of.
pub proof fn the_connection_is_remembered(
    a: Database,
    b: Database,
    state: Seq<char>,
    seen: bool,
    now: i64,
)
    requires
        crate::messages::runtime_set(a, b, state, seen, now),
    ensures
        b.gateway_runtime is Some,
        b.gateway_runtime->0.state.label() == state,
        seen ==> b.gateway_runtime->0.last_seen_at == Some(now),
        !seen && a.gateway_runtime is Some ==> b.gateway_runtime->0.last_seen_at
            == a.gateway_runtime->0.last_seen_at,
        !seen && a.gateway_runtime is None ==> b.gateway_runtime->0.last_seen_at is None,
{
}

/// What is told of the agents: whether there is an owner and they may speak, every
/// approval that waits, and no more than twenty sessions, those changed last first.
pub proof fn the_snapshot_tells_what_is(db: Database, now: i64, s: StatusSnapshot, i: int, j: int)
    requires
        tells_snapshot(db, now, s),
    ensures
        s.owner_bound <==> db.owner is Some,
        s.owner_enabled <==> db.owner is Some && db.owner->0.enabled,
        0 <= i < db.approvals@.len() && db.approvals@[i].state == ApprovalState::Pending
            && db.approvals@[i].expires_at > now ==> exists|k: int|
            0 <= k < s.pending_approvals@.len() && (
            #[trigger] s.pending_approvals@[k]).approval_code@ == db.approvals@[i].short_code@
                && s.pending_approvals@[k].tool_name@ == db.approvals@[i].tool_name@
                && s.pending_approvals@[k].expires_at == db.approvals@[i].expires_at,
        s.sessions@.len() <= 20,
        0 <= j < db.sessions@.len() && s.sessions@.len() < 20 ==> exists|k: int|
            0 <= k < s.sessions@.len() && (#[trigger] s.sessions@[k]).session_label@
                == db.sessions@[j].short_code@ && s.sessions@[k].state@
                == db.sessions@[j].state.label() && s.sessions@[k].final_sent
                == db.sessions@[j].final_sent,
{
    let picks = choose|picks: Seq<usize>| #[trigger]
        crate::messages::tells_approvals(db, picks, now, s.pending_approvals@);
    let p = crate::messages::waiting_approval(now);
    if 0 <= i < db.approvals@.len() && db.approvals@[i].state == ApprovalState::Pending
        && db.approvals@[i].expires_at > now {
        assert(p(db.approvals@[i]));
        let k = choose|k: int| 0 <= k < picks.len() && #[trigger] picks[k] == i;
        assert(s.pending_approvals@[k].approval_code@ == db.approvals@[i].short_code@);
    }
    let told = choose|told: Seq<usize>| #[trigger]
        crate::messages::tells_sessions(db, told, s.sessions@);
    if 0 <= j < db.sessions@.len() && s.sessions@.len() < 20 {
        assert(crate::messages::any_session()(db.sessions@[j]));
        let k = choose|k: int| 0 <= k < told.len() && #[trigger] told[k] == j;
        assert(s.sessions@[k].session_label@ == db.sessions@[j].short_code@);
    }
}

/// Every approval that is told of waits and has not expired.
pub proof fn told_approvals_wait(db: Database, now: i64, s: StatusSnapshot, k: int) -> (x: int)
    requires
        tells_snapshot(db, now, s),
        0 <= k < s.pending_approvals@.len(),
    ensures
        0 <= x < db.approvals@.len(),
        db.approvals@[x].state == ApprovalState::Pending,
        db.approvals@[x].expires_at > now,
        db.approvals@[x].short_code@ == s.pending_approvals@[k].approval_code@,
        db.approvals@[x].tool_name@ == s.pending_approvals@[k].tool_name@,
{
    let picks = choose|picks: Seq<usize>| #[trigger]
        crate::messages::tells_approvals(db, picks, now, s.pending_approvals@);
    let x = picks[k] as int;
    assert(crate::messages::waiting_approval(now)(db.approvals@[x]));
    assert(s.pending_approvals@[k].approval_code == db.approvals@[x].short_code);
    x
}

// ---------------------------------------------------------------------------
// What the owner and the adapter say in between

/// The owner is switched on and off as told, and that is remembered; without an owner
/// nothing happens.
pub proof fn the_owner_is_switched(
    a: Database,
    b: Database,
    enabled: bool,
    now: i64,
    r: Result<(), Failure>,
)
    requires
        crate::agents::switch_outcome(a, b, enabled, now, r),
    ensures
        r is Ok <==> a.owner is Some,
        r is Err ==> b == a,
        a.owner is Some ==> b.owner is Some && b.owner->0.enabled == enabled
            && b.owner->0.user_openid == a.owner->0.user_openid,
        a.owner is Some ==> b.audit@.len() == a.audit@.len() + 1 && b.audit@.last().event_type@
            == "emergency_switch"@ && b.audit@.last().outcome@ == (if enabled {
            "enabled"@
        } else {
            "disabled"@
        }) && b.audit@.last().occurred_at == now,
        b.sessions == a.sessions,
        b.approvals == a.approvals,
{
}

/// A session that runs under the label stops at the owner's wish: what it waits for is
/// denied or taken back, and it is told. Other sessions, and what they wait for, go on.
pub proof fn sessions_stop_at_the_owners_wish(
    a: Database,
    b: Database,
    label: Seq<char>,
    message: Seq<char>,
    now: i64,
    r: bool,
    i: int,
)
    requires
        a.wf(),
        crate::agents::halt_outcome(a, b, label, message, now, r),
        0 <= i < a.sessions@.len(),
        a.sessions@[i].short_code@ == upper(label),
        at_work(a.sessions@[i]),
    ensures
        r,
        b.sessions@.len() == a.sessions@.len(),
        b.sessions@[i].state == SessionState::Stopped,
        b.sessions@[i].cancel_requested,
        b.sessions@[i].session_id == a.sessions@[i].session_id,
        forall|j: int|
            0 <= j < a.sessions@.len() && j != i ==> #[trigger] b.sessions@[j] == a.sessions@[j],
        b.approvals@.len() == a.approvals@.len(),
        forall|j: int|
            #![trigger b.approvals@[j]]
            0 <= j < a.approvals@.len() ==> if a.approvals@[j].session_id@
                == a.sessions@[i].session_id@ && a.approvals@[j].state == ApprovalState::Pending {
                b.approvals@[j].state == ApprovalState::Denied && opt_view(
                    b.approvals@[j].decided_by_message_id,
                ) == Some(message) && b.approvals@[j].approval_id == a.approvals@[j].approval_id
            } else {
                b.approvals@[j] == a.approvals@[j]
            },
        b.questions@.len() == a.questions@.len(),
        forall|j: int|
            #![trigger b.questions@[j]]
            0 <= j < a.questions@.len() ==> if a.questions@[j].session_id@
                == a.sessions@[i].session_id@ && a.questions@[j].state == QuestionState::Pending {
                b.questions@[j].state == QuestionState::Cancelled && b.questions@[j].question_id
                    == a.questions@[j].question_id
            } else {
                b.questions@[j] == a.questions@[j]
            },
        b.audit@.len() == a.audit@.len() + 1,
        b.audit@.last().event_type@ == "session_cancelled"@,
        opt_view(b.audit@.last().qq_message_id) == Some(message),
        b.inbound == a.inbound,
        b.deliveries == a.deliveries,
{
    let p = crate::agents::running_code(upper(label));
    assert forall|j: int| 0 <= j < i implies !p(#[trigger] a.sessions@[j]) by {
        assert(a.sessions@[j].short_code@ != a.sessions@[i].short_code@);
    }
    lemma_first(a.sessions@, p, i);
    assert forall|j: int| 0 <= j < a.sessions@.len() && j != i implies #[trigger] b.sessions@[j]
        == a.sessions@[j] by {
        if j < i {
            assert(a.sessions@[j].session_id@ != a.sessions@[i].session_id@);
        } else {
            assert(a.sessions@[i].session_id@ != a.sessions@[j].session_id@);
        }
    }
}

/// Where no session runs under the label nothing stops.
pub proof fn sessions_that_do_not_run_do_not_stop(
    a: Database,
    b: Database,
    label: Seq<char>,
    message: Seq<char>,
    now: i64,
    r: bool,
)
    requires
        crate::agents::halt_outcome(a, b, label, message, now, r),
        forall|i: int|
            0 <= i < a.sessions@.len() && (#[trigger] a.sessions@[i]).short_code@ == upper(label)
                ==> !at_work(a.sessions@[i]),
    ensures
        !r,
        b == a,
{
    let p = crate::agents::running_code(upper(label));
    assert forall|i: int| 0 <= i < a.sessions@.len() implies !p(#[trigger] a.sessions@[i]) by {}
    lemma_first_none(a.sessions@, p);
}

/// An allowed tool call that is over is completed, which is remembered; what was not
/// allowed is not completed.
pub proof fn allowed_calls_are_completed(
    a: Database,
    b: Database,
    session: Seq<char>,
    tool: Seq<char>,
    now: i64,
    r: bool,
    i: int,
)
    requires
        crate::agents::complete_outcome(a, b, session, tool, now, r),
        0 <= i < a.approvals@.len(),
    ensures
        b.approvals@.len() == a.approvals@.len(),
        a.approvals@[i].session_id@ == session && a.approvals@[i].tool_use_id@ == tool
            && a.approvals@[i].state == ApprovalState::Allowed ==> r && b.approvals@[i].state
            == ApprovalState::Completed && b.approvals@[i].approval_id == a.approvals@[i].approval_id,
        !(a.approvals@[i].session_id@ == session && a.approvals@[i].tool_use_id@ == tool
            && a.approvals@[i].state == ApprovalState::Allowed) ==> b.approvals@[i]
            == a.approvals@[i],
        r ==> b.audit@.len() == a.audit@.len() + 1 && b.audit@.last().event_type@
            == "tool_completed"@ && opt_view(b.audit@.last().detail_redacted) == Some(tool),
        !r ==> b.audit == a.audit,
        b.sessions == a.sessions,
{
    assert(b.approvals@[i] == crate::agents::close_approval(a.approvals@[i], session, tool, now));
    if a.approvals@[i].session_id@ == session && a.approvals@[i].tool_use_id@ == tool
        && a.approvals@[i].state == ApprovalState::Allowed {
        assert(crate::agents::is_for_tool(a.approvals@[i], session, tool));
    }
}

/// Approvals that wait expire when their time is up; the others stay as they are.
pub proof fn approvals_expire(a: Seq<ApprovalRow>, b: Seq<ApprovalRow>, now: i64, i: int)
    requires
        crate::agents::all_lapse_approval(a, b, now),
        0 <= i < a.len(),
    ensures
        b.len() == a.len(),
        a[i].state == ApprovalState::Pending && a[i].expires_at <= now ==> b[i] == (ApprovalRow {
            state: ApprovalState::Expired,
            updated_at: now,
            ..a[i]
        }),
        a[i].state != ApprovalState::Pending || now < a[i].expires_at ==> b[i] == a[i],
{
    assert(b[i] == crate::agents::lapse_approval(a[i], now));
}

/// What is remembered is told by its kind, its outcome, and what it is about.
pub proof fn what_is_noted_is_remembered(
    a: Seq<AuditRow>,
    b: Seq<AuditRow>,
    code: Option<Seq<char>>,
    event: Seq<char>,
    p: ApprovalRow,
    outcome: Seq<char>,
    message: Option<Seq<char>>,
    detail: Option<Seq<char>>,
    now: i64,
)
    ensures
        crate::agents::noted(a, b, code, event, outcome, message, detail, now) ==> {
            &&& b.len() == a.len() + 1
            &&& forall|i: int| 0 <= i < a.len() ==> #[trigger] b[i] == a[i]
            &&& b.last().occurred_at == now
            &&& b.last().event_type@ == event
            &&& b.last().outcome@ == outcome
            &&& opt_view(b.last().session_code) == code
            &&& opt_view(b.last().qq_message_id) == message
            &&& opt_view(b.last().detail_redacted) == detail
            &&& b.last().tool_name is None
        },
        crate::agents::noted_approval(a, b, code, event, p, outcome, message, now) ==> {
            &&& b.len() == a.len() + 1
            &&& forall|i: int| 0 <= i < a.len() ==> #[trigger] b[i] == a[i]
            &&& b.last().occurred_at == now
            &&& b.last().event_type@ == event
            &&& b.last().outcome@ == outcome
            &&& opt_view(b.last().session_code) == code
            &&& opt_view(b.last().qq_message_id) == message
            &&& opt_view(b.last().tool_name) == Some(p.tool_name@)
            &&& opt_view(b.last().input_hash) == Some(p.input_hash@)
            &&& b.last().risk == Some(p.risk)
            &&& opt_view(b.last().detail_redacted) == Some(p.short_code@)
        },
{
}

/// Word of how far a command has come is taken from the instance that the command was
/// handed to, while it is in its hands, and changes nothing else.
pub proof fn progress_is_kept(
    a: Database,
    b: Database,
    adapter: Seq<char>,
    instance: Seq<char>,
    id: i64,
    progress: u64,
    total: Option<u64>,
    message: Option<Seq<char>>,
    now: i64,
    r: Result<(), Failure>,
    i: int,
)
    requires
        crate::commands::progress_outcome(
            a,
            b,
            adapter,
            instance,
            id,
            progress,
            total,
            message,
            now,
            r,
        ),
        0 <= i < a.commands@.len(),
    ensures
        r is Err ==> b == a,
        b.commands@.len() == a.commands@.len(),
        b.bindings == a.bindings,
        ({
            let was = a.commands@[i];
            let then = b.commands@[i];
            let held = was.command_id == id && was.state == CommandState::Leased && opt_view(
                was.lease_owner,
            ) == Some(instance);
            &&& held && a.adapter is Some && a.adapter->0.adapter_id@ == adapter
                && a.adapter->0.adapter_instance_id@ == instance ==> r is Ok
            &&& held && r is Ok ==> {
                &&& then.progress is Some
                &&& then.progress->0.progress == progress
                &&& then.progress->0.total == total
                &&& opt_view(then.progress->0.message) == message
                &&& then.progress->0.updated_at == now
                &&& then.state == was.state
                &&& then.lease_owner == was.lease_owner
                &&& then.data == was.data
                &&& then.command_id == was.command_id
            }
            &&& !held ==> then == was
        }),
        r is Ok ==> a.adapter is Some && a.adapter->0.adapter_id@ == adapter
            && a.adapter->0.adapter_instance_id@ == instance,
{
    if r is Ok {
        let then = b.commands@[i];
    } else {
        assert(!crate::commands::is_held(a.commands@[i], id, instance) || !a.is_registered(
            adapter,
            instance,
        ));
    }
}

/// What has become of a command is told as it stands.
pub proof fn commands_are_told(row: CommandRow, s: AhpCommandStatusRecord)
    requires
        crate::commands::shows_command(row, s),
    ensures
        s.command_id == row.command_id,
        s.kind == row.kind,
        s.error_code == row.error_code,
        row.result is None ==> s.result is None,
        row.result matches Some(j) ==> (s.result matches Some(k) && k@ == j@),
        row.progress is None ==> s.progress is None,
        row.progress matches Some(p) ==> (s.progress matches Some(q) && q.progress == p.progress
            && q.total == p.total && q.message == p.message),
        row.state == CommandState::Pending ==> s.state@ == "pending"@,
        row.state == CommandState::Leased ==> s.state@ == "leased"@,
        row.state == CommandState::Acked ==> s.state@ == "acked"@,
        row.state == CommandState::Rejected ==> s.state@ == "rejected"@,
        row.state == CommandState::Failed ==> s.state@ == "failed"@,
{
}

/// What a message was is noted with it, and with no other.
pub proof fn messages_are_marked(
    a: Database,
    b: Database,
    message: Seq<char>,
    kind: Seq<char>,
    now: i64,
    i: int,
)
    requires
        crate::messages::message_marked(a, b, message, kind, now),
        0 <= i < a.inbound@.len(),
    ensures
        b.inbound@.len() == a.inbound@.len(),
        a.inbound@[i].message_id@ == message ==> b.inbound@[i].kind@ == kind
            && b.inbound@[i].consumed_at == Some(now) && b.inbound@[i].message_id
            == a.inbound@[i].message_id && b.inbound@[i].content == a.inbound@[i].content,
        a.inbound@[i].message_id@ != message ==> b.inbound@[i] == a.inbound@[i],
{
    let then = b.inbound@[i];
}

/// Each part of a delivery is counted once, where there is such a delivery.
pub proof fn parts_are_counted_once(
    a: Database,
    b: Database,
    id: u128,
    index: u32,
    now: i64,
    r: Result<(), Failure>,
    i: int,
)
    requires
        crate::messages::part_outcome(a, b, id, index, now, r),
        0 <= i < a.deliveries@.len(),
        a.deliveries@[i].delivery_id == id,
    ensures
        r is Ok <==> forall|j: int|
            0 <= j < a.sent@.len() ==> (#[trigger] a.sent@[j]).delivery_id != id
                || a.sent@[j].message_index != index,
        r is Err ==> b == a,
        r is Ok ==> b.sent@.len() == a.sent@.len() + 1 && b.sent@.last().delivery_id == id
            && b.sent@.last().message_index == index && b.sent@.last().sent_at == now,
        r is Ok ==> forall|j: int| 0 <= j < a.sent@.len() ==> #[trigger] b.sent@[j] == a.sent@[j],
{
    let p = crate::messages::delivery_numbered(id);
    lemma_some_first(a.deliveries@, p, i);
}

proof fn lemma_some_first<T>(rows: Seq<T>, p: spec_fn(T) -> bool, i: int)
    requires
        0 <= i < rows.len(),
        p(rows[i]),
    ensures
        first(rows, p) is Some,
    decreases rows.len(),
{
    if !p(rows[0]) {
        assert(rows.skip(1)[i - 1] == rows[i]);
        lemma_some_first(rows.skip(1), p, i - 1);
    }
}

/// An object that the adapter is asked for is asked for once, under its key, with what
/// was given; what is asked for again under a key changes nothing.
pub proof fn wishes_are_queued(
    a: Database,
    b: Database,
    key: Seq<char>,
    binding: Seq<char>,
    generation: i64,
    kind: AhpCommandKind,
    data: Tree,
    now: i64,
    id: i64,
)
    requires
        enqueued(a, b, key, binding, generation, kind, data, now, id),
        forall|i: int| 0 <= i < a.commands@.len() ==> (#[trigger] a.commands@[i]).command_key@ != key,
    ensures
        b.commands@.len() == a.commands@.len() + 1,
        forall|i: int| 0 <= i < a.commands@.len() ==> #[trigger] b.commands@[i] == a.commands@[i],
        ({
            let c = b.commands@.last();
            &&& c.command_id == id
            &&& c.command_key@ == key
            &&& c.binding_id@ == binding
            &&& c.binding_generation == generation
            &&& c.kind == kind
            &&& c.state == CommandState::Pending
            &&& c.lease_owner is None
            &&& c.result is None
            &&& c.error_code is None
            &&& c.created_at == now
        }),
        b.bindings == a.bindings,
{
    let p = crate::bindings::with_key(key);
    assert forall|i: int| 0 <= i < a.commands@.len() implies !p(#[trigger] a.commands@[i]) by {}
    lemma_first_none(a.commands@, p);
}

/// A session waits while the owner is asked, and works again afterwards; other sessions,
/// and sessions that have stopped, are left alone.
pub proof fn sessions_wait_at_word(
    a: Database,
    b: Database,
    session: Seq<char>,
    waiting: bool,
    now: i64,
    i: int,
)
    requires
        crate::agents::waiting_outcome(a, b, session, waiting, now),
        0 <= i < a.sessions@.len(),
    ensures
        b == (Database { sessions: b.sessions, ..a }),
        b.sessions@.len() == a.sessions@.len(),
        ({
            let p = a.sessions@[i];
            let q = b.sessions@[i];
            &&& p.session_id@ == session && waiting && p.state == SessionState::Active ==> q == (
            SessionRow { state: SessionState::Waiting, updated_at: now, ..p })
            &&& p.session_id@ == session && !waiting && p.state == SessionState::Waiting ==> q == (
            SessionRow { state: SessionState::Active, updated_at: now, ..p })
            &&& p.session_id@ != session || (p.state != SessionState::Active && p.state
                != SessionState::Waiting) ==> q == p
        }),
{
    if waiting {
        assert(b.sessions@[i] == crate::agents::pause_session(a.sessions@[i], session, now));
    } else {
        assert(b.sessions@[i] == crate::agents::resume_session(a.sessions@[i], session, now));
    }
}

/// The last message of a session that runs is counted as sent, and of no other session.
pub proof fn last_messages_are_counted(
    a: Database,
    b: Database,
    session: Seq<char>,
    now: i64,
    r: Result<(), Failure>,
    i: int,
)
    requires
        a.wf(),
        crate::agents::final_outcome(a, b, session, now, r),
        0 <= i < a.sessions@.len(),
    ensures
        ({
            let p = a.sessions@[i];
            let runs = p.state == SessionState::Active || p.state == SessionState::Waiting;
            &&& p.session_id@ == session && runs ==> r is Ok && b.sessions@[i] == (SessionRow {
                final_sent: true,
                updated_at: now,
                ..p
            })
            &&& p.session_id@ == session && !runs ==> r is Err && b == a
            &&& p.session_id@ != session ==> b.sessions@[i] == p
        }),
{
    let p = with_session_id(session);
    lemma_first_holds(a.sessions@, p);
    if a.sessions@[i].session_id@ == session {
        assert(p(a.sessions@[i]));
        assert(first(a.sessions@, p) is Some);
        let k = choose|k: int|
            0 <= k < a.sessions@.len() && #[trigger] a.sessions@[k] == first(a.sessions@, p)->0
                && p(a.sessions@[k]);
        assert(k == i);
    }
}

/// A question that nobody answered in time lapses, and its session works again.
pub proof fn questions_lapse(a: Database, b: Database, id: u128, now: i64, i: int, j: int)
    requires
        a.wf(),
        crate::agents::lapse_outcome(a, b, id, now),
        0 <= i < a.questions@.len(),
        0 <= j < a.sessions@.len(),
    ensures
        ({
            let p = a.questions@[i];
            let s = a.sessions@[j];
            &&& p.question_id == id && p.state == QuestionState::Pending ==> b.questions@[i] == (
            QuestionRow { state: QuestionState::Expired, updated_at: now, ..p })
            &&& p.question_id != id || p.state != QuestionState::Pending ==> b.questions@[i] == p
            &&& p.question_id == id && p.state == QuestionState::Pending && s.session_id@
                == p.session_id@ && s.state == SessionState::Waiting ==> b.sessions@[j] == (
            SessionRow { state: SessionState::Active, updated_at: now, ..s })
            &&& s.state != SessionState::Waiting ==> b.sessions@[j] == s
        }),
{
    assert(b.questions@[i] == crate::agents::lapse_question(a.questions@[i], id, now));
    let p = crate::agents::waiting_question(id);
    lemma_first_holds(a.questions@, p);
    if a.questions@[i].question_id == id && a.questions@[i].state == QuestionState::Pending {
        assert(p(a.questions@[i]));
        assert(first(a.questions@, p) is Some);
        let k = choose|k: int|
            0 <= k < a.questions@.len() && #[trigger] a.questions@[k] == first(a.questions@, p)->0
                && p(a.questions@[k]);
        assert(k == i);
    }
}

/// A call is denied where the owner could not be asked.
pub proof fn calls_are_denied_where_nobody_is_asked(
    a: Database,
    b: Database,
    id: u128,
    outcome: Seq<char>,
    now: i64,
    i: int,
)
    requires
        crate::agents::undelivered_outcome(a, b, id, outcome, now),
        0 <= i < a.approvals@.len(),
    ensures
        ({
            let p = a.approvals@[i];
            &&& p.approval_id == id && p.state == ApprovalState::Pending ==> b.approvals@[i] == (
            ApprovalRow { state: ApprovalState::Denied, updated_at: now, ..p })
            &&& p.approval_id != id || p.state != ApprovalState::Pending ==> b.approvals@[i] == p
        }),
        b.audit@.len() == a.audit@.len() + 1,
        b.audit@.last().event_type@ == "approval_notification_failed"@,
        b.audit@.last().outcome@ == outcome,
        b == (Database { approvals: b.approvals, audit: b.audit, ..a }),
{
    assert(b.approvals@[i] == crate::agents::refuse_approval(a.approvals@[i], id, now));
}

/// A button that is pressed is noted once, as it was told.
pub proof fn presses_are_noted_once(
    a: Database,
    b: Database,
    interaction: Seq<char>,
    event: Seq<char>,
    user: Seq<char>,
    data: Seq<char>,
    now: i64,
    r: bool,
)
    requires
        crate::interactions::press_outcome(a, b, interaction, event, user, data, now, r),
    ensures
        r <==> forall|i: int|
            0 <= i < a.interactions@.len() ==> (#[trigger] a.interactions@[i]).interaction_id@
                != interaction,
        !r ==> b == a,
        r ==> b == (Database { interactions: b.interactions, ..a }) && b.interactions@.len()
            == a.interactions@.len() + 1 && b.interactions@.drop_last() == a.interactions@,
        r ==> b.interactions@.last().interaction_id@ == interaction
            && b.interactions@.last().outer_event_id@ == event && b.interactions@.last().user_openid@
            == user && b.interactions@.last().ack_code is None && b.interactions@.last().created_at
            == now,
{
    let p = crate::interactions::interaction_named(interaction);
    lemma_first_holds(a.interactions@, p);
    assert forall|i: int| 0 <= i < a.interactions@.len() && first(a.interactions@, p) is None implies (
    #[trigger] a.interactions@[i]).interaction_id@ != interaction by {
        assert(!p(a.interactions@[i]));
    }
    if r {
        assert(b.interactions@.drop_last() =~= a.interactions@);
    }
}

/// A question is found by its code.
pub proof fn questions_are_found_by_code(row: QuestionRow, code: Seq<char>)
    ensures
        (crate::agents::question_coded(code))(row) <==> row.short_code@ == code,
{
}

} // verus!
