//! What the bridge does to its tables from time to time: it picks up the pieces
//! after a restart, and throws away what is no longer needed.
use vstd::prelude::*;
use vstd::string::*;

use crate::agents::{all_lapse_approval, apply_lapse_approval, usable_code};
use crate::commands::expired;
use crate::config::{failure, Failure};
use crate::events::{
    broken_reference, direct_delivery_key, direct_key, has_failed, is_partly_sent, is_replayable,
    was_sent,
};
use crate::protocol::ApprovalState;
use crate::store::{
    approvals_wf, catalog_wf, commands_wf, deliveries_wf, has_host, has_session, inbound_wf,
    is_running, questions_wf, sessions_wf, ApprovalRow, AuditRow, BindingCodeRow, BindingRow,
    CatalogRow, CommandRow, CommandState, Database, DeliveryRow, DeliveryStatus, EventRow,
    HostRow, InboundRow, InteractionRow, ProjectionRow, QuestionRow, QuestionState, SentRow,
    SessionRow, SessionState, SwitchButtonRow,
};
use crate::tables::{
    lemma_filter_all, lemma_filter_keeps, lemma_filter_pairs, lemma_filter_unique, opt_is, retain,
    unique,
};
use crate::text::{opt_view, str_eq};
use crate::wizard::tidied;

verus! {

broadcast use vstd::string::group_string_axioms;

// ---------------------------------------------------------------------------
// After a restart

/// A delivery that had not ended may have gone through.
pub open spec fn doubt_delivery(p: DeliveryRow, q: DeliveryRow, now: i64) -> bool {
    if p.status == DeliveryStatus::Pending {
        q == (DeliveryRow {
            status: DeliveryStatus::InDoubt,
            updated_at: now,
            error_code: q.error_code,
            ..p
        }) && opt_view(q.error_code) == Some("daemon_restarted"@)
    } else {
        q == p
    }
}

/// Whether each row of `b` is the row of `a` in its place after that change.
pub open spec fn all_doubt_delivery(a: Seq<DeliveryRow>, b: Seq<DeliveryRow>, now: i64) -> bool {
    a.len() == b.len() && forall|i: int| 0 <= i < a.len() ==> doubt_delivery(a[i], #[trigger] b[i], now)
}

fn apply_doubt_delivery(rows: &mut Vec<DeliveryRow>, now: i64)
    ensures
        all_doubt_delivery(old(rows)@, final(rows)@, now),
{
    let ghost a = rows@;
    let mut i: usize = 0;
    while i < rows.len()
        invariant
            i <= rows@.len(),
            rows@.len() == a.len(),
            forall|j: int| 0 <= j < i ==> doubt_delivery(a[j], #[trigger] rows@[j], now),
            forall|j: int| i <= j < rows@.len() ==> #[trigger] rows@[j] == a[j],
        decreases rows@.len() - i,
    {
        if rows[i].status == DeliveryStatus::Pending {
            rows[i].status = DeliveryStatus::InDoubt;
            rows[i].updated_at = now;
            rows[i].error_code = Some("daemon_restarted".to_owned());
        }
        i += 1;
    }
}

/// Whether a delivery has that key.
pub open spec fn has_key(rows: Seq<DeliveryRow>, key: Seq<char>) -> bool {
    exists|i: int| 0 <= i < rows.len() && (#[trigger] rows[i]).idempotency_key@ == key
}

fn any_key(rows: &Vec<DeliveryRow>, key: &str) -> (r: bool)
    ensures
        r == has_key(rows@, key@),
{
    let mut i: usize = 0;
    while i < rows.len()
        invariant
            i <= rows@.len(),
            forall|j: int| 0 <= j < i ==> (#[trigger] rows@[j]).idempotency_key@ != key@,
        decreases rows@.len() - i,
    {
        if str_eq(rows[i].idempotency_key.as_str(), key) {
            return true;
        }
        i += 1;
    }
    false
}

/// Whether nothing was done yet to tell the owner of the event.
pub open spec fn is_orphan(p: ProjectionRow, deliveries: Seq<DeliveryRow>) -> bool {
    &&& !p.delivered
    &&& p.last_error is None
    &&& p.replay_key is None
    &&& !has_key(deliveries, direct_key(p.event_id@))
}

fn is_untold(p: &ProjectionRow, deliveries: &Vec<DeliveryRow>) -> (r: bool)
    ensures
        r == is_orphan(*p, deliveries@),
{
    if p.delivered || p.last_error.is_some() || p.replay_key.is_some() {
        return false;
    }
    let key = direct_delivery_key(p.event_id.as_str());
    !any_key(deliveries, key.as_str())
}

/// A message that the owner was not told of counts as one that failed.
pub open spec fn retry_projection(p: ProjectionRow, q: ProjectionRow, deliveries: Seq<DeliveryRow>, now: i64) -> bool {
    if is_orphan(p, deliveries) {
        q == (ProjectionRow {
            attempts: (p.attempts + 1) as u64,
            updated_at: now,
            last_error: q.last_error,
            ..p
        }) && opt_view(q.last_error) == Some("daemon_restarted"@)
    } else {
        q == p
    }
}

/// Whether each row of `b` is the row of `a` in its place after that change.
pub open spec fn all_retry_projection(a: Seq<ProjectionRow>, b: Seq<ProjectionRow>, deliveries: Seq<DeliveryRow>, now: i64) -> bool {
    a.len() == b.len() && forall|i: int| 0 <= i < a.len() ==> retry_projection(a[i], #[trigger] b[i], deliveries, now)
}

fn apply_retry_projection(rows: &mut Vec<ProjectionRow>, deliveries: &Vec<DeliveryRow>, now: i64)
    requires
        forall|i: int| 0 <= i < old(rows)@.len() ==> (#[trigger] old(rows)@[i]).attempts < u64::MAX,
    ensures
        all_retry_projection(old(rows)@, final(rows)@, deliveries@, now),
{
    let ghost a = rows@;
    let mut i: usize = 0;
    while i < rows.len()
        invariant
            i <= rows@.len(),
            rows@.len() == a.len(),
            forall|j: int| 0 <= j < a.len() ==> (#[trigger] a[j]).attempts < u64::MAX,
            forall|j: int| 0 <= j < i ==> retry_projection(a[j], #[trigger] rows@[j], deliveries@, now),
            forall|j: int| i <= j < rows@.len() ==> #[trigger] rows@[j] == a[j],
        decreases rows@.len() - i,
    {
        if is_untold(&rows[i], deliveries) {
            assert(a[i as int].attempts < u64::MAX);
            rows[i].attempts += 1;
            rows[i].updated_at = now;
            rows[i].last_error = Some("daemon_restarted".to_owned());
        }
        i += 1;
    }
}

/// An approval that was waited for is denied, and what became of an allowed tool call is not known.
pub open spec fn break_off_approval(p: ApprovalRow, now: i64) -> ApprovalRow {
    if p.state == ApprovalState::Pending || p.state == ApprovalState::Allowed {
        ApprovalRow {
            state: if p.state == ApprovalState::Pending {
                ApprovalState::Denied
            } else {
                ApprovalState::UnknownFailure
            },
            updated_at: now,
            ..p
        }
    } else {
        p
    }
}

/// Whether each row of `b` is the row of `a` in its place after that change.
pub open spec fn all_break_off_approval(a: Seq<ApprovalRow>, b: Seq<ApprovalRow>, now: i64) -> bool {
    a.len() == b.len() && forall|i: int|
        0 <= i < a.len() ==> #[trigger] b[i] == break_off_approval(a[i], now)
}

pub(crate) fn apply_break_off_approval(rows: &mut Vec<ApprovalRow>, now: i64)
    ensures
        all_break_off_approval(old(rows)@, final(rows)@, now),
{
    let ghost a = rows@;
    let mut i: usize = 0;
    while i < rows.len()
        invariant
            i <= rows@.len(),
            rows@.len() == a.len(),
            forall|j: int| 0 <= j < i ==> #[trigger] rows@[j] == break_off_approval(a[j], now),
            forall|j: int| i <= j < rows@.len() ==> #[trigger] rows@[j] == a[j],
        decreases rows@.len() - i,
    {
        if rows[i].state == ApprovalState::Pending || rows[i].state == ApprovalState::Allowed {
            rows[i].state = if rows[i].state == ApprovalState::Pending {
                ApprovalState::Denied
            } else {
                ApprovalState::UnknownFailure
            };
            rows[i].updated_at = now;
        }
        i += 1;
    }
}

/// A question that was waited for is taken back.
pub open spec fn break_off_question(p: QuestionRow, now: i64) -> QuestionRow {
    if p.state == QuestionState::Pending {
        QuestionRow {
            state: QuestionState::Cancelled,
            answer: None,
            updated_at: now,
            ..p
        }
    } else {
        p
    }
}

/// Whether each row of `b` is the row of `a` in its place after that change.
pub open spec fn all_break_off_question(a: Seq<QuestionRow>, b: Seq<QuestionRow>, now: i64) -> bool {
    a.len() == b.len() && forall|i: int|
        0 <= i < a.len() ==> #[trigger] b[i] == break_off_question(a[i], now)
}

pub(crate) fn apply_break_off_question(rows: &mut Vec<QuestionRow>, now: i64)
    ensures
        all_break_off_question(old(rows)@, final(rows)@, now),
{
    let ghost a = rows@;
    let mut i: usize = 0;
    while i < rows.len()
        invariant
            i <= rows@.len(),
            rows@.len() == a.len(),
            forall|j: int| 0 <= j < i ==> #[trigger] rows@[j] == break_off_question(a[j], now),
            forall|j: int| i <= j < rows@.len() ==> #[trigger] rows@[j] == a[j],
        decreases rows@.len() - i,
    {
        if rows[i].state == QuestionState::Pending {
            rows[i].state = QuestionState::Cancelled;
            rows[i].answer = None;
            rows[i].updated_at = now;
        }
        i += 1;
    }
}

/// A message that was queued is thrown away.
pub open spec fn discard_message(p: InboundRow, q: InboundRow, now: i64) -> bool {
    if p.kind@ == "queued"@ && p.consumed_at is None {
        q == (InboundRow {
            content: None,
            consumed_at: Some(now),
            kind: q.kind,
            ..p
        }) && q.kind@ == "discarded"@
    } else {
        q == p
    }
}

/// Whether each row of `b` is the row of `a` in its place after that change.
pub open spec fn all_discard_message(a: Seq<InboundRow>, b: Seq<InboundRow>, now: i64) -> bool {
    a.len() == b.len() && forall|i: int| 0 <= i < a.len() ==> discard_message(a[i], #[trigger] b[i], now)
}

fn apply_discard_message(rows: &mut Vec<InboundRow>, now: i64)
    ensures
        all_discard_message(old(rows)@, final(rows)@, now),
{
    let ghost a = rows@;
    let mut i: usize = 0;
    while i < rows.len()
        invariant
            i <= rows@.len(),
            rows@.len() == a.len(),
            forall|j: int| 0 <= j < i ==> discard_message(a[j], #[trigger] rows@[j], now),
            forall|j: int| i <= j < rows@.len() ==> #[trigger] rows@[j] == a[j],
        decreases rows@.len() - i,
    {
        if str_eq(rows[i].kind.as_str(), "queued") && rows[i].consumed_at.is_none() {
            rows[i].content = None;
            rows[i].consumed_at = Some(now);
            rows[i].kind = "discarded".to_owned();
        }
        i += 1;
    }
}

/// A running session is lost.
pub open spec fn lose_session(p: SessionRow, now: i64) -> SessionRow {
    if is_running(p) {
        SessionRow {
            state: SessionState::Lost,
            updated_at: now,
            ..p
        }
    } else {
        p
    }
}

/// Whether each row of `b` is the row of `a` in its place after that change.
pub open spec fn all_lose_session(a: Seq<SessionRow>, b: Seq<SessionRow>, now: i64) -> bool {
    a.len() == b.len() && forall|i: int|
        0 <= i < a.len() ==> #[trigger] b[i] == lose_session(a[i], now)
}

pub(crate) fn apply_lose_session(rows: &mut Vec<SessionRow>, now: i64)
    ensures
        all_lose_session(old(rows)@, final(rows)@, now),
{
    let ghost a = rows@;
    let mut i: usize = 0;
    while i < rows.len()
        invariant
            i <= rows@.len(),
            rows@.len() == a.len(),
            forall|j: int| 0 <= j < i ==> #[trigger] rows@[j] == lose_session(a[j], now),
            forall|j: int| i <= j < rows@.len() ==> #[trigger] rows@[j] == a[j],
        decreases rows@.len() - i,
    {
        if rows[i].state == SessionState::Active || rows[i].state == SessionState::Waiting {
            rows[i].state = SessionState::Lost;
            rows[i].updated_at = now;
        }
        i += 1;
    }
}

/// Whether `b` is `a` after a restart.
pub open spec fn recovered(a: Database, b: Database, now: i64) -> bool {
    &&& b == (Database {
        deliveries: b.deliveries,
        projections: b.projections,
        approvals: b.approvals,
        questions: b.questions,
        inbound: b.inbound,
        sessions: b.sessions,
        ..a
    })
    &&& all_doubt_delivery(a.deliveries@, b.deliveries@, now)
    &&& all_retry_projection(a.projections@, b.projections@, b.deliveries@, now)
    &&& all_break_off_approval(a.approvals@, b.approvals@, now)
    &&& all_break_off_question(a.questions@, b.questions@, now)
    &&& all_discard_message(a.inbound@, b.inbound@, now)
    &&& all_lose_session(a.sessions@, b.sessions@, now)
}

impl Database {
    /// Picks up the pieces after a restart: what was under way may or may not have
    /// happened, and nobody waits for it any longer.
    pub fn recover_interrupted_state(&mut self, now: i64)
        requires
            old(self).wf(),
            old(self).attempts_left(),
        ensures
            final(self).wf(),
            recovered(*old(self), *final(self), now),
    {
        let ghost a = *self;
        apply_doubt_delivery(&mut self.deliveries, now);
        apply_retry_projection(&mut self.projections, &self.deliveries, now);
        apply_break_off_approval(&mut self.approvals, now);
        apply_break_off_question(&mut self.questions, now);
        apply_discard_message(&mut self.inbound, now);
        apply_lose_session(&mut self.sessions, now);
        proof {
            lemma_same_session_ids(a.sessions@, self.sessions@);
            assert(inbound_wf(self.inbound@)) by {
                reveal_strlit("queued");
                reveal_strlit("discarded");
                assert("queued"@.len() == 6 && "discarded"@.len() == 9);
                assert forall|i: int, j: int| 0 <= i < j < self.inbound@.len() implies (
                #[trigger] self.inbound@[i]).message_id@ != (
                #[trigger] self.inbound@[j]).message_id@ by {
                    assert(a.inbound@[i].message_id@ != a.inbound@[j].message_id@);
                }
            }
            assert(approvals_wf(self.approvals@, self.sessions@)) by {
                assert forall|i: int| 0 <= i < self.approvals@.len() implies has_session(
                    self.sessions@,
                    (#[trigger] self.approvals@[i]).session_id@,
                ) by {
                    assert(has_session(a.sessions@, a.approvals@[i].session_id@));
                }
            }
            assert(questions_wf(self.questions@, self.sessions@)) by {
                assert forall|i: int| 0 <= i < self.questions@.len() implies has_session(
                    self.sessions@,
                    (#[trigger] self.questions@[i]).session_id@,
                ) by {
                    assert(has_session(a.sessions@, a.questions@[i].session_id@));
                }
            }
        }
    }
}

proof fn lemma_same_session_ids(a: Seq<SessionRow>, b: Seq<SessionRow>)
    requires
        a.len() == b.len(),
        forall|i: int|
            0 <= i < a.len() ==> (#[trigger] b[i]).session_id@ == a[i].session_id@,
    ensures
        forall|id: Seq<char>| #[trigger] has_session(a, id) ==> has_session(b, id),
{
    assert forall|id: Seq<char>| #[trigger] has_session(a, id) implies has_session(b, id) by {
        let i = choose|i: int| 0 <= i < a.len() && (#[trigger] a[i]).session_id@ == id;
        assert(b[i].session_id@ == id);
    }
}

// ---------------------------------------------------------------------------
// Throwing away what is no longer needed

/// How many seconds a day has.
pub const DAY: i64 = 86_400;

/// A question that waited too long has expired.
pub open spec fn void_question(p: QuestionRow, now: i64) -> QuestionRow {
    if p.state == QuestionState::Pending && p.expires_at <= now {
        QuestionRow {
            state: QuestionState::Expired,
            answer: None,
            updated_at: now,
            ..p
        }
    } else {
        p
    }
}

/// Whether each row of `b` is the row of `a` in its place after that change.
pub open spec fn all_void_question(a: Seq<QuestionRow>, b: Seq<QuestionRow>, now: i64) -> bool {
    a.len() == b.len() && forall|i: int|
        0 <= i < a.len() ==> #[trigger] b[i] == void_question(a[i], now)
}

pub(crate) fn apply_void_question(rows: &mut Vec<QuestionRow>, now: i64)
    ensures
        all_void_question(old(rows)@, final(rows)@, now),
{
    let ghost a = rows@;
    let mut i: usize = 0;
    while i < rows.len()
        invariant
            i <= rows@.len(),
            rows@.len() == a.len(),
            forall|j: int| 0 <= j < i ==> #[trigger] rows@[j] == void_question(a[j], now),
            forall|j: int| i <= j < rows@.len() ==> #[trigger] rows@[j] == a[j],
        decreases rows@.len() - i,
    {
        if rows[i].state == QuestionState::Pending && rows[i].expires_at <= now {
            rows[i].state = QuestionState::Expired;
            rows[i].answer = None;
            rows[i].updated_at = now;
        }
        i += 1;
    }
}

/// The condition that a message is still needed: it has not expired, and was not
/// taken a day ago.
pub open spec fn needed_message(now: i64) -> spec_fn(InboundRow) -> bool {
    |r: InboundRow|
        !(r.expires_at matches Some(t) && t <= now) && !(r.consumed_at matches Some(t) && t <= now
            - DAY)
}

/// Whether the owner is still to be told of an event by a delivery with that
/// key.
pub open spec fn is_wanted(projections: Seq<ProjectionRow>, key: Seq<char>) -> bool {
    exists|i: int|
        0 <= i < projections.len() && !(#[trigger] projections[i]).delivered && (key == direct_key(
            projections[i].event_id@,
        ) || opt_view(projections[i].replay_key) == Some(key))
}

/// Whether the delivery with that identifier is one by which the owner is still
/// to be told of an event.
pub open spec fn is_evidence(
    deliveries: Seq<DeliveryRow>,
    projections: Seq<ProjectionRow>,
    id: u128,
) -> bool {
    exists|i: int|
        0 <= i < deliveries.len() && (#[trigger] deliveries[i]).delivery_id == id && is_wanted(
            projections,
            deliveries[i].idempotency_key@,
        )
}

/// The condition that it is still needed to know that a part was sent.
pub open spec fn needed_sent(
    deliveries: Seq<DeliveryRow>,
    projections: Seq<ProjectionRow>,
    cutoff: int,
) -> spec_fn(SentRow) -> bool {
    |r: SentRow| r.sent_at >= cutoff || is_evidence(deliveries, projections, r.delivery_id)
}

/// The condition that a delivery is still needed.
pub open spec fn needed_delivery(projections: Seq<ProjectionRow>, cutoff: int) -> spec_fn(
    DeliveryRow,
) -> bool {
    |r: DeliveryRow|
        r.status == DeliveryStatus::Pending || r.updated_at >= cutoff || is_wanted(
            projections,
            r.idempotency_key@,
        )
}

/// The condition that a question is still needed.
pub open spec fn needed_question(cutoff: int) -> spec_fn(QuestionRow) -> bool {
    |r: QuestionRow| r.state == QuestionState::Pending || r.updated_at >= cutoff
}

/// The condition that an approval is still needed.
pub open spec fn needed_approval(cutoff: int) -> spec_fn(ApprovalRow) -> bool {
    |r: ApprovalRow| r.state == ApprovalState::Pending || r.updated_at >= cutoff
}

/// The condition that a session is still needed.
pub open spec fn needed_session(cutoff: int) -> spec_fn(SessionRow) -> bool {
    |r: SessionRow| is_running(r) || r.updated_at >= cutoff
}

/// The condition that it is still needed to remember something.
pub open spec fn needed_audit(cutoff: int) -> spec_fn(AuditRow) -> bool {
    |r: AuditRow| r.occurred_at >= cutoff
}

/// Whether `b` is `a` without the messages, codes and signs of sending that are
/// no longer needed; what waited too long has expired.
pub open spec fn cleared(a: Database, b: Database, cutoff: int, now: i64) -> bool {
    &&& b == (Database {
        approvals: b.approvals,
        questions: b.questions,
        inbound: b.inbound,
        binding_codes: b.binding_codes,
        sent: b.sent,
        ..a
    })
    &&& all_lapse_approval(a.approvals@, b.approvals@, now)
    &&& all_void_question(a.questions@, b.questions@, now)
    &&& b.inbound@ == a.inbound@.filter(needed_message(now))
    &&& b.binding_codes@ == a.binding_codes@.filter(usable_code(now))
    &&& b.sent@ == a.sent@.filter(needed_sent(a.deliveries@, a.projections@, cutoff))
}

/// Whether a delivery that is no longer needed is still known to have been sent
/// in part.
pub open spec fn some_delivery_held(db: Database, cutoff: int) -> bool {
    exists|i: int|
        0 <= i < db.deliveries@.len() && !(needed_delivery(db.projections@, cutoff))(
            #[trigger] db.deliveries@[i],
        ) && was_sent(db.sent@, db.deliveries@[i].delivery_id)
}

/// Whether `b` is `a` without the deliveries, questions and approvals that are no
/// longer needed.
pub open spec fn thinned(a: Database, b: Database, cutoff: int) -> bool {
    &&& b == (Database {
        deliveries: b.deliveries,
        questions: b.questions,
        approvals: b.approvals,
        ..a
    })
    &&& b.deliveries@ == a.deliveries@.filter(needed_delivery(a.projections@, cutoff))
    &&& b.questions@ == a.questions@.filter(needed_question(cutoff))
    &&& b.approvals@ == a.approvals@.filter(needed_approval(cutoff))
}

/// Whether something still refers to the session.
pub open spec fn is_referred(db: Database, session: Seq<char>) -> bool {
    ||| exists|i: int|
        0 <= i < db.approvals@.len() && (#[trigger] db.approvals@[i]).session_id@ == session
    ||| exists|i: int|
        0 <= i < db.questions@.len() && (#[trigger] db.questions@[i]).session_id@ == session
    ||| exists|i: int|
        0 <= i < db.inbound@.len() && opt_view((#[trigger] db.inbound@[i]).session_id) == Some(
            session,
        )
    ||| exists|i: int|
        0 <= i < db.deliveries@.len() && opt_view((#[trigger] db.deliveries@[i]).session_id)
            == Some(session)
}

/// Whether something still refers to a session that is no longer needed.
pub open spec fn some_session_held(db: Database, cutoff: int) -> bool {
    exists|i: int|
        0 <= i < db.sessions@.len() && !(needed_session(cutoff))(#[trigger] db.sessions@[i])
            && is_referred(db, db.sessions@[i].session_id@)
}

/// What comes of throwing away what is no longer needed. Where something still
/// refers to a delivery or a session that is to go, it stops there.
pub open spec fn purge_outcome(
    a: Database,
    b: Database,
    cutoff: int,
    now: i64,
    r: Result<(), Failure>,
) -> bool {
    exists|m: Database|
        {
            &&& #[trigger] cleared(a, m, cutoff, now)
            &&& if some_delivery_held(m, cutoff) {
                b == m && (r matches Err(f) && f.message@ == broken_reference())
            } else {
                exists|t: Database|
                    {
                        &&& #[trigger] thinned(m, t, cutoff)
                        &&& if some_session_held(t, cutoff) {
                            b == t && (r matches Err(f) && f.message@ == broken_reference())
                        } else {
                            &&& r matches Ok(())
                            &&& b == (Database { sessions: b.sessions, audit: b.audit, ..t })
                            &&& b.sessions@ == t.sessions@.filter(needed_session(cutoff))
                            &&& b.audit@ == t.audit@.filter(needed_audit(cutoff))
                        }
                    }
            }
        }
}

fn is_still_wanted(projections: &Vec<ProjectionRow>, key: &str) -> (r: bool)
    ensures
        r == is_wanted(projections@, key@),
{
    let mut i: usize = 0;
    while i < projections.len()
        invariant
            i <= projections@.len(),
            forall|j: int|
                0 <= j < i ==> !(!(#[trigger] projections@[j]).delivered && (key@ == direct_key(
                    projections@[j].event_id@,
                ) || opt_view(projections@[j].replay_key) == Some(key@))),
        decreases projections@.len() - i,
    {
        let p = &projections[i];
        if !p.delivered {
            let direct = direct_delivery_key(p.event_id.as_str());
            if str_eq(direct.as_str(), key) || opt_is(&p.replay_key, key) {
                return true;
            }
        }
        i += 1;
    }
    false
}

fn is_still_evidence(
    deliveries: &Vec<DeliveryRow>,
    projections: &Vec<ProjectionRow>,
    id: u128,
) -> (r: bool)
    ensures
        r == is_evidence(deliveries@, projections@, id),
{
    let mut i: usize = 0;
    while i < deliveries.len()
        invariant
            i <= deliveries@.len(),
            forall|j: int|
                0 <= j < i ==> !((#[trigger] deliveries@[j]).delivery_id == id && is_wanted(
                    projections@,
                    deliveries@[j].idempotency_key@,
                )),
        decreases deliveries@.len() - i,
    {
        if deliveries[i].delivery_id == id && is_still_wanted(
            projections,
            deliveries[i].idempotency_key.as_str(),
        ) {
            return true;
        }
        i += 1;
    }
    false
}

fn is_delivery_needed(r: &DeliveryRow, projections: &Vec<ProjectionRow>, cutoff: i64) -> (b: bool)
    ensures
        b == (needed_delivery(projections@, cutoff as int))(*r),
{
    r.status == DeliveryStatus::Pending || r.updated_at >= cutoff || is_still_wanted(
        projections,
        r.idempotency_key.as_str(),
    )
}

proof fn lemma_fewer_approvals(
    rows: Seq<ApprovalRow>,
    sessions: Seq<SessionRow>,
    p: spec_fn(ApprovalRow) -> bool,
)
    requires
        approvals_wf(rows, sessions),
    ensures
        approvals_wf(rows.filter(p), sessions),
{
    let rel = |x: ApprovalRow, y: ApprovalRow| x.approval_id != y.approval_id;
    assert forall|i: int, j: int| 0 <= i < j < rows.len() implies rel(
        #[trigger] rows[i],
        #[trigger] rows[j],
    ) by {}
    lemma_filter_pairs(rows, p, rel);
    assert forall|i: int, j: int| 0 <= i < j < rows.filter(p).len() implies (
    #[trigger] rows.filter(p)[i]).approval_id != (#[trigger] rows.filter(p)[j]).approval_id by {
        assert(rel(rows.filter(p)[i], rows.filter(p)[j]));
    }
    lemma_filter_unique(rows, |r: ApprovalRow| r.short_code@, p);
    lemma_filter_unique(rows, |r: ApprovalRow| r.idempotency_key@, p);
    let known = |r: ApprovalRow| has_session(sessions, r.session_id@);
    assert forall|i: int| 0 <= i < rows.len() implies known(#[trigger] rows[i]) by {}
    lemma_filter_all(rows, p, known);
    assert forall|i: int| 0 <= i < rows.filter(p).len() implies has_session(
        sessions,
        (#[trigger] rows.filter(p)[i]).session_id@,
    ) by {
        assert(known(rows.filter(p)[i]));
    }
}

proof fn lemma_fewer_questions(
    rows: Seq<QuestionRow>,
    sessions: Seq<SessionRow>,
    p: spec_fn(QuestionRow) -> bool,
)
    requires
        questions_wf(rows, sessions),
    ensures
        questions_wf(rows.filter(p), sessions),
{
    let rel = |x: QuestionRow, y: QuestionRow| x.question_id != y.question_id;
    assert forall|i: int, j: int| 0 <= i < j < rows.len() implies rel(
        #[trigger] rows[i],
        #[trigger] rows[j],
    ) by {}
    lemma_filter_pairs(rows, p, rel);
    assert forall|i: int, j: int| 0 <= i < j < rows.filter(p).len() implies (
    #[trigger] rows.filter(p)[i]).question_id != (#[trigger] rows.filter(p)[j]).question_id by {
        assert(rel(rows.filter(p)[i], rows.filter(p)[j]));
    }
    lemma_filter_unique(rows, |r: QuestionRow| r.short_code@, p);
    let known = |r: QuestionRow| has_session(sessions, r.session_id@);
    assert forall|i: int| 0 <= i < rows.len() implies known(#[trigger] rows[i]) by {}
    lemma_filter_all(rows, p, known);
    assert forall|i: int| 0 <= i < rows.filter(p).len() implies has_session(
        sessions,
        (#[trigger] rows.filter(p)[i]).session_id@,
    ) by {
        assert(known(rows.filter(p)[i]));
    }
}

proof fn lemma_fewer_deliveries(rows: Seq<DeliveryRow>, p: spec_fn(DeliveryRow) -> bool)
    requires
        deliveries_wf(rows),
    ensures
        deliveries_wf(rows.filter(p)),
{
    let rel = |x: DeliveryRow, y: DeliveryRow| x.delivery_id != y.delivery_id;
    assert forall|i: int, j: int| 0 <= i < j < rows.len() implies rel(
        #[trigger] rows[i],
        #[trigger] rows[j],
    ) by {}
    lemma_filter_pairs(rows, p, rel);
    assert forall|i: int, j: int| 0 <= i < j < rows.filter(p).len() implies (
    #[trigger] rows.filter(p)[i]).delivery_id != (#[trigger] rows.filter(p)[j]).delivery_id by {
        assert(rel(rows.filter(p)[i], rows.filter(p)[j]));
    }
    lemma_filter_unique(rows, |r: DeliveryRow| r.idempotency_key@, p);
}

proof fn lemma_fewer_messages(rows: Seq<InboundRow>, p: spec_fn(InboundRow) -> bool)
    requires
        inbound_wf(rows),
    ensures
        inbound_wf(rows.filter(p)),
{
    lemma_filter_unique(rows, |r: InboundRow| r.message_id@, p);
    let whole = |r: InboundRow|
        r.kind@ == "queued"@ && r.consumed_at is None ==> r.content is Some;
    assert forall|i: int| 0 <= i < rows.len() implies whole(#[trigger] rows[i]) by {}
    lemma_filter_all(rows, p, whole);
    assert forall|i: int|
        0 <= i < rows.filter(p).len() && (#[trigger] rows.filter(p)[i]).kind@ == "queued"@
            && rows.filter(p)[i].consumed_at is None implies rows.filter(p)[i].content is Some by {
        assert(whole(rows.filter(p)[i]));
    }
}

/// A session that is referred to stays where none is thrown away that is.
proof fn lemma_fewer_sessions(db: Database, cutoff: int)
    requires
        db.wf(),
        !some_session_held(db, cutoff),
    ensures
        sessions_wf(db.sessions@.filter(needed_session(cutoff))),
        approvals_wf(db.approvals@, db.sessions@.filter(needed_session(cutoff))),
        questions_wf(db.questions@, db.sessions@.filter(needed_session(cutoff))),
{
    let p = needed_session(cutoff);
    let kept = db.sessions@.filter(p);
    lemma_filter_unique(db.sessions@, |r: SessionRow| r.session_id@, p);
    lemma_filter_unique(db.sessions@, |r: SessionRow| r.short_code@, p);
    assert forall|id: Seq<char>| #[trigger]
        has_session(db.sessions@, id) && is_referred(db, id) implies has_session(kept, id) by {
        let i = choose|i: int|
            0 <= i < db.sessions@.len() && (#[trigger] db.sessions@[i]).session_id@ == id;
        assert(p(db.sessions@[i]));
        lemma_filter_keeps(db.sessions@, p, i);
        let k = choose|k: int| 0 <= k < kept.len() && kept[k] == db.sessions@[i];
        assert(kept[k].session_id@ == id);
    }
    assert forall|i: int| 0 <= i < db.approvals@.len() implies has_session(
        kept,
        (#[trigger] db.approvals@[i]).session_id@,
    ) by {
        assert(has_session(db.sessions@, db.approvals@[i].session_id@));
        assert(is_referred(db, db.approvals@[i].session_id@));
    }
    assert forall|i: int| 0 <= i < db.questions@.len() implies has_session(
        kept,
        (#[trigger] db.questions@[i]).session_id@,
    ) by {
        assert(has_session(db.sessions@, db.questions@[i].session_id@));
        assert(is_referred(db, db.questions@[i].session_id@));
    }
}

impl Database {
    fn clear(&mut self, cutoff: i64, now: i64)
        requires
            old(self).wf(),
            now - DAY >= i64::MIN,
        ensures
            final(self).wf(),
            cleared(*old(self), *final(self), cutoff as int, now),
    {
        let ghost a = *self;
        apply_lapse_approval(&mut self.approvals, now);
        apply_void_question(&mut self.questions, now);
        let keep = |r: &InboundRow| -> (b: bool)
            ensures
                b == (needed_message(now))(*r),
        {
            !(match r.expires_at {
                Some(t) => t <= now,
                None => false,
            }) && !(match r.consumed_at {
                Some(t) => t <= now - DAY,
                None => false,
            })
        };
        retain(&mut self.inbound, keep, Ghost(needed_message(now)));
        let keep = |r: &BindingCodeRow| -> (b: bool)
            ensures
                b == (usable_code(now))(*r),
        { r.consumed_at.is_none() && r.expires_at > now };
        retain(&mut self.binding_codes, keep, Ghost(usable_code(now)));
        let deliveries = &self.deliveries;
        let projections = &self.projections;
        let keep = |r: &SentRow| -> (b: bool)
            ensures
                b == (needed_sent(deliveries@, projections@, cutoff as int))(*r),
        { r.sent_at >= cutoff || is_still_evidence(deliveries, projections, r.delivery_id) };
        retain(
            &mut self.sent,
            keep,
            Ghost(needed_sent(deliveries@, projections@, cutoff as int)),
        );
        proof {
            lemma_fewer_messages(a.inbound@, needed_message(now));
            lemma_filter_unique(
                a.binding_codes@,
                |r: BindingCodeRow| r.code_hash@,
                usable_code(now),
            );
        }
    }

    fn any_delivery_held(&self, cutoff: i64) -> (r: bool)
        ensures
            r == some_delivery_held(*self, cutoff as int),
    {
        let mut i: usize = 0;
        while i < self.deliveries.len()
            invariant
                i <= self.deliveries@.len(),
                forall|j: int|
                    0 <= j < i ==> !(!(needed_delivery(self.projections@, cutoff as int))(
                        #[trigger] self.deliveries@[j],
                    ) && was_sent(self.sent@, self.deliveries@[j].delivery_id)),
            decreases self.deliveries@.len() - i,
        {
            if !is_delivery_needed(&self.deliveries[i], &self.projections, cutoff) && self.any_sent(
                self.deliveries[i].delivery_id,
            ) {
                return true;
            }
            i += 1;
        }
        false
    }

    fn thin(&mut self, cutoff: i64)
        requires
            old(self).wf(),
        ensures
            final(self).wf(),
            thinned(*old(self), *final(self), cutoff as int),
    {
        let ghost a = *self;
        let projections = &self.projections;
        let keep = |r: &DeliveryRow| -> (b: bool)
            ensures
                b == (needed_delivery(projections@, cutoff as int))(*r),
        { is_delivery_needed(r, projections, cutoff) };
        retain(&mut self.deliveries, keep, Ghost(needed_delivery(projections@, cutoff as int)));
        let keep = |r: &QuestionRow| -> (b: bool)
            ensures
                b == (needed_question(cutoff as int))(*r),
        { r.state == QuestionState::Pending || r.updated_at >= cutoff };
        retain(&mut self.questions, keep, Ghost(needed_question(cutoff as int)));
        let keep = |r: &ApprovalRow| -> (b: bool)
            ensures
                b == (needed_approval(cutoff as int))(*r),
        { r.state == ApprovalState::Pending || r.updated_at >= cutoff };
        retain(&mut self.approvals, keep, Ghost(needed_approval(cutoff as int)));
        proof {
            lemma_fewer_deliveries(a.deliveries@, needed_delivery(a.projections@, cutoff as int));
            lemma_fewer_questions(a.questions@, a.sessions@, needed_question(cutoff as int));
            lemma_fewer_approvals(a.approvals@, a.sessions@, needed_approval(cutoff as int));
        }
    }

    fn is_session_referred(&self, session: &str) -> (r: bool)
        ensures
            r == is_referred(*self, session@),
    {
        let mut i: usize = 0;
        while i < self.approvals.len()
            invariant
                i <= self.approvals@.len(),
                forall|j: int|
                    0 <= j < i ==> (#[trigger] self.approvals@[j]).session_id@ != session@,
            decreases self.approvals@.len() - i,
        {
            if str_eq(self.approvals[i].session_id.as_str(), session) {
                return true;
            }
            i += 1;
        }
        let mut i: usize = 0;
        while i < self.questions.len()
            invariant
                i <= self.questions@.len(),
                forall|j: int|
                    0 <= j < i ==> (#[trigger] self.questions@[j]).session_id@ != session@,
            decreases self.questions@.len() - i,
        {
            if str_eq(self.questions[i].session_id.as_str(), session) {
                return true;
            }
            i += 1;
        }
        let mut i: usize = 0;
        while i < self.inbound.len()
            invariant
                i <= self.inbound@.len(),
                forall|j: int|
                    0 <= j < i ==> opt_view((#[trigger] self.inbound@[j]).session_id) != Some(
                        session@,
                    ),
            decreases self.inbound@.len() - i,
        {
            if opt_is(&self.inbound[i].session_id, session) {
                return true;
            }
            i += 1;
        }
        let mut i: usize = 0;
        while i < self.deliveries.len()
            invariant
                i <= self.deliveries@.len(),
                forall|j: int|
                    0 <= j < i ==> opt_view((#[trigger] self.deliveries@[j]).session_id) != Some(
                        session@,
                    ),
            decreases self.deliveries@.len() - i,
        {
            if opt_is(&self.deliveries[i].session_id, session) {
                return true;
            }
            i += 1;
        }
        false
    }

    fn any_session_held(&self, cutoff: i64) -> (r: bool)
        ensures
            r == some_session_held(*self, cutoff as int),
    {
        let mut i: usize = 0;
        while i < self.sessions.len()
            invariant
                i <= self.sessions@.len(),
                forall|j: int|
                    0 <= j < i ==> !(!(needed_session(cutoff as int))(
                        #[trigger] self.sessions@[j],
                    ) && is_referred(*self, self.sessions@[j].session_id@)),
            decreases self.sessions@.len() - i,
        {
            let s = &self.sessions[i];
            if !(s.state == SessionState::Active || s.state == SessionState::Waiting || s.updated_at
                >= cutoff) && self.is_session_referred(s.session_id.as_str()) {
                return true;
            }
            i += 1;
        }
        false
    }

    /// Throws away what is no longer needed, and what is older than that many
    /// days.
    pub fn purge_expired(&mut self, retention_days: u32, now: i64) -> (r: Result<(), Failure>)
        requires
            old(self).wf(),
            now - DAY >= i64::MIN,
            now - retention_days * DAY >= i64::MIN,
        ensures
            final(self).wf(),
            purge_outcome(*old(self), *final(self), now - retention_days * DAY, now, r),
    {
        let span: i64 = retention_days as i64 * DAY;
        let cutoff: i64 = now - span;
        self.clear(cutoff, now);
        let ghost m = *self;
        assert(cleared(*old(self), m, cutoff as int, now));
        if self.any_delivery_held(cutoff) {
            return Err(failure("FOREIGN KEY constraint failed"));
        }
        self.thin(cutoff);
        let ghost t = *self;
        assert(thinned(m, t, cutoff as int));
        if self.any_session_held(cutoff) {
            return Err(failure("FOREIGN KEY constraint failed"));
        }
        let keep = |r: &SessionRow| -> (b: bool)
            ensures
                b == (needed_session(cutoff as int))(*r),
        {
            r.state == SessionState::Active || r.state == SessionState::Waiting || r.updated_at
                >= cutoff
        };
        retain(&mut self.sessions, keep, Ghost(needed_session(cutoff as int)));
        let keep = |r: &AuditRow| -> (b: bool)
            ensures
                b == (needed_audit(cutoff as int))(*r),
        { r.occurred_at >= cutoff };
        retain(&mut self.audit, keep, Ghost(needed_audit(cutoff as int)));
        proof {
            lemma_fewer_sessions(t, cutoff as int);
        }
        Ok(())
    }
}

// ---------------------------------------------------------------------------
// Throwing away what is no longer needed of tracked sessions

/// The condition that an event is still needed.
pub open spec fn needed_event(cutoff: int) -> spec_fn(EventRow) -> bool {
    |r: EventRow| r.created_at >= cutoff
}

/// Whether the event that the message is about was kept and is no longer needed.
pub open spec fn loses_event(events: Seq<EventRow>, cutoff: int, id: Seq<char>) -> bool {
    exists|i: int|
        0 <= i < events.len() && (#[trigger] events[i]).event_id@ == id && events[i].created_at
            < cutoff
}

/// The condition that the event that a message is about stays.
pub open spec fn keeps_event(events: Seq<EventRow>, cutoff: int) -> spec_fn(ProjectionRow) -> bool {
    |r: ProjectionRow| !loses_event(events, cutoff, r.event_id@)
}

/// The condition that a message is still needed.
pub open spec fn needed_projection(cutoff: int) -> spec_fn(ProjectionRow) -> bool {
    |r: ProjectionRow| !r.delivered || r.updated_at >= cutoff
}

/// The condition that a command is still needed.
pub open spec fn needed_command(cutoff: int) -> spec_fn(CommandRow) -> bool {
    |r: CommandRow|
        r.state == CommandState::Pending || r.state == CommandState::Leased || r.updated_at
            >= cutoff
}

/// The condition that it is still needed to know of a button that was pressed.
pub open spec fn needed_interaction(cutoff: int) -> spec_fn(InteractionRow) -> bool {
    |r: InteractionRow| r.created_at >= cutoff
}

/// The condition that a button can still be pressed.
pub open spec fn unspent_button(now: i64) -> spec_fn(SwitchButtonRow) -> bool {
    |r: SwitchButtonRow| r.expires_at > now && r.used_at is None
}

/// Whether something is tracked at that address.
pub open spec fn is_bound(rows: Seq<BindingRow>, uri: Seq<char>) -> bool {
    exists|i: int| 0 <= i < rows.len() && (#[trigger] rows[i]).session_uri@ == uri
}

/// The condition that a session of the catalogue is still needed.
pub open spec fn needed_entry(bindings: Seq<BindingRow>, cutoff: int) -> spec_fn(CatalogRow) -> bool {
    |r: CatalogRow|
        r.available || r.last_seen_at >= cutoff || is_bound(bindings, r.session_uri@)
}

/// Whether the session was in the catalogue and is no longer needed.
pub open spec fn loses_entry(
    catalog: Seq<CatalogRow>,
    bindings: Seq<BindingRow>,
    cutoff: int,
    uri: Seq<char>,
) -> bool {
    exists|i: int|
        0 <= i < catalog.len() && (#[trigger] catalog[i]).session_uri@ == uri && !(needed_entry(
            bindings,
            cutoff,
        ))(catalog[i])
}

/// The condition that the session of a button stays.
pub open spec fn keeps_entry(
    catalog: Seq<CatalogRow>,
    bindings: Seq<BindingRow>,
    cutoff: int,
) -> spec_fn(SwitchButtonRow) -> bool {
    |r: SwitchButtonRow| !loses_entry(catalog, bindings, cutoff, r.session_uri@)
}

/// Whether a session of the catalogue, or one that is tracked, is on that host.
pub open spec fn is_host_used(
    catalog: Seq<CatalogRow>,
    bindings: Seq<BindingRow>,
    endpoint: Seq<char>,
) -> bool {
    ||| exists|i: int| 0 <= i < catalog.len() && (#[trigger] catalog[i]).endpoint_id@ == endpoint
    ||| exists|i: int| 0 <= i < bindings.len() && (#[trigger] bindings[i]).endpoint_id@ == endpoint
}

/// The condition that a host is still needed.
pub open spec fn needed_host(
    catalog: Seq<CatalogRow>,
    bindings: Seq<BindingRow>,
    cutoff: int,
) -> spec_fn(HostRow) -> bool {
    |r: HostRow| r.last_seen_at >= cutoff || is_host_used(catalog, bindings, r.endpoint_id@)
}

/// Whether an approval, an input or the dialogue still refers to the command.
pub open spec fn is_command_referred(db: Database, id: i64) -> bool {
    ||| exists|i: int|
        0 <= i < db.decisions@.len() && (#[trigger] db.decisions@[i]).command_id == Some(id)
    ||| exists|i: int|
        0 <= i < db.inputs@.len() && (#[trigger] db.inputs@[i]).command_id == Some(id)
    ||| db.wizard matches Some(w) && w.create_command_id == Some(id)
}

/// Whether something still refers to a command that is no longer needed.
pub open spec fn some_command_held(db: Database, cutoff: int) -> bool {
    exists|i: int|
        0 <= i < db.commands@.len() && !(needed_command(cutoff))(#[trigger] db.commands@[i])
            && is_command_referred(db, db.commands@[i].command_id)
}

/// Whether `b` is `a` without the events that are no longer needed and the
/// messages about them.
pub open spec fn events_dropped(a: Database, b: Database, cutoff: int) -> bool {
    &&& b == (Database { events: b.events, projections: b.projections, ..a })
    &&& b.events@ == a.events@.filter(needed_event(cutoff))
    &&& b.projections@ == a.projections@.filter(keeps_event(a.events@, cutoff))
}

/// Whether `b` is `a` without the commands, presses and messages that are no
/// longer needed; the approvals and inputs that waited too long have expired.
pub open spec fn commands_dropped(a: Database, b: Database, cutoff: int, now: i64) -> bool {
    exists|m: Database|
        {
            &&& m == (Database {
                commands: m.commands,
                interactions: m.interactions,
                projections: m.projections,
                ..a
            })
            &&& m.commands@ == a.commands@.filter(needed_command(cutoff))
            &&& m.interactions@ == a.interactions@.filter(needed_interaction(cutoff))
            &&& m.projections@ == a.projections@.filter(needed_projection(cutoff))
            &&& #[trigger] expired(m, b, now)
        }
}

/// Whether `b` is `a` without the sessions and hosts that are no longer needed,
/// and the buttons that are of no use.
pub open spec fn catalog_dropped(a: Database, b: Database, cutoff: int, now: i64) -> bool {
    &&& b == (Database {
        switch_buttons: b.switch_buttons,
        catalog: b.catalog,
        hosts: b.hosts,
        ..a
    })
    &&& b.switch_buttons@ == a.switch_buttons@.filter(unspent_button(now)).filter(
        keeps_entry(a.catalog@, a.bindings@, cutoff),
    )
    &&& b.catalog@ == a.catalog@.filter(needed_entry(a.bindings@, cutoff))
    &&& b.hosts@ == a.hosts@.filter(needed_host(b.catalog@, a.bindings@, cutoff))
}

/// What comes of throwing away what is no longer needed of tracked sessions.
/// Where something still refers to a command that is to go, it stops there.
pub open spec fn purge_events_outcome(
    a: Database,
    b: Database,
    cutoff: int,
    now: i64,
    r: Result<(), Failure>,
) -> bool {
    exists|m: Database, e: Database|
        {
            &&& #[trigger] tidied(a, m, now)
            &&& #[trigger] events_dropped(m, e, cutoff)
            &&& if some_command_held(e, cutoff) {
                b == e && (r matches Err(f) && f.message@ == broken_reference())
            } else {
                (r matches Ok(())) && exists|c: Database| #[trigger]
                    commands_dropped(e, c, cutoff, now) && catalog_dropped(c, b, cutoff, now)
            }
        }
}

proof fn lemma_fewer_commands(rows: Seq<CommandRow>, next: i64, p: spec_fn(CommandRow) -> bool)
    requires
        commands_wf(rows, next),
    ensures
        commands_wf(rows.filter(p), next),
{
    let rel = |x: CommandRow, y: CommandRow| x.command_id < y.command_id;
    assert forall|i: int, j: int| 0 <= i < j < rows.len() implies rel(
        #[trigger] rows[i],
        #[trigger] rows[j],
    ) by {}
    lemma_filter_pairs(rows, p, rel);
    assert forall|i: int, j: int| 0 <= i < j < rows.filter(p).len() implies (
    #[trigger] rows.filter(p)[i]).command_id < (#[trigger] rows.filter(p)[j]).command_id by {
        assert(rel(rows.filter(p)[i], rows.filter(p)[j]));
    }
    lemma_filter_unique(rows, |r: CommandRow| r.command_key@, p);
    let given = |r: CommandRow| r.command_id < next;
    assert forall|i: int| 0 <= i < rows.len() implies given(#[trigger] rows[i]) by {}
    lemma_filter_all(rows, p, given);
    assert forall|i: int| 0 <= i < rows.filter(p).len() implies (
    #[trigger] rows.filter(p)[i]).command_id < next by {
        assert(given(rows.filter(p)[i]));
    }
}

proof fn lemma_fewer_entries(
    catalog: Seq<CatalogRow>,
    hosts: Seq<HostRow>,
    p: spec_fn(CatalogRow) -> bool,
    q: spec_fn(HostRow) -> bool,
)
    requires
        catalog_wf(catalog, hosts),
        unique(hosts, |r: HostRow| r.endpoint_id@),
        forall|i: int, k: int|
            0 <= i < hosts.len() && 0 <= k < catalog.filter(p).len() && (
            #[trigger] hosts[i]).endpoint_id@ == (#[trigger] catalog.filter(p)[k]).endpoint_id@
                ==> q(hosts[i]),
    ensures
        catalog_wf(catalog.filter(p), hosts.filter(q)),
        unique(hosts.filter(q), |r: HostRow| r.endpoint_id@),
{
    lemma_filter_unique(catalog, |r: CatalogRow| r.session_uri@, p);
    lemma_filter_unique(catalog, |r: CatalogRow| r.short_code@, p);
    lemma_filter_unique(hosts, |r: HostRow| r.endpoint_id@, q);
    let known = |r: CatalogRow| has_host(hosts, r.endpoint_id@);
    assert forall|i: int| 0 <= i < catalog.len() implies known(#[trigger] catalog[i]) by {}
    lemma_filter_all(catalog, p, known);
    assert forall|k: int| 0 <= k < catalog.filter(p).len() implies has_host(
        hosts.filter(q),
        (#[trigger] catalog.filter(p)[k]).endpoint_id@,
    ) by {
        assert(known(catalog.filter(p)[k]));
        let id = catalog.filter(p)[k].endpoint_id@;
        let i = choose|i: int| 0 <= i < hosts.len() && (#[trigger] hosts[i]).endpoint_id@ == id;
        assert(q(hosts[i]));
        lemma_filter_keeps(hosts, q, i);
        let l = choose|l: int| 0 <= l < hosts.filter(q).len() && hosts.filter(q)[l] == hosts[i];
        assert(hosts.filter(q)[l].endpoint_id@ == id);
    }
}

fn event_goes(events: &Vec<EventRow>, cutoff: i64, id: &str) -> (r: bool)
    ensures
        r == loses_event(events@, cutoff as int, id@),
{
    let mut i: usize = 0;
    while i < events.len()
        invariant
            i <= events@.len(),
            forall|j: int|
                0 <= j < i ==> !((#[trigger] events@[j]).event_id@ == id@ && events@[j].created_at
                    < cutoff),
        decreases events@.len() - i,
    {
        if str_eq(events[i].event_id.as_str(), id) && events[i].created_at < cutoff {
            return true;
        }
        i += 1;
    }
    false
}

fn any_bound(bindings: &Vec<BindingRow>, uri: &str) -> (r: bool)
    ensures
        r == is_bound(bindings@, uri@),
{
    let mut i: usize = 0;
    while i < bindings.len()
        invariant
            i <= bindings@.len(),
            forall|j: int| 0 <= j < i ==> (#[trigger] bindings@[j]).session_uri@ != uri@,
        decreases bindings@.len() - i,
    {
        if str_eq(bindings[i].session_uri.as_str(), uri) {
            return true;
        }
        i += 1;
    }
    false
}

fn is_entry_needed(r: &CatalogRow, bindings: &Vec<BindingRow>, cutoff: i64) -> (b: bool)
    ensures
        b == (needed_entry(bindings@, cutoff as int))(*r),
{
    r.available || r.last_seen_at >= cutoff || any_bound(bindings, r.session_uri.as_str())
}

fn entry_goes(catalog: &Vec<CatalogRow>, bindings: &Vec<BindingRow>, cutoff: i64, uri: &str) -> (r:
    bool)
    ensures
        r == loses_entry(catalog@, bindings@, cutoff as int, uri@),
{
    let mut i: usize = 0;
    while i < catalog.len()
        invariant
            i <= catalog@.len(),
            forall|j: int|
                0 <= j < i ==> !((#[trigger] catalog@[j]).session_uri@ == uri@ && !(needed_entry(
                    bindings@,
                    cutoff as int,
                ))(catalog@[j])),
        decreases catalog@.len() - i,
    {
        if str_eq(catalog[i].session_uri.as_str(), uri) && !is_entry_needed(
            &catalog[i],
            bindings,
            cutoff,
        ) {
            return true;
        }
        i += 1;
    }
    false
}

fn uses_host(catalog: &Vec<CatalogRow>, bindings: &Vec<BindingRow>, endpoint: &str) -> (r: bool)
    ensures
        r == is_host_used(catalog@, bindings@, endpoint@),
{
    let mut i: usize = 0;
    while i < catalog.len()
        invariant
            i <= catalog@.len(),
            forall|j: int| 0 <= j < i ==> (#[trigger] catalog@[j]).endpoint_id@ != endpoint@,
        decreases catalog@.len() - i,
    {
        if str_eq(catalog[i].endpoint_id.as_str(), endpoint) {
            return true;
        }
        i += 1;
    }
    let mut i: usize = 0;
    while i < bindings.len()
        invariant
            i <= bindings@.len(),
            forall|j: int| 0 <= j < i ==> (#[trigger] bindings@[j]).endpoint_id@ != endpoint@,
        decreases bindings@.len() - i,
    {
        if str_eq(bindings[i].endpoint_id.as_str(), endpoint) {
            return true;
        }
        i += 1;
    }
    false
}

impl Database {
    fn drop_events(&mut self, cutoff: i64)
        requires
            old(self).wf(),
        ensures
            final(self).wf(),
            events_dropped(*old(self), *final(self), cutoff as int),
    {
        let ghost a = *self;
        let events = &self.events;
        let keep = |r: &ProjectionRow| -> (b: bool)
            ensures
                b == (keeps_event(events@, cutoff as int))(*r),
        { !event_goes(events, cutoff, r.event_id.as_str()) };
        retain(&mut self.projections, keep, Ghost(keeps_event(events@, cutoff as int)));
        let keep = |r: &EventRow| -> (b: bool)
            ensures
                b == (needed_event(cutoff as int))(*r),
        { r.created_at >= cutoff };
        retain(&mut self.events, keep, Ghost(needed_event(cutoff as int)));
        proof {
            lemma_filter_unique(
                a.projections@,
                |r: ProjectionRow| r.event_id@,
                keeps_event(a.events@, cutoff as int),
            );
            lemma_filter_unique(
                a.events@,
                |r: EventRow| r.event_id@,
                needed_event(cutoff as int),
            );
        }
    }

    fn refers_to_command(&self, id: i64) -> (r: bool)
        ensures
            r == is_command_referred(*self, id),
    {
        let mut i: usize = 0;
        while i < self.decisions.len()
            invariant
                i <= self.decisions@.len(),
                forall|j: int|
                    0 <= j < i ==> (#[trigger] self.decisions@[j]).command_id != Some(id),
            decreases self.decisions@.len() - i,
        {
            if is_number(&self.decisions[i].command_id, id) {
                return true;
            }
            i += 1;
        }
        let mut i: usize = 0;
        while i < self.inputs.len()
            invariant
                i <= self.inputs@.len(),
                forall|j: int| 0 <= j < i ==> (#[trigger] self.inputs@[j]).command_id != Some(id),
            decreases self.inputs@.len() - i,
        {
            if is_number(&self.inputs[i].command_id, id) {
                return true;
            }
            i += 1;
        }
        match &self.wizard {
            Some(w) => is_number(&w.create_command_id, id),
            None => false,
        }
    }

    fn any_command_held(&self, cutoff: i64) -> (r: bool)
        ensures
            r == some_command_held(*self, cutoff as int),
    {
        let mut i: usize = 0;
        while i < self.commands.len()
            invariant
                i <= self.commands@.len(),
                forall|j: int|
                    0 <= j < i ==> !(!(needed_command(cutoff as int))(
                        #[trigger] self.commands@[j],
                    ) && is_command_referred(*self, self.commands@[j].command_id)),
            decreases self.commands@.len() - i,
        {
            let c = &self.commands[i];
            if !(c.state == CommandState::Pending || c.state == CommandState::Leased || c.updated_at
                >= cutoff) && self.refers_to_command(c.command_id) {
                return true;
            }
            i += 1;
        }
        false
    }

    fn drop_commands(&mut self, cutoff: i64, now: i64)
        requires
            old(self).wf(),
        ensures
            final(self).wf(),
            commands_dropped(*old(self), *final(self), cutoff as int, now),
    {
        let ghost a = *self;
        let keep = |r: &CommandRow| -> (b: bool)
            ensures
                b == (needed_command(cutoff as int))(*r),
        {
            r.state == CommandState::Pending || r.state == CommandState::Leased || r.updated_at
                >= cutoff
        };
        retain(&mut self.commands, keep, Ghost(needed_command(cutoff as int)));
        let keep = |r: &InteractionRow| -> (b: bool)
            ensures
                b == (needed_interaction(cutoff as int))(*r),
        { r.created_at >= cutoff };
        retain(&mut self.interactions, keep, Ghost(needed_interaction(cutoff as int)));
        let keep = |r: &ProjectionRow| -> (b: bool)
            ensures
                b == (needed_projection(cutoff as int))(*r),
        { !r.delivered || r.updated_at >= cutoff };
        retain(&mut self.projections, keep, Ghost(needed_projection(cutoff as int)));
        proof {
            lemma_fewer_commands(a.commands@, a.next_command_id, needed_command(cutoff as int));
            lemma_filter_unique(
                a.interactions@,
                |r: InteractionRow| r.interaction_id@,
                needed_interaction(cutoff as int),
            );
            lemma_filter_unique(
                a.projections@,
                |r: ProjectionRow| r.event_id@,
                needed_projection(cutoff as int),
            );
        }
        let ghost m = *self;
        self.expire_ahp_interactions(now);
        assert(expired(m, *self, now));
    }

    fn drop_catalog(&mut self, cutoff: i64, now: i64)
        requires
            old(self).wf(),
        ensures
            final(self).wf(),
            catalog_dropped(*old(self), *final(self), cutoff as int, now),
    {
        let ghost a = *self;
        let keep = |r: &SwitchButtonRow| -> (b: bool)
            ensures
                b == (unspent_button(now))(*r),
        { r.expires_at > now && r.used_at.is_none() };
        retain(&mut self.switch_buttons, keep, Ghost(unspent_button(now)));
        let catalog = &self.catalog;
        let bindings = &self.bindings;
        let keep = |r: &SwitchButtonRow| -> (b: bool)
            ensures
                b == (keeps_entry(catalog@, bindings@, cutoff as int))(*r),
        { !entry_goes(catalog, bindings, cutoff, r.session_uri.as_str()) };
        retain(
            &mut self.switch_buttons,
            keep,
            Ghost(keeps_entry(catalog@, bindings@, cutoff as int)),
        );
        let keep = |r: &CatalogRow| -> (b: bool)
            ensures
                b == (needed_entry(bindings@, cutoff as int))(*r),
        { is_entry_needed(r, bindings, cutoff) };
        retain(&mut self.catalog, keep, Ghost(needed_entry(bindings@, cutoff as int)));
        let catalog = &self.catalog;
        let keep = |r: &HostRow| -> (b: bool)
            ensures
                b == (needed_host(catalog@, bindings@, cutoff as int))(*r),
        { r.last_seen_at >= cutoff || uses_host(catalog, bindings, r.endpoint_id.as_str()) };
        retain(
            &mut self.hosts,
            keep,
            Ghost(needed_host(catalog@, bindings@, cutoff as int)),
        );
        proof {
            let left = a.switch_buttons@.filter(unspent_button(now));
            lemma_filter_unique(
                a.switch_buttons@,
                |r: SwitchButtonRow| r.button_data@,
                unspent_button(now),
            );
            lemma_filter_unique(
                left,
                |r: SwitchButtonRow| r.button_data@,
                keeps_entry(a.catalog@, a.bindings@, cutoff as int),
            );
            lemma_fewer_entries(
                a.catalog@,
                a.hosts@,
                needed_entry(a.bindings@, cutoff as int),
                needed_host(self.catalog@, a.bindings@, cutoff as int),
            );
        }
    }

    /// Throws away what is no longer needed of tracked sessions, and what is older
    /// than that many days.
    pub fn ahp_purge_events(&mut self, retention_days: u32, now: i64) -> (r: Result<(), Failure>)
        requires
            old(self).wf(),
            now - retention_days * DAY >= i64::MIN,
        ensures
            final(self).wf(),
            purge_events_outcome(*old(self), *final(self), now - retention_days * DAY, now, r),
    {
        let span: i64 = retention_days as i64 * DAY;
        let cutoff: i64 = now - span;
        self.expire_ahp_auxiliary_state(now);
        let ghost m = *self;
        self.drop_events(cutoff);
        let ghost e = *self;
        assert(tidied(*old(self), m, now) && events_dropped(m, e, cutoff as int));
        if self.any_command_held(cutoff) {
            return Err(failure("FOREIGN KEY constraint failed"));
        }
        self.drop_commands(cutoff, now);
        let ghost c = *self;
        self.drop_catalog(cutoff, now);
        assert(commands_dropped(e, c, cutoff as int, now));
        Ok(())
    }
}

fn is_number(value: &Option<i64>, n: i64) -> (r: bool)
    ensures
        r == (*value == Some(n)),
{
    match value {
        Some(m) => *m == n,
        None => false,
    }
}

/// The deliveries by which the owner is still to be told of an event outlast
/// every purge, however old they are.
pub proof fn purge_keeps_wanted_deliveries(
    a: Database,
    b: Database,
    cutoff: int,
    now: i64,
    r: Result<(), Failure>,
    i: int,
)
    requires
        purge_outcome(a, b, cutoff, now, r),
        0 <= i < a.deliveries@.len(),
        is_wanted(a.projections@, a.deliveries@[i].idempotency_key@),
    ensures
        b.deliveries@.contains(a.deliveries@[i]),
        b.projections == a.projections,
{
    let m = choose|m: Database|
        {
            &&& #[trigger] cleared(a, m, cutoff, now)
            &&& if some_delivery_held(m, cutoff) {
                b == m && (r matches Err(f) && f.message@ == broken_reference())
            } else {
                exists|t: Database|
                    {
                        &&& #[trigger] thinned(m, t, cutoff)
                        &&& if some_session_held(t, cutoff) {
                            b == t && (r matches Err(f) && f.message@ == broken_reference())
                        } else {
                            &&& r matches Ok(())
                            &&& b == (Database { sessions: b.sessions, audit: b.audit, ..t })
                            &&& b.sessions@ == t.sessions@.filter(needed_session(cutoff))
                            &&& b.audit@ == t.audit@.filter(needed_audit(cutoff))
                        }
                    }
            }
        };
    assert(m.deliveries == a.deliveries);
    lemma_filter_keeps(a.deliveries@, needed_delivery(a.projections@, cutoff), i);
}

/// After a restart the owner is told again of every event that they were being told
/// of, unless the message or a part of it is known to have been sent.
pub proof fn interrupted_messages_are_sent_again(a: Database, b: Database, now: i64, i: int)
    requires
        recovered(a, b, now),
        0 <= i < a.projections@.len(),
        !a.projections@[i].delivered,
        a.projections@[i].replay_key is None,
        !is_partly_sent(a.deliveries@, a.sent@, direct_key(a.projections@[i].event_id@)),
        forall|j: int|
            0 <= j < a.deliveries@.len() && (#[trigger] a.deliveries@[j]).idempotency_key@
                == direct_key(a.projections@[i].event_id@) ==> a.deliveries@[j].status
                != DeliveryStatus::Sent,
    ensures
        i < b.projections@.len(),
        is_replayable(b, b.projections@[i]),
{
    let p = a.projections@[i];
    let key = direct_key(p.event_id@);
    assert(retry_projection(p, b.projections@[i], b.deliveries@, now));
    if has_key(b.deliveries@, key) {
        let j = choose|j: int|
            0 <= j < b.deliveries@.len() && (#[trigger] b.deliveries@[j]).idempotency_key@ == key;
        assert(doubt_delivery(a.deliveries@[j], b.deliveries@[j], now));
        assert(a.deliveries@[j].idempotency_key@ == key);
        assert(has_failed(b.deliveries@, key));
    }
    assert(!is_partly_sent(b.deliveries@, b.sent@, key)) by {
        assert forall|j: int| 0 <= j < b.deliveries@.len() && (
        #[trigger] b.deliveries@[j]).idempotency_key@ == key implies !was_sent(
            b.sent@,
            b.deliveries@[j].delivery_id,
        ) by {
            assert(doubt_delivery(a.deliveries@[j], b.deliveries@[j], now));
            assert(a.deliveries@[j].idempotency_key@ == key);
        }
    }
}

// ---------------------------------------------------------------------------
// What a restart and the passing of time change

/// After a restart nothing is waited for that was waited for: what was on its way is in
/// doubt, approvals that were waited for are denied, and what was allowed has an unknown
/// outcome, questions are taken back, messages in the queue are gone, and sessions that
/// ran are lost. All else stays.
pub proof fn restarts_end_what_was_waited_for(a: Database, b: Database, now: i64)
    requires
        recovered(a, b, now),
    ensures
        b.deliveries@.len() == a.deliveries@.len(),
        b.approvals@.len() == a.approvals@.len(),
        b.questions@.len() == a.questions@.len(),
        b.inbound@.len() == a.inbound@.len(),
        b.sessions@.len() == a.sessions@.len(),
        forall|i: int|
            #![trigger b.deliveries@[i]]
            0 <= i < a.deliveries@.len() ==> if a.deliveries@[i].status == DeliveryStatus::Pending {
                b.deliveries@[i].status == DeliveryStatus::InDoubt && opt_view(
                    b.deliveries@[i].error_code,
                ) == Some("daemon_restarted"@) && b.deliveries@[i].delivery_id
                    == a.deliveries@[i].delivery_id && b.deliveries@[i].idempotency_key
                    == a.deliveries@[i].idempotency_key
            } else {
                b.deliveries@[i] == a.deliveries@[i]
            },
        forall|i: int|
            #![trigger b.approvals@[i]]
            0 <= i < a.approvals@.len() ==> {
                &&& a.approvals@[i].state == ApprovalState::Pending ==> b.approvals@[i].state
                    == ApprovalState::Denied
                &&& a.approvals@[i].state == ApprovalState::Allowed ==> b.approvals@[i].state
                    == ApprovalState::UnknownFailure
                &&& a.approvals@[i].state != ApprovalState::Pending && a.approvals@[i].state
                    != ApprovalState::Allowed ==> b.approvals@[i] == a.approvals@[i]
                &&& b.approvals@[i].approval_id == a.approvals@[i].approval_id
            },
        forall|i: int|
            #![trigger b.questions@[i]]
            0 <= i < a.questions@.len() ==> if a.questions@[i].state == QuestionState::Pending {
                b.questions@[i].state == QuestionState::Cancelled && b.questions@[i].answer is None
                    && b.questions@[i].question_id == a.questions@[i].question_id
            } else {
                b.questions@[i] == a.questions@[i]
            },
        forall|i: int|
            #![trigger b.inbound@[i]]
            0 <= i < a.inbound@.len() ==> if a.inbound@[i].kind@ == "queued"@
                && a.inbound@[i].consumed_at is None {
                b.inbound@[i].kind@ == "discarded"@ && b.inbound@[i].content is None
                    && b.inbound@[i].consumed_at == Some(now)
            } else {
                b.inbound@[i] == a.inbound@[i]
            },
        forall|i: int|
            #![trigger b.sessions@[i]]
            0 <= i < a.sessions@.len() ==> if a.sessions@[i].state == SessionState::Active
                || a.sessions@[i].state == SessionState::Waiting {
                b.sessions@[i].state == SessionState::Lost && b.sessions@[i].session_id
                    == a.sessions@[i].session_id
            } else {
                b.sessions@[i] == a.sessions@[i]
            },
        b.owner == a.owner,
        b.commands == a.commands,
        b.bindings == a.bindings,
        b.catalog == a.catalog,
{
    assert forall|i: int|
        #![trigger b.deliveries@[i]]
        0 <= i < a.deliveries@.len() implies doubt_delivery(
        a.deliveries@[i],
        b.deliveries@[i],
        now,
    ) by {}
}

/// After a restart a message counts as failed where nothing was done yet to tell the
/// owner of it; the others stay.
pub proof fn restarts_count_untold_messages_as_failed(a: Database, b: Database, now: i64, i: int)
    requires
        recovered(a, b, now),
        0 <= i < a.projections@.len(),
    ensures
        b.projections@.len() == a.projections@.len(),
        ({
            let was = a.projections@[i];
            let then = b.projections@[i];
            let tried = exists|j: int|
                0 <= j < a.deliveries@.len() && (#[trigger] a.deliveries@[j]).idempotency_key@
                    == direct_key(was.event_id@);
            &&& was.delivered || was.last_error is Some || was.replay_key is Some || tried ==> then
                == was
            &&& !was.delivered && was.last_error is None && was.replay_key is None && !tried ==> {
                &&& opt_view(then.last_error) == Some("daemon_restarted"@)
                &&& was.attempts < u64::MAX ==> then.attempts == was.attempts + 1
                &&& then.event_id == was.event_id
                &&& !then.delivered
            }
        }),
{
    let was = a.projections@[i];
    let key = direct_key(was.event_id@);
    assert(retry_projection(was, b.projections@[i], b.deliveries@, now));
    assert forall|j: int| 0 <= j < a.deliveries@.len() implies (
    #[trigger] b.deliveries@[j]).idempotency_key@ == a.deliveries@[j].idempotency_key@ by {
        assert(doubt_delivery(a.deliveries@[j], b.deliveries@[j], now));
    }
    if exists|j: int|
        0 <= j < a.deliveries@.len() && (#[trigger] a.deliveries@[j]).idempotency_key@ == key {
        let j = choose|j: int|
            0 <= j < a.deliveries@.len() && (#[trigger] a.deliveries@[j]).idempotency_key@ == key;
        assert(b.deliveries@[j].idempotency_key@ == key);
    } else if has_key(b.deliveries@, key) {
        let j = choose|j: int|
            0 <= j < b.deliveries@.len() && (#[trigger] b.deliveries@[j]).idempotency_key@ == key;
        assert(a.deliveries@[j].idempotency_key@ == key);
    }
}

proof fn lemma_kept<T>(rows: Seq<T>, p: spec_fn(T) -> bool)
    ensures
        forall|i: int|
            0 <= i < rows.len() ==> (rows.filter(p).contains(#[trigger] rows[i]) <==> p(rows[i])),
        forall|i: int| 0 <= i < rows.filter(p).len() ==> rows.contains(#[trigger] rows.filter(p)[i]),
{
    let kept = rows.filter(p);
    assert forall|i: int| 0 <= i < rows.len() implies (kept.contains(#[trigger] rows[i]) <==> p(
        rows[i],
    )) by {
        if p(rows[i]) {
            rows.lemma_filter_contains(p, i);
        }
        if kept.contains(rows[i]) {
            let k = choose|k: int| 0 <= k < kept.len() && kept[k] == rows[i];
            rows.lemma_filter_pred(p, k);
        }
    }
    assert forall|i: int| 0 <= i < kept.len() implies rows.contains(#[trigger] kept[i]) by {
        assert(kept.contains(kept[i]));
        rows.lemma_filter_contains_rev(p, kept[i]);
    }
}

/// A purge keeps what is younger than the cutoff and what is still waited for, and drops
/// the rest.
pub proof fn purges_drop_what_is_old_and_done(
    a: Database,
    b: Database,
    cutoff: int,
    now: i64,
)
    requires
        purge_outcome(a, b, cutoff, now, Ok(())),
    ensures
        forall|i: int|
            0 <= i < a.sessions@.len() ==> (b.sessions@.contains(#[trigger] a.sessions@[i])
                <==> a.sessions@[i].state == SessionState::Active || a.sessions@[i].state
                == SessionState::Waiting || a.sessions@[i].updated_at >= cutoff),
        forall|i: int|
            0 <= i < a.audit@.len() ==> (b.audit@.contains(#[trigger] a.audit@[i])
                <==> a.audit@[i].occurred_at >= cutoff),
        forall|i: int|
            #![trigger a.inbound@[i]]
            0 <= i < a.inbound@.len() ==> (b.inbound@.contains(a.inbound@[i]) <==> !(
            a.inbound@[i].expires_at is Some && a.inbound@[i].expires_at->0 <= now) && !(
            a.inbound@[i].consumed_at is Some && a.inbound@[i].consumed_at->0 + 86400 <= now)),
        forall|i: int|
            #![trigger a.deliveries@[i]]
            0 <= i < a.deliveries@.len() && (a.deliveries@[i].status == DeliveryStatus::Pending
                || a.deliveries@[i].updated_at >= cutoff) ==> b.deliveries@.contains(
                a.deliveries@[i],
            ),
        forall|i: int|
            #![trigger a.deliveries@[i]]
            0 <= i < a.deliveries@.len() && a.deliveries@[i].status != DeliveryStatus::Pending
                && a.deliveries@[i].updated_at < cutoff && a.projections@.len() == 0
                ==> !b.deliveries@.contains(a.deliveries@[i]),
        forall|i: int|
            #![trigger a.questions@[i]]
            0 <= i < a.questions@.len() && a.questions@[i].state != QuestionState::Pending ==> (
            b.questions@.contains(a.questions@[i]) ==> a.questions@[i].updated_at >= cutoff),
        forall|i: int|
            #![trigger a.questions@[i]]
            0 <= i < a.questions@.len() && a.questions@[i].state == QuestionState::Pending && now
                < a.questions@[i].expires_at ==> b.questions@.contains(a.questions@[i]),
        forall|i: int|
            0 <= i < b.questions@.len() ==> (#[trigger] b.questions@[i]).state
                == QuestionState::Pending || b.questions@[i].updated_at >= cutoff,
        forall|i: int|
            0 <= i < b.questions@.len() && (#[trigger] b.questions@[i]).state
                == QuestionState::Pending ==> now < b.questions@[i].expires_at,
        forall|i: int|
            0 <= i < b.approvals@.len() ==> (#[trigger] b.approvals@[i]).state
                == ApprovalState::Pending || b.approvals@[i].updated_at >= cutoff,
        b.commands == a.commands,
        b.bindings == a.bindings,
        b.events == a.events,
        b.owner == a.owner,
{
    let m = choose|m: Database|
        {
            &&& #[trigger] cleared(a, m, cutoff, now)
            &&& !some_delivery_held(m, cutoff)
            &&& exists|t: Database|
                {
                    &&& #[trigger] thinned(m, t, cutoff)
                    &&& !some_session_held(t, cutoff)
                    &&& b == (Database { sessions: b.sessions, audit: b.audit, ..t })
                    &&& b.sessions@ == t.sessions@.filter(needed_session(cutoff))
                    &&& b.audit@ == t.audit@.filter(needed_audit(cutoff))
                }
        };
    let t = choose|t: Database|
        {
            &&& #[trigger] thinned(m, t, cutoff)
            &&& !some_session_held(t, cutoff)
            &&& b == (Database { sessions: b.sessions, audit: b.audit, ..t })
            &&& b.sessions@ == t.sessions@.filter(needed_session(cutoff))
            &&& b.audit@ == t.audit@.filter(needed_audit(cutoff))
        };
    lemma_kept(a.sessions@, needed_session(cutoff));
    lemma_kept(a.audit@, needed_audit(cutoff));
    lemma_kept(a.inbound@, needed_message(now));
    lemma_kept(a.deliveries@, needed_delivery(a.projections@, cutoff));
    lemma_kept(m.questions@, needed_question(cutoff));
    lemma_kept(m.approvals@, needed_approval(cutoff));
    assert forall|i: int| 0 <= i < b.questions@.len() implies (
    (#[trigger] b.questions@[i]).state == QuestionState::Pending || b.questions@[i].updated_at
        >= cutoff) && (b.questions@[i].state == QuestionState::Pending ==> now
        < b.questions@[i].expires_at) by {
        m.questions@.lemma_filter_pred(needed_question(cutoff), i);
        let q = b.questions@[i];
        assert(m.questions@.contains(q));
        let j = choose|j: int| 0 <= j < m.questions@.len() && m.questions@[j] == q;
        assert(m.questions@[j] == void_question(a.questions@[j], now));
    }
    assert forall|i: int| 0 <= i < b.approvals@.len() implies (#[trigger] b.approvals@[i]).state
        == ApprovalState::Pending || b.approvals@[i].updated_at >= cutoff by {
        m.approvals@.lemma_filter_pred(needed_approval(cutoff), i);
    }
    assert forall|i: int|
        #![trigger a.questions@[i]]
        0 <= i < a.questions@.len() && a.questions@[i].state == QuestionState::Pending && now
            < a.questions@[i].expires_at implies b.questions@.contains(a.questions@[i]) by {
        assert(m.questions@[i] == void_question(a.questions@[i], now));
        assert(needed_question(cutoff)(m.questions@[i]));
    }
    assert forall|i: int|
        #![trigger a.questions@[i]]
        0 <= i < a.questions@.len() && a.questions@[i].state != QuestionState::Pending
            && b.questions@.contains(a.questions@[i]) implies a.questions@[i].updated_at
        >= cutoff by {
        assert(m.questions@[i] == void_question(a.questions@[i], now));
    }
    assert forall|i: int|
        #![trigger a.deliveries@[i]]
        0 <= i < a.deliveries@.len() && a.deliveries@[i].status != DeliveryStatus::Pending
            && a.deliveries@[i].updated_at < cutoff && a.projections@.len()
            == 0 implies !b.deliveries@.contains(a.deliveries@[i]) by {
        assert(!is_wanted(a.projections@, a.deliveries@[i].idempotency_key@));
    }
}

/// A purge of what is known of tracked sessions keeps what is younger than the cutoff
/// and what is still under way, available or tracked, and drops the rest.
pub proof fn event_purges_drop_what_is_old_and_done(
    a: Database,
    b: Database,
    cutoff: int,
    now: i64,
)
    requires
        purge_events_outcome(a, b, cutoff, now, Ok(())),
    ensures
        forall|i: int|
            0 <= i < a.events@.len() ==> (b.events@.contains(#[trigger] a.events@[i])
                <==> a.events@[i].created_at >= cutoff),
        forall|i: int|
            0 <= i < a.commands@.len() ==> (b.commands@.contains(#[trigger] a.commands@[i])
                <==> a.commands@[i].state == CommandState::Pending || a.commands@[i].state
                == CommandState::Leased || a.commands@[i].updated_at >= cutoff),
        forall|i: int|
            0 <= i < a.interactions@.len() ==> (b.interactions@.contains(
                #[trigger] a.interactions@[i],
            ) <==> a.interactions@[i].created_at >= cutoff),
        forall|i: int|
            #![trigger a.catalog@[i]]
            0 <= i < a.catalog@.len() ==> (b.catalog@.contains(a.catalog@[i])
                <==> a.catalog@[i].available || a.catalog@[i].last_seen_at >= cutoff || exists|
                j: int,
            |
                0 <= j < a.bindings@.len() && (#[trigger] a.bindings@[j]).session_uri@
                    == a.catalog@[i].session_uri@),
        forall|i: int|
            #![trigger a.hosts@[i]]
            0 <= i < a.hosts@.len() && a.hosts@[i].last_seen_at >= cutoff ==> b.hosts@.contains(
                a.hosts@[i],
            ),
        forall|i: int|
            0 <= i < b.switch_buttons@.len() ==> (#[trigger] b.switch_buttons@[i]).used_at is None
                && now < b.switch_buttons@[i].expires_at,
        b.bindings == a.bindings,
        b.sessions == a.sessions,
        b.deliveries == a.deliveries,
{
    let (m, e) = choose|m: Database, e: Database|
        {
            &&& #[trigger] tidied(a, m, now)
            &&& #[trigger] events_dropped(m, e, cutoff)
            &&& !some_command_held(e, cutoff)
            &&& exists|c: Database| #[trigger]
                commands_dropped(e, c, cutoff, now) && catalog_dropped(c, b, cutoff, now)
        };
    let c = choose|c: Database| #[trigger]
        commands_dropped(e, c, cutoff, now) && catalog_dropped(c, b, cutoff, now);
    lemma_kept(a.events@, needed_event(cutoff));
    lemma_kept(a.commands@, needed_command(cutoff));
    lemma_kept(a.interactions@, needed_interaction(cutoff));
    lemma_kept(a.catalog@, needed_entry(a.bindings@, cutoff));
    lemma_kept(a.hosts@, needed_host(b.catalog@, a.bindings@, cutoff));
    let live = c.switch_buttons@.filter(unspent_button(now));
    let p = keeps_entry(c.catalog@, c.bindings@, cutoff);
    assert forall|i: int| 0 <= i < b.switch_buttons@.len() implies (
    #[trigger] b.switch_buttons@[i]).used_at is None && now
        < b.switch_buttons@[i].expires_at by {
        lemma_kept(live, p);
        assert(live.contains(b.switch_buttons@[i]));
        let j = choose|j: int| 0 <= j < live.len() && live[j] == b.switch_buttons@[i];
        c.switch_buttons@.lemma_filter_pred(unspent_button(now), j);
    }
}

/// A retention time is counted in days: what is dropped is older than that many days.
pub proof fn a_day_has_its_hours(days: nat)
    ensures
        days * DAY == days * 24 * 60 * 60,
{
    assert(days * 86400 == days * 24 * 60 * 60) by (nonlinear_arith);
}

} // verus!
