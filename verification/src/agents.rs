//! The owner, the agent sessions, and what they ask the owner for.
use vstd::prelude::*;
use vstd::string::*;

use crate::codes::{are_codes, draw_codes};
use crate::config::{failure, Failure};
use crate::protocol::{ApprovalState, RiskLevel, StopDecision, StopResult};
use crate::security::{
    constant_time_eq, constant_time_eq_is_equality, is_code, random_code, sha256_hex, text_hash,
};
use crate::store::{
    approvals_wf, has_session, is_running, questions_wf, ApprovalRow, AuditRow, BindingCodeRow,
    Database, OwnerRow, QuestionRow, QuestionState, SessionRow, SessionState,
};
use crate::tables::{
    changed, count, count_rows, find, first, least, lemma_filter_unique, lemma_first,
    lemma_first_holds, precedes, retain, unique, SortKey,
};
use crate::text::{
    cat, cat3, eq_ignore_case, is_blank, lower, opt_str_view, opt_view, owned, str_eq, to_upper,
    trim, trimmed, upper,
};

verus! {

broadcast use vstd::string::group_string_axioms;

// ---------------------------------------------------------------------------
// What is worth remembering

/// Whether the row remembers this.
pub open spec fn remembers(
    r: AuditRow,
    code: Option<Seq<char>>,
    event: Seq<char>,
    tool: Option<Seq<char>>,
    hash: Option<Seq<char>>,
    risk: Option<RiskLevel>,
    outcome: Seq<char>,
    message: Option<Seq<char>>,
    detail: Option<Seq<char>>,
    now: i64,
) -> bool {
    &&& r.occurred_at == now
    &&& opt_view(r.session_code) == code
    &&& r.event_type@ == event
    &&& opt_view(r.tool_name) == tool
    &&& opt_view(r.input_hash) == hash
    &&& r.risk == risk
    &&& r.outcome@ == outcome
    &&& opt_view(r.qq_message_id) == message
    &&& opt_view(r.detail_redacted) == detail
}

/// Whether `b` is `a` with one thing more worth remembering, which is told by its
/// kind, its outcome and the session, message and detail that it is about.
pub open spec fn noted(
    a: Seq<AuditRow>,
    b: Seq<AuditRow>,
    code: Option<Seq<char>>,
    event: Seq<char>,
    outcome: Seq<char>,
    message: Option<Seq<char>>,
    detail: Option<Seq<char>>,
    now: i64,
) -> bool {
    b == a.push(b.last()) && remembers(
        b.last(),
        code,
        event,
        None,
        None,
        None,
        outcome,
        message,
        detail,
        now,
    )
}

/// Whether `b` is `a` with one thing more worth remembering about an approval.
pub open spec fn noted_approval(
    a: Seq<AuditRow>,
    b: Seq<AuditRow>,
    code: Option<Seq<char>>,
    event: Seq<char>,
    p: ApprovalRow,
    outcome: Seq<char>,
    message: Option<Seq<char>>,
    now: i64,
) -> bool {
    b == a.push(b.last()) && remembers(
        b.last(),
        code,
        event,
        Some(p.tool_name@),
        Some(p.input_hash@),
        Some(p.risk),
        outcome,
        message,
        Some(p.short_code@),
        now,
    )
}

impl Database {
    fn note(
        &mut self,
        code: Option<&str>,
        event: &str,
        outcome: &str,
        message: Option<&str>,
        detail: Option<&str>,
        now: i64,
    )
        requires
            old(self).wf(),
        ensures
            final(self).wf(),
            *final(self) == (Database { audit: final(self).audit, ..*old(self) }),
            noted(
                old(self).audit@,
                final(self).audit@,
                opt_str_view(code),
                event@,
                outcome@,
                opt_str_view(message),
                opt_str_view(detail),
                now,
            ),
    {
        self.audit.push(
            AuditRow {
                occurred_at: now,
                session_code: owned(code),
                event_type: event.to_owned(),
                tool_name: None,
                input_hash: None,
                risk: None,
                outcome: outcome.to_owned(),
                qq_message_id: owned(message),
                detail_redacted: owned(detail),
            },
        );
    }

    fn note_approval(
        &mut self,
        code: Option<&str>,
        event: &str,
        i: usize,
        outcome: &str,
        message: Option<&str>,
        now: i64,
    )
        requires
            old(self).wf(),
            i < old(self).approvals@.len(),
        ensures
            final(self).wf(),
            *final(self) == (Database { audit: final(self).audit, ..*old(self) }),
            noted_approval(
                old(self).audit@,
                final(self).audit@,
                opt_str_view(code),
                event@,
                old(self).approvals@[i as int],
                outcome@,
                opt_str_view(message),
                now,
            ),
    {
        let row = AuditRow {
            occurred_at: now,
            session_code: owned(code),
            event_type: event.to_owned(),
            tool_name: Some(self.approvals[i].tool_name.clone()),
            input_hash: Some(self.approvals[i].input_hash.clone()),
            risk: Some(self.approvals[i].risk),
            outcome: outcome.to_owned(),
            qq_message_id: owned(message),
            detail_redacted: Some(self.approvals[i].short_code.clone()),
        };
        self.audit.push(row);
    }

    /// Remembers something that bears on security.
    pub fn audit_security_event(
        &mut self,
        event_type: &str,
        outcome: &str,
        message_id: Option<&str>,
        now: i64,
    )
        requires
            old(self).wf(),
        ensures
            final(self).wf(),
            *final(self) == (Database { audit: final(self).audit, ..*old(self) }),
            noted(
                old(self).audit@,
                final(self).audit@,
                None,
                event_type@,
                outcome@,
                opt_str_view(message_id),
                None,
                now,
            ),
    {
        self.note(None, event_type, outcome, message_id, None, now);
    }
}

// ---------------------------------------------------------------------------
// The owner

/// The owner.
#[derive(Clone, Debug)]
pub struct Owner {
    pub user_openid: String,
    pub enabled: bool,
}

/// What came of a wish to be the owner.
#[derive(Clone, Copy, Debug, PartialEq, Eq, Structural)]
pub enum BindOutcome {
    Bound,
    AlreadyBound,
    InvalidOrExpired,
}

/// Whether the code can be used.
pub open spec fn is_usable(r: BindingCodeRow, now: i64) -> bool {
    r.consumed_at is None && r.expires_at > now
}

/// The condition that the code can be used.
pub open spec fn usable_code(now: i64) -> spec_fn(BindingCodeRow) -> bool {
    |r: BindingCodeRow| is_usable(r, now)
}

/// What codes are ordered by: the latest first.
pub open spec fn latest_code() -> spec_fn(BindingCodeRow) -> (int, int, Seq<char>) {
    |r: BindingCodeRow| (-(r.created_at as int), 0int, Seq::<char>::empty())
}

/// Whether the code in that place is the latest that can be used.
pub open spec fn is_latest_code(rows: Seq<BindingCodeRow>, i: int, now: i64) -> bool {
    &&& 0 <= i < rows.len()
    &&& is_usable(rows[i], now)
    &&& forall|j: int|
        0 <= j < rows.len() && is_usable(#[trigger] rows[j], now) ==> rows[j].created_at
            <= rows[i].created_at
}

/// Whether a code that can be used has that hash.
pub open spec fn has_code(rows: Seq<BindingCodeRow>, hash: Seq<char>, now: i64) -> bool {
    exists|i: int|
        0 <= i < rows.len() && is_usable(#[trigger] rows[i], now) && rows[i].code_hash@ == hash
}

/// What comes of offering that code to whoever wants to be the owner.
pub open spec fn code_outcome(
    a: Database,
    b: Database,
    code: Seq<char>,
    ttl: u64,
    now: i64,
    r: Result<(), Failure>,
) -> bool {
    let kept = a.binding_codes@.filter(usable_code(now));
    let hash = text_hash(code);
    if a.owner is Some {
        b == a && (r matches Err(f) && f.message@ == "an owner is already bound"@)
    } else if ttl > i64::MAX {
        b == a && (r matches Err(f) && f.message@ == "duration exceeds supported range"@)
    } else if has_code(a.binding_codes@, hash, now) {
        &&& r matches Err(f) && f.message@ == "UNIQUE constraint failed: binding_codes.code_hash"@
        &&& b == (Database { binding_codes: b.binding_codes, ..a })
        &&& b.binding_codes@ == kept
    } else {
        &&& r matches Ok(())
        &&& b == (Database { binding_codes: b.binding_codes, audit: b.audit, ..a })
        &&& b.binding_codes@ == kept.push(b.binding_codes@.last())
        &&& b.binding_codes@.last().code_hash@ == hash
        &&& b.binding_codes@.last().created_at == now
        &&& b.binding_codes@.last().expires_at == now + ttl
        &&& b.binding_codes@.last().consumed_at is None
        &&& noted(a.audit@, b.audit@, None, "binding_code_created"@, "created"@, None, None, now)
    }
}

/// Whether `b` is `a` with the owner bound by the code in that place.
pub open spec fn owner_bound(
    a: Database,
    b: Database,
    user: Seq<char>,
    i: int,
    message: Seq<char>,
    now: i64,
) -> bool {
    &&& b == (Database { owner: b.owner, binding_codes: b.binding_codes, audit: b.audit, ..a })
    &&& b.owner matches Some(o) && o.user_openid@ == user && o.bound_at == now && o.enabled
    &&& b.binding_codes@ == a.binding_codes@.update(
        i,
        BindingCodeRow { consumed_at: Some(now), ..a.binding_codes@[i] },
    )
    &&& noted(a.audit@, b.audit@, None, "owner_bound"@, "bound"@, Some(message), None, now)
}

/// What comes of a wish to be the owner. The first who shows the latest code is;
/// after that nobody can be.
pub open spec fn bind_outcome(
    a: Database,
    b: Database,
    user: Seq<char>,
    code: Seq<char>,
    message: Seq<char>,
    now: i64,
    r: BindOutcome,
) -> bool {
    let hash = text_hash(upper(trim(code)));
    match r {
        BindOutcome::AlreadyBound => a.owner is Some && b == a,
        BindOutcome::InvalidOrExpired => {
            &&& a.owner is None
            &&& b == a
            &&& (forall|i: int|
                0 <= i < a.binding_codes@.len() ==> !is_usable(
                    #[trigger] a.binding_codes@[i],
                    now,
                )) || exists|i: int| #[trigger]
                is_latest_code(a.binding_codes@, i, now) && a.binding_codes@[i].code_hash@ != hash
        },
        BindOutcome::Bound => {
            &&& a.owner is None
            &&& exists|i: int| #[trigger]
                is_latest_code(a.binding_codes@, i, now) && a.binding_codes@[i].code_hash@ == hash
                    && owner_bound(a, b, user, i, message, now)
        },
    }
}

/// What comes of letting the owner command the bridge, or of stopping it.
pub open spec fn switch_outcome(
    a: Database,
    b: Database,
    enabled: bool,
    now: i64,
    r: Result<(), Failure>,
) -> bool {
    match a.owner {
        None => b == a && (r matches Err(f) && f.message@
            == "no owner is bound"@),
        Some(o) => {
            &&& r matches Ok(())
            &&& b == (Database {
                owner: Some(OwnerRow { enabled, ..o }),
                audit: b.audit,
                ..a
            })
            &&& noted(
                a.audit@,
                b.audit@,
                None,
                "emergency_switch"@,
                if enabled {
                    "enabled"@
                } else {
                    "disabled"@
                },
                None,
                None,
                now,
            )
        },
    }
}

impl Database {
    /// The owner, once there is one.
    pub fn owner(&self) -> (r: Option<Owner>)
        ensures
            match self.owner {
                Some(o) => r matches Some(x) && x.user_openid == o.user_openid && x.enabled
                    == o.enabled,
                None => r is None,
            },
    {
        match &self.owner {
            Some(o) => Some(Owner { user_openid: o.user_openid.clone(), enabled: o.enabled }),
            None => None,
        }
    }

    /// Makes a code for whoever wants to be the owner.
    pub fn create_binding_code(&mut self, ttl_seconds: u64, now: i64) -> (r: Result<
        String,
        Failure,
    >)
        requires
            old(self).wf(),
            ttl_seconds <= i64::MAX ==> now + ttl_seconds <= i64::MAX,
        ensures
            final(self).wf(),
            match r {
                Ok(code) => is_code(code@, Some('B'), 7) && code_outcome(
                    *old(self),
                    *final(self),
                    code@,
                    ttl_seconds,
                    now,
                    Ok(()),
                ),
                Err(f) => exists|code: Seq<char>|
                    is_code(code, Some('B'), 7) && #[trigger] code_outcome(
                        *old(self),
                        *final(self),
                        code,
                        ttl_seconds,
                        now,
                        Err(f),
                    ),
            },
    {
        let code = random_code(Some('B'), 7);
        let added = self.add_binding_code(code.as_str(), ttl_seconds, now);
        assert(is_code(code@, Some('B'), 7));
        assert(code_outcome(*old(self), *self, code@, ttl_seconds, now, added));
        match added {
            Ok(()) => {
                let r: Result<String, Failure> = Ok(code);
                assert(code_outcome(*old(self), *self, r->Ok_0@, ttl_seconds, now, Ok(())));
                r
            },
            Err(f) => {
                let r: Result<String, Failure> = Err(f);
                assert(code_outcome(
                    *old(self),
                    *self,
                    code@,
                    ttl_seconds,
                    now,
                    Err(r->Err_0),
                ));
                r
            },
        }
    }

    /// Offers that code to whoever wants to be the owner.
    pub fn add_binding_code(&mut self, code: &str, ttl_seconds: u64, now: i64) -> (r: Result<
        (),
        Failure,
    >)
        requires
            old(self).wf(),
            ttl_seconds <= i64::MAX ==> now + ttl_seconds <= i64::MAX,
        ensures
            final(self).wf(),
            code_outcome(*old(self), *final(self), code@, ttl_seconds, now, r),
    {
        if self.owner.is_some() {
            return Err(failure("an owner is already bound"));
        }
        if ttl_seconds > i64::MAX as u64 {
            return Err(failure("duration exceeds supported range"));
        }
        let expires_at: i64 = now + ttl_seconds as i64;
        let code_hash = sha256_hex(code.as_bytes());
        let ghost a = *self;
        let keep = |r: &BindingCodeRow| -> (b: bool)
            ensures
                b == (usable_code(now))(*r),
        { r.consumed_at.is_none() && r.expires_at > now };
        retain(&mut self.binding_codes, keep, Ghost(usable_code(now)));
        let ghost kept = self.binding_codes@;
        proof {
            lemma_filter_unique(
                a.binding_codes@,
                |r: BindingCodeRow| r.code_hash@,
                usable_code(now),
            );
        }
        let mut i: usize = 0;
        while i < self.binding_codes.len()
            invariant
                i <= kept.len(),
                self.binding_codes@ == kept,
                kept == a.binding_codes@.filter(usable_code(now)),
                code_hash@ == text_hash(code@),
                *self == (Database { binding_codes: self.binding_codes, ..a }),
                *old(self) == a,
                a.owner is None,
                ttl_seconds <= i64::MAX,
                self.wf(),
                forall|j: int| 0 <= j < i ==> (#[trigger] kept[j]).code_hash@ != code_hash@,
            decreases kept.len() - i,
        {
            if str_eq(self.binding_codes[i].code_hash.as_str(), code_hash.as_str()) {
                proof {
                    let row = kept[i as int];
                    assert(kept.contains(row));
                    a.binding_codes@.lemma_filter_contains_rev(usable_code(now), row);
                    a.binding_codes@.lemma_filter_pred(usable_code(now), i as int);
                    let x = choose|x: int|
                        0 <= x < a.binding_codes@.len() && a.binding_codes@[x] == row;
                    assert(is_usable(a.binding_codes@[x], now));
                }
                return Err(failure("UNIQUE constraint failed: binding_codes.code_hash"));
            }
            i += 1;
        }
        proof {
            assert forall|x: int|
                0 <= x < a.binding_codes@.len() && is_usable(
                    #[trigger] a.binding_codes@[x],
                    now,
                ) implies a.binding_codes@[x].code_hash@ != code_hash@ by {
                a.binding_codes@.lemma_filter_contains(usable_code(now), x);
                let j = choose|j: int| 0 <= j < kept.len() && kept[j] == a.binding_codes@[x];
                assert(kept[j].code_hash@ != code_hash@);
            }
            assert(!has_code(a.binding_codes@, code_hash@, now));
        }
        self.binding_codes.push(
            BindingCodeRow { code_hash, created_at: now, expires_at, consumed_at: None },
        );
        self.note(None, "binding_code_created", "created", None, None, now);
        Ok(())
    }

    /// Makes the user the owner, where there is none yet and the code is right.
    pub fn try_bind_owner(
        &mut self,
        user_openid: &str,
        code: &str,
        message_id: &str,
        now: i64,
    ) -> (r: BindOutcome)
        requires
            old(self).wf(),
        ensures
            final(self).wf(),
            bind_outcome(*old(self), *final(self), user_openid@, code@, message_id@, now, r),
    {
        let given = trimmed(code);
        let plain = to_upper(given.as_str());
        let code_hash = sha256_hex(plain.as_str().as_bytes());
        if self.owner.is_some() {
            return BindOutcome::AlreadyBound;
        }
        let test = |r: &BindingCodeRow| -> (b: bool)
            ensures
                b == (usable_code(now))(*r),
        { r.consumed_at.is_none() && r.expires_at > now };
        let key = |r: &BindingCodeRow| -> (s: SortKey)
            ensures
                s@ == (latest_code())(*r),
        { SortKey { first: -(r.created_at as i128), second: 0, text: String::new() } };
        let i = match least(
            &self.binding_codes,
            test,
            key,
            Ghost(usable_code(now)),
            Ghost(latest_code()),
        ) {
            None => {
                proof {
                    assert forall|j: int| 0 <= j < self.binding_codes@.len() implies !is_usable(
                        #[trigger] self.binding_codes@[j],
                        now,
                    ) by {
                        assert(!(usable_code(now))(self.binding_codes@[j]));
                    }
                }
                return BindOutcome::InvalidOrExpired;
            },
            Some(i) => i,
        };
        let ghost a = *self;
        proof {
            assert forall|j: int|
                0 <= j < a.binding_codes@.len() && is_usable(
                    #[trigger] a.binding_codes@[j],
                    now,
                ) implies a.binding_codes@[j].created_at <= a.binding_codes@[i as int].created_at by {
                assert((usable_code(now))(a.binding_codes@[j]));
                assert(!precedes(
                    (latest_code())(a.binding_codes@[j]),
                    (latest_code())(a.binding_codes@[i as int]),
                    false,
                ));
            }
            assert(is_latest_code(a.binding_codes@, i as int, now));
        }
        let stored = self.binding_codes[i].code_hash.as_str();
        let shown = code_hash.as_str();
        proof {
            constant_time_eq_is_equality(stored, shown);
        }
        if !constant_time_eq(stored, shown) {
            return BindOutcome::InvalidOrExpired;
        }
        self.owner = Some(
            OwnerRow { user_openid: user_openid.to_owned(), bound_at: now, enabled: true },
        );
        self.binding_codes[i].consumed_at = Some(now);
        self.note(None, "owner_bound", "bound", Some(message_id), None, now);
        assert(owner_bound(a, *self, user_openid@, i as int, message_id@, now));
        BindOutcome::Bound
    }

    /// Lets the owner command the bridge, or stops it.
    pub fn set_owner_enabled(&mut self, enabled: bool, now: i64) -> (r: Result<(), Failure>)
        requires
            old(self).wf(),
        ensures
            final(self).wf(),
            switch_outcome(
                *old(self),
                *final(self),
                enabled,
                now,
                r,
            ),
    {
        match self.owner.take() {
            None => {
                return Err(failure("no owner is bound"));
            },
            Some(mut o) => {
                o.enabled = enabled;
                self.owner = Some(o);
            },
        }
        let outcome = if enabled {
            "enabled"
        } else {
            "disabled"
        };
        self.note(None, "emergency_switch", outcome, None, None, now);
        Ok(())
    }
}

// ---------------------------------------------------------------------------
// Agent sessions

/// An agent session.
#[derive(Clone, Debug)]
pub struct SessionRecord {
    pub session_id: String,
    pub short_code: String,
    pub state: String,
    pub final_sent: bool,
}

/// The condition of being the session with that identifier.
pub open spec fn with_session_id(id: Seq<char>) -> spec_fn(SessionRow) -> bool {
    |r: SessionRow| r.session_id@ == id
}

/// The condition of being the running session with that code.
pub open spec fn running_code(code: Seq<char>) -> spec_fn(SessionRow) -> bool {
    |r: SessionRow| r.short_code@ == code && is_running(r)
}

/// The condition of being a running session.
pub open spec fn running() -> spec_fn(SessionRow) -> bool {
    |r: SessionRow| is_running(r)
}

/// Whether the record shows the session.
pub open spec fn shows_agent(row: SessionRow, r: SessionRecord) -> bool {
    &&& r.session_id == row.session_id
    &&& r.short_code == row.short_code
    &&& r.state@ == row.state.label()
    &&& r.final_sent == row.final_sent
}

/// The session after it was started again.
pub open spec fn restarted(p: SessionRow, q: SessionRow, workspace: Seq<char>, now: i64) -> bool {
    &&& q == (SessionRow {
        workspace_hash: q.workspace_hash,
        state: SessionState::Active,
        final_sent: false,
        stop_blocked_once: false,
        cancel_requested: false,
        updated_at: now,
        ..p
    })
    &&& q.workspace_hash@ == workspace
}

/// Whether the row is a session that was just started.
pub open spec fn is_new_session(
    r: SessionRow,
    id: Seq<char>,
    code: Seq<char>,
    workspace: Seq<char>,
    now: i64,
) -> bool {
    &&& r.session_id@ == id
    &&& r.short_code@ == code
    &&& r.workspace_hash@ == workspace
    &&& r.state == SessionState::Active
    &&& !r.final_sent
    &&& !r.stop_blocked_once
    &&& !r.cancel_requested
    &&& r.created_at == now
    &&& r.updated_at == now
}

/// Whether no session has that code.
pub open spec fn is_session_code_free(rows: Seq<SessionRow>, code: Seq<char>) -> bool {
    forall|i: int| 0 <= i < rows.len() ==> (#[trigger] rows[i]).short_code@ != code
}

/// Whether `b` is `a` with the known session started again.
pub open spec fn session_restarted(
    a: Database,
    b: Database,
    row: SessionRow,
    workspace: Seq<char>,
    now: i64,
) -> bool {
    &&& b == (Database { sessions: b.sessions, audit: b.audit, ..a })
    &&& changed(
        a.sessions@,
        b.sessions@,
        |p: SessionRow, q: SessionRow|
            if p.session_id@ == row.session_id@ {
                restarted(p, q, workspace, now)
            } else {
                q == p
            },
    )
    &&& noted(
        a.audit@,
        b.audit@,
        Some(row.short_code@),
        "session_started"@,
        "restarted"@,
        None,
        None,
        now,
    )
}

/// Whether `b` is `a` with a session that was just started.
pub open spec fn session_added(
    a: Database,
    b: Database,
    id: Seq<char>,
    code: Seq<char>,
    workspace: Seq<char>,
    now: i64,
) -> bool {
    &&& b == (Database { sessions: b.sessions, audit: b.audit, ..a })
    &&& b.sessions@ == a.sessions@.push(b.sessions@.last())
    &&& is_new_session(b.sessions@.last(), id, code, workspace, now)
    &&& noted(
        a.audit@,
        b.audit@,
        Some(code),
        "session_started"@,
        "created"@,
        None,
        None,
        now,
    )
}

/// The condition of being a code that no session has.
pub open spec fn free_session_code(rows: Seq<SessionRow>) -> spec_fn(String) -> bool {
    |s: String| is_session_code_free(rows, s@)
}

/// What comes of starting a session, where these codes were drawn for it: a known
/// one is started again, a new one gets the first of the codes that is free, and
/// where none is nothing happens.
pub open spec fn register_outcome(
    a: Database,
    b: Database,
    id: Seq<char>,
    workspace: Seq<char>,
    drawn: Seq<String>,
    now: i64,
    r: Result<SessionRecord, Failure>,
) -> bool {
    match first(a.sessions@, with_session_id(id)) {
        Some(row) => {
            &&& session_restarted(a, b, row, workspace, now)
            &&& r matches Ok(s) && shows_agent(first(b.sessions@, with_session_id(id))->0, s)
        },
        None => match first(drawn, free_session_code(a.sessions@)) {
            None => b == a && (r matches Err(f) && f.message@
                == "failed to allocate a unique session code"@),
            Some(code) => {
                &&& session_added(a, b, id, code@, workspace, now)
                &&& r matches Ok(s) && shows_agent(b.sessions@.last(), s)
            },
        },
    }
}

/// Whether something is written in the text.
pub open spec fn is_given(text: Option<&str>) -> bool {
    text matches Some(s) && trim(s@).len() > 0
}

/// What comes of looking for the session that is meant.
pub open spec fn resolved(
    db: Database,
    id: Option<&str>,
    label: Option<&str>,
    r: Result<SessionRecord, Failure>,
) -> bool {
    if is_given(id) {
        match first(db.sessions@, with_session_id(id->0@)) {
            None => r matches Err(f) && f.message@ == "unknown session ID "@ + id->0@,
            Some(row) => if is_given(label) && lower(row.short_code@) != lower(label->0@) {
                r matches Err(f) && f.message@
                    == "session label does not match the authenticated MCP session"@
            } else if !is_running(row) {
                r matches Err(f) && f.message@ == "session "@ + row.short_code@ + " is not active"@
            } else {
                r matches Ok(s) && shows_agent(row, s)
            },
        }
    } else if is_given(label) {
        match first(db.sessions@, running_code(upper(label->0@))) {
            None => r matches Err(f) && f.message@ == "unknown or inactive session "@ + label->0@,
            Some(row) => r matches Ok(s) && shows_agent(row, s),
        }
    } else if count(db.sessions@, running()) == 0 {
        r matches Err(f) && f.message@ == "there is no active Agent session"@
    } else if count(db.sessions@, running()) == 1 {
        r matches Ok(s) && shows_agent(first(db.sessions@, running())->0, s)
    } else {
        r matches Err(f) && f.message@
            == "multiple Agent sessions are active; provide a session label"@
    }
}

fn agent_record(row: &SessionRow) -> (r: SessionRecord)
    ensures
        shows_agent(*row, r),
{
    SessionRecord {
        session_id: row.session_id.clone(),
        short_code: row.short_code.clone(),
        state: row.state.as_str().to_owned(),
        final_sent: row.final_sent,
    }
}

proof fn lemma_sessions_keep_ids(a: Database, b: Database)
    requires
        a.wf(),
        b == (Database { sessions: b.sessions, ..a }),
        a.sessions@.len() <= b.sessions@.len(),
        forall|i: int|
            0 <= i < a.sessions@.len() ==> (#[trigger] b.sessions@[i]).session_id@
                == a.sessions@[i].session_id@,
    ensures
        forall|id: Seq<char>| #[trigger] has_session(a.sessions@, id) ==> has_session(b.sessions@, id),
        approvals_wf(b.approvals@, b.sessions@),
        questions_wf(b.questions@, b.sessions@),
{
    assert forall|id: Seq<char>| #[trigger] has_session(a.sessions@, id) implies has_session(
        b.sessions@,
        id,
    ) by {
        let i = choose|i: int| 0 <= i < a.sessions@.len() && (#[trigger] a.sessions@[i]).session_id@ == id;
        assert(b.sessions@[i].session_id@ == id);
    }
}

impl Database {
    pub(crate) fn find_session(&self, id: &str) -> (r: Option<usize>)
        ensures
            match r {
                Some(i) => i < self.sessions@.len() && first(self.sessions@, with_session_id(id@))
                    == Some(self.sessions@[i as int]) && self.sessions@[i as int].session_id@ == id@
                    && has_session(self.sessions@, id@),
                None => first(self.sessions@, with_session_id(id@)) is None && !has_session(
                    self.sessions@,
                    id@,
                ),
            },
    {
        let test = |r: &SessionRow| -> (b: bool)
            ensures
                b == (with_session_id(id@))(*r),
        { str_eq(r.session_id.as_str(), id) };
        let r = find(&self.sessions, test, Ghost(with_session_id(id@)));
        proof {
            if r is None && has_session(self.sessions@, id@) {
                let i = choose|i: int|
                    0 <= i < self.sessions@.len() && (#[trigger] self.sessions@[i]).session_id@ == id@;
                assert(!(with_session_id(id@))(self.sessions@[i]));
            }
        }
        r
    }

    /// The session with that identifier.
    pub fn session_by_id(&self, session_id: &str) -> (r: Option<SessionRecord>)
        ensures
            match first(self.sessions@, with_session_id(session_id@)) {
                Some(row) => r matches Some(s) && shows_agent(row, s),
                None => r is None,
            },
    {
        match self.find_session(session_id) {
            Some(i) => Some(agent_record(&self.sessions[i])),
            None => None,
        }
    }

    fn is_code_of_none(&self, code: &str) -> (r: bool)
        ensures
            r == is_session_code_free(self.sessions@, code@),
    {
        let mut i: usize = 0;
        while i < self.sessions.len()
            invariant
                i <= self.sessions@.len(),
                forall|j: int| 0 <= j < i ==> (#[trigger] self.sessions@[j]).short_code@ != code@,
            decreases self.sessions@.len() - i,
        {
            if str_eq(self.sessions[i].short_code.as_str(), code) {
                return false;
            }
            i += 1;
        }
        true
    }

    /// Starts a session, or starts it again.
    pub fn register_session(&mut self, session_id: &str, workspace_hash: &str, now: i64) -> (r:
        Result<SessionRecord, Failure>)
        requires
            old(self).wf(),
        ensures
            final(self).wf(),
            exists|drawn: Seq<String>|
                are_codes(drawn, Some('S'), 4) && #[trigger] register_outcome(
                    *old(self),
                    *final(self),
                    session_id@,
                    workspace_hash@,
                    drawn,
                    now,
                    r,
                ),
    {
        let drawn = draw_codes(Some('S'), 4);
        self.register_with_codes(session_id, workspace_hash, &drawn, now)
    }

    /// Starts a session, or starts it again; a new one gets the first of the codes
    /// that no session has.
    pub fn register_with_codes(
        &mut self,
        session_id: &str,
        workspace_hash: &str,
        drawn: &Vec<String>,
        now: i64,
    ) -> (r: Result<SessionRecord, Failure>)
        requires
            old(self).wf(),
        ensures
            final(self).wf(),
            register_outcome(
                *old(self),
                *final(self),
                session_id@,
                workspace_hash@,
                drawn@,
                now,
                r,
            ),
    {
        let ghost a = *self;
        if let Some(i) = self.find_session(session_id) {
            self.sessions[i].workspace_hash = workspace_hash.to_owned();
            self.sessions[i].state = SessionState::Active;
            self.sessions[i].final_sent = false;
            self.sessions[i].stop_blocked_once = false;
            self.sessions[i].cancel_requested = false;
            self.sessions[i].updated_at = now;
            let ghost m = *self;
            proof {
                lemma_sessions_keep_ids(a, m);
                assert forall|j: int| 0 <= j < a.sessions@.len() && j != i implies (
                #[trigger] a.sessions@[j]).session_id@ != session_id@ by {
                    assert(a.sessions@[i as int].session_id@ == session_id@);
                }
                lemma_first(m.sessions@, with_session_id(session_id@), i as int);
            }
            let code = self.sessions[i].short_code.clone();
            let record = agent_record(&self.sessions[i]);
            self.note(Some(code.as_str()), "session_started", "restarted", None, None, now);
            return Ok(record);
        }
        let test = |s: &String| -> (b: bool)
            ensures
                b == (free_session_code(self.sessions@))(*s),
        { self.is_code_of_none(s.as_str()) };
        match find(drawn, test, Ghost(free_session_code(self.sessions@))) {
            None => Err(failure("failed to allocate a unique session code")),
            Some(k) => Ok(self.add_session(session_id, drawn[k].as_str(), workspace_hash, now)),
        }
    }

    /// Starts a session under a code that is free.
    pub fn add_session(
        &mut self,
        session_id: &str,
        code: &str,
        workspace_hash: &str,
        now: i64,
    ) -> (s: SessionRecord)
        requires
            old(self).wf(),
            !has_session(old(self).sessions@, session_id@),
            is_session_code_free(old(self).sessions@, code@),
        ensures
            final(self).wf(),
            session_added(*old(self), *final(self), session_id@, code@, workspace_hash@, now),
            s.short_code@ == code@,
            shows_agent(final(self).sessions@.last(), s),
    {
        let ghost a = *self;
        let row = SessionRow {
            session_id: session_id.to_owned(),
            short_code: code.to_owned(),
            workspace_hash: workspace_hash.to_owned(),
            state: SessionState::Active,
            final_sent: false,
            stop_blocked_once: false,
            cancel_requested: false,
            created_at: now,
            updated_at: now,
        };
        let record = agent_record(&row);
        self.sessions.push(row);
        proof {
            lemma_sessions_keep_ids(a, *self);
            assert forall|j: int| 0 <= j < a.sessions@.len() implies (
            #[trigger] a.sessions@[j]).session_id@ != session_id@ by {}
        }
        self.note(Some(code), "session_started", "created", None, None, now);
        record
    }

    /// The running session that is meant: that with the identifier, else that
    /// with the label, else the only one.
    pub fn resolve_session(&self, session_id: Option<&str>, session_label: Option<&str>) -> (r:
        Result<SessionRecord, Failure>)
        ensures
            resolved(*self, session_id, session_label, r),
    {
        let label_given = match session_label {
            Some(s) => !is_blank(s),
            None => false,
        };
        if let Some(id) = session_id {
            if !is_blank(id) {
                let i = match self.find_session(id) {
                    None => {
                        let message = cat("unknown session ID ", id);
                        return Err(failure(message.as_str()));
                    },
                    Some(i) => i,
                };
                let row = &self.sessions[i];
                if let Some(label) = session_label {
                    if label_given && !eq_ignore_case(row.short_code.as_str(), label) {
                        return Err(
                            failure("session label does not match the authenticated MCP session"),
                        );
                    }
                }
                if row.state != SessionState::Active && row.state != SessionState::Waiting {
                    let message = cat3("session ", row.short_code.as_str(), " is not active");
                    return Err(failure(message.as_str()));
                }
                return Ok(agent_record(row));
            }
        }
        if let Some(label) = session_label {
            if label_given {
                let code = to_upper(label);
                let test = |r: &SessionRow| -> (b: bool)
                    ensures
                        b == (running_code(code@))(*r),
                {
                    str_eq(r.short_code.as_str(), code.as_str()) && (r.state == SessionState::Active
                        || r.state == SessionState::Waiting)
                };
                return match find(&self.sessions, test, Ghost(running_code(code@))) {
                    None => {
                        let message = cat("unknown or inactive session ", label);
                        Err(failure(message.as_str()))
                    },
                    Some(i) => Ok(agent_record(&self.sessions[i])),
                };
            }
        }
        let test = |r: &SessionRow| -> (b: bool)
            ensures
                b == (running())(*r),
        { r.state == SessionState::Active || r.state == SessionState::Waiting };
        let n = count_rows(&self.sessions, test, Ghost(running()));
        if n == 0 {
            return Err(failure("there is no active Agent session"));
        }
        if n > 1 {
            return Err(failure("multiple Agent sessions are active; provide a session label"));
        }
        let test = |r: &SessionRow| -> (b: bool)
            ensures
                b == (running())(*r),
        { r.state == SessionState::Active || r.state == SessionState::Waiting };
        match find(&self.sessions, test, Ghost(running())) {
            Some(i) => Ok(agent_record(&self.sessions[i])),
            None => {
                proof {
                    lemma_first_holds(self.sessions@, running());
                    lemma_none_counted(self.sessions@, running());
                }
                Err(failure("there is no active Agent session"))
            },
        }
    }
}

proof fn lemma_none_counted<T>(rows: Seq<T>, p: spec_fn(T) -> bool)
    requires
        forall|j: int| 0 <= j < rows.len() ==> !p(#[trigger] rows[j]),
    ensures
        count(rows, p) == 0,
    decreases rows.len(),
{
    reveal(Seq::filter);
    if rows.len() > 0 {
        let rest = rows.drop_last();
        assert forall|j: int| 0 <= j < rest.len() implies !p(#[trigger] rest[j]) by {
            assert(!p(rows[j]));
        }
        lemma_none_counted(rest, p);
        assert(!p(rows[rows.len() - 1]));
    }
}

// ---------------------------------------------------------------------------
// Approvals

/// An approval to ask for.
#[derive(Clone, Debug)]
pub struct NewApproval {
    pub approval_id: u128,
    pub idempotency_key: String,
    pub session_id: String,
    pub tool_use_id: String,
    pub tool_name: String,
    pub input_hash: String,
    pub redacted_summary: String,
    pub risk: RiskLevel,
    pub expires_at: i64,
}

/// An approval that was asked for.
#[derive(Clone, Debug)]
pub struct ApprovalRecord {
    pub approval_id: u128,
    pub short_code: String,
    pub idempotency_key: String,
    pub session_id: String,
    pub tool_use_id: String,
    pub tool_name: String,
    pub input_hash: String,
    pub redacted_summary: String,
    pub risk: RiskLevel,
    pub state: ApprovalState,
    pub expires_at: i64,
}

/// An approval that was asked for, and whether it is new.
#[derive(Clone, Debug)]
pub struct BeginApproval {
    pub record: ApprovalRecord,
    pub created: bool,
}

/// The state of an approval that the owner has spoken on.
#[derive(Clone, Debug)]
pub struct ApprovalDecision {
    pub approval_id: u128,
    pub session_id: String,
    pub short_code: String,
    pub state: ApprovalState,
}

/// The condition of being the approval with that key.
pub open spec fn approval_keyed(key: Seq<char>) -> spec_fn(ApprovalRow) -> bool {
    |r: ApprovalRow| r.idempotency_key@ == key
}

/// The condition of being the approval with that code.
pub open spec fn approval_coded(code: Seq<char>) -> spec_fn(ApprovalRow) -> bool {
    |r: ApprovalRow| r.short_code@ == code
}

/// The condition of being the approval with that identifier.
pub open spec fn approval_numbered(id: u128) -> spec_fn(ApprovalRow) -> bool {
    |r: ApprovalRow| r.approval_id == id
}

/// Whether the record shows the approval.
pub open spec fn shows_approval(row: ApprovalRow, r: ApprovalRecord) -> bool {
    &&& r.approval_id == row.approval_id
    &&& r.short_code == row.short_code
    &&& r.idempotency_key == row.idempotency_key
    &&& r.session_id == row.session_id
    &&& r.tool_use_id == row.tool_use_id
    &&& r.tool_name == row.tool_name
    &&& r.input_hash == row.input_hash
    &&& r.redacted_summary == row.redacted_summary
    &&& r.risk == row.risk
    &&& r.state == row.state
    &&& r.expires_at == row.expires_at
}

/// An approval that waited too long has expired.
pub open spec fn lapse_approval(p: ApprovalRow, now: i64) -> ApprovalRow {
    if p.state == ApprovalState::Pending && p.expires_at <= now {
        ApprovalRow {
            state: ApprovalState::Expired,
            updated_at: now,
            ..p
        }
    } else {
        p
    }
}

/// Whether each row of `b` is the row of `a` in its place after that change.
pub open spec fn all_lapse_approval(a: Seq<ApprovalRow>, b: Seq<ApprovalRow>, now: i64) -> bool {
    a.len() == b.len() && forall|i: int|
        0 <= i < a.len() ==> #[trigger] b[i] == lapse_approval(a[i], now)
}

pub(crate) fn apply_lapse_approval(rows: &mut Vec<ApprovalRow>, now: i64)
    ensures
        all_lapse_approval(old(rows)@, final(rows)@, now),
{
    let ghost a = rows@;
    let mut i: usize = 0;
    while i < rows.len()
        invariant
            i <= rows@.len(),
            rows@.len() == a.len(),
            forall|j: int| 0 <= j < i ==> #[trigger] rows@[j] == lapse_approval(a[j], now),
            forall|j: int| i <= j < rows@.len() ==> #[trigger] rows@[j] == a[j],
        decreases rows@.len() - i,
    {
        if rows[i].state == ApprovalState::Pending && rows[i].expires_at <= now {
            rows[i].state = ApprovalState::Expired;
            rows[i].updated_at = now;
        }
        i += 1;
    }
}

/// The approval with that identifier, if it waits, has expired.
pub open spec fn drop_approval(p: ApprovalRow, id: u128, now: i64) -> ApprovalRow {
    if p.approval_id == id && p.state == ApprovalState::Pending {
        ApprovalRow {
            state: ApprovalState::Expired,
            updated_at: now,
            ..p
        }
    } else {
        p
    }
}

/// Whether each row of `b` is the row of `a` in its place after that change.
pub open spec fn all_drop_approval(a: Seq<ApprovalRow>, b: Seq<ApprovalRow>, id: u128, now: i64) -> bool {
    a.len() == b.len() && forall|i: int|
        0 <= i < a.len() ==> #[trigger] b[i] == drop_approval(a[i], id, now)
}

pub(crate) fn apply_drop_approval(rows: &mut Vec<ApprovalRow>, id: u128, now: i64)
    ensures
        all_drop_approval(old(rows)@, final(rows)@, id, now),
{
    let ghost a = rows@;
    let mut i: usize = 0;
    while i < rows.len()
        invariant
            i <= rows@.len(),
            rows@.len() == a.len(),
            forall|j: int| 0 <= j < i ==> #[trigger] rows@[j] == drop_approval(a[j], id, now),
            forall|j: int| i <= j < rows@.len() ==> #[trigger] rows@[j] == a[j],
        decreases rows@.len() - i,
    {
        if rows[i].approval_id == id && rows[i].state == ApprovalState::Pending {
            rows[i].state = ApprovalState::Expired;
            rows[i].updated_at = now;
        }
        i += 1;
    }
}

/// The approval with that identifier, if it waits, is denied.
pub open spec fn refuse_approval(p: ApprovalRow, id: u128, now: i64) -> ApprovalRow {
    if p.approval_id == id && p.state == ApprovalState::Pending {
        ApprovalRow {
            state: ApprovalState::Denied,
            updated_at: now,
            ..p
        }
    } else {
        p
    }
}

/// Whether each row of `b` is the row of `a` in its place after that change.
pub open spec fn all_refuse_approval(a: Seq<ApprovalRow>, b: Seq<ApprovalRow>, id: u128, now: i64) -> bool {
    a.len() == b.len() && forall|i: int|
        0 <= i < a.len() ==> #[trigger] b[i] == refuse_approval(a[i], id, now)
}

pub(crate) fn apply_refuse_approval(rows: &mut Vec<ApprovalRow>, id: u128, now: i64)
    ensures
        all_refuse_approval(old(rows)@, final(rows)@, id, now),
{
    let ghost a = rows@;
    let mut i: usize = 0;
    while i < rows.len()
        invariant
            i <= rows@.len(),
            rows@.len() == a.len(),
            forall|j: int| 0 <= j < i ==> #[trigger] rows@[j] == refuse_approval(a[j], id, now),
            forall|j: int| i <= j < rows@.len() ==> #[trigger] rows@[j] == a[j],
        decreases rows@.len() - i,
    {
        if rows[i].approval_id == id && rows[i].state == ApprovalState::Pending {
            rows[i].state = ApprovalState::Denied;
            rows[i].updated_at = now;
        }
        i += 1;
    }
}

/// An allowed tool call of the session is completed.
pub open spec fn close_approval(p: ApprovalRow, session: Seq<char>, tool: Seq<char>, now: i64) -> ApprovalRow {
    if p.session_id@ == session && p.tool_use_id@ == tool && p.state == ApprovalState::Allowed {
        ApprovalRow {
            state: ApprovalState::Completed,
            updated_at: now,
            ..p
        }
    } else {
        p
    }
}

/// Whether each row of `b` is the row of `a` in its place after that change.
pub open spec fn all_close_approval(a: Seq<ApprovalRow>, b: Seq<ApprovalRow>, session: Seq<char>, tool: Seq<char>, now: i64) -> bool {
    a.len() == b.len() && forall|i: int|
        0 <= i < a.len() ==> #[trigger] b[i] == close_approval(a[i], session, tool, now)
}

pub(crate) fn apply_close_approval(rows: &mut Vec<ApprovalRow>, session: &str, tool: &str, now: i64)
    ensures
        all_close_approval(old(rows)@, final(rows)@, session@, tool@, now),
{
    let ghost a = rows@;
    let mut i: usize = 0;
    while i < rows.len()
        invariant
            i <= rows@.len(),
            rows@.len() == a.len(),
            forall|j: int| 0 <= j < i ==> #[trigger] rows@[j] == close_approval(a[j], session@, tool@, now),
            forall|j: int| i <= j < rows@.len() ==> #[trigger] rows@[j] == a[j],
        decreases rows@.len() - i,
    {
        if str_eq(rows[i].session_id.as_str(), session) && str_eq(rows[i].tool_use_id.as_str(), tool)
            && rows[i].state == ApprovalState::Allowed {
            rows[i].state = ApprovalState::Completed;
            rows[i].updated_at = now;
        }
        i += 1;
    }
}

/// What became of an allowed tool call of the session is not known.
pub open spec fn abandon_approval(p: ApprovalRow, session: Seq<char>, now: i64) -> ApprovalRow {
    if p.session_id@ == session && p.state == ApprovalState::Allowed {
        ApprovalRow {
            state: ApprovalState::UnknownFailure,
            updated_at: now,
            ..p
        }
    } else {
        p
    }
}

/// Whether each row of `b` is the row of `a` in its place after that change.
pub open spec fn all_abandon_approval(a: Seq<ApprovalRow>, b: Seq<ApprovalRow>, session: Seq<char>, now: i64) -> bool {
    a.len() == b.len() && forall|i: int|
        0 <= i < a.len() ==> #[trigger] b[i] == abandon_approval(a[i], session, now)
}

pub(crate) fn apply_abandon_approval(rows: &mut Vec<ApprovalRow>, session: &str, now: i64)
    ensures
        all_abandon_approval(old(rows)@, final(rows)@, session@, now),
{
    let ghost a = rows@;
    let mut i: usize = 0;
    while i < rows.len()
        invariant
            i <= rows@.len(),
            rows@.len() == a.len(),
            forall|j: int| 0 <= j < i ==> #[trigger] rows@[j] == abandon_approval(a[j], session@, now),
            forall|j: int| i <= j < rows@.len() ==> #[trigger] rows@[j] == a[j],
        decreases rows@.len() - i,
    {
        if str_eq(rows[i].session_id.as_str(), session) && rows[i].state == ApprovalState::Allowed {
            rows[i].state = ApprovalState::UnknownFailure;
            rows[i].updated_at = now;
        }
        i += 1;
    }
}

/// Whether `b` is `a` with the approvals that waited too long expired.
pub open spec fn lapsed(a: Database, b: Database, now: i64) -> bool {
    &&& b == (Database { approvals: b.approvals, ..a })
    &&& all_lapse_approval(a.approvals@, b.approvals@, now)
}

/// Whether the session waits for an approval that has not expired.
pub open spec fn awaits_approval(rows: Seq<ApprovalRow>, session: Seq<char>, now: i64) -> bool {
    exists|i: int|
        0 <= i < rows.len() && (#[trigger] rows[i]).session_id@ == session && rows[i].state
            == ApprovalState::Pending && rows[i].expires_at > now
}

/// Whether no approval has that code.
pub open spec fn is_approval_code_free(rows: Seq<ApprovalRow>, code: Seq<char>) -> bool {
    forall|i: int| 0 <= i < rows.len() ==> (#[trigger] rows[i]).short_code@ != code
}

/// Why an approval that was not asked for before cannot be asked for now.
pub open spec fn approval_fault(db: Database, p: NewApproval, now: i64) -> Option<Seq<char>> {
    let session = first(db.sessions@, with_session_id(p.session_id@));
    if session is None || !is_running(session->0) {
        Some("Agent session is not active"@)
    } else if awaits_approval(db.approvals@, p.session_id@, now) {
        Some("this Agent session already has a pending approval"@)
    } else if first(db.approvals@, approval_numbered(p.approval_id)) is Some {
        Some("failed to allocate a unique approval code"@)
    } else {
        None
    }
}

/// Whether the row is an approval that was just asked for.
pub open spec fn is_new_approval(r: ApprovalRow, p: NewApproval, code: Seq<char>, now: i64) -> bool {
    &&& r.approval_id == p.approval_id
    &&& r.short_code@ == code
    &&& r.idempotency_key == p.idempotency_key
    &&& r.session_id == p.session_id
    &&& r.tool_use_id == p.tool_use_id
    &&& r.tool_name == p.tool_name
    &&& r.input_hash == p.input_hash
    &&& r.redacted_summary == p.redacted_summary
    &&& r.risk == p.risk
    &&& r.state == ApprovalState::Pending
    &&& r.decided_by_message_id is None
    &&& r.expires_at == p.expires_at
    &&& r.created_at == now
    &&& r.updated_at == now
}

/// The code of the session.
pub open spec fn code_of(db: Database, session: Seq<char>) -> Option<Seq<char>> {
    match first(db.sessions@, with_session_id(session)) {
        Some(row) => Some(row.short_code@),
        None => None,
    }
}

/// Whether `b` is `a` with the approval asked for under that code.
pub open spec fn approval_added(
    a: Database,
    b: Database,
    p: NewApproval,
    code: Seq<char>,
    now: i64,
) -> bool {
    exists|m: Database|
        {
            &&& #[trigger] lapsed(a, m, now)
            &&& b == (Database { approvals: b.approvals, audit: b.audit, ..m })
            &&& b.approvals@ == m.approvals@.push(b.approvals@.last())
            &&& is_new_approval(b.approvals@.last(), p, code, now)
            &&& noted_approval(
                a.audit@,
                b.audit@,
                code_of(a, p.session_id@),
                "approval_created"@,
                b.approvals@.last(),
                "pending"@,
                None,
                now,
            )
        }
}

/// The state of an approval that the owner has spoken on.
pub open spec fn spoken(allow: bool) -> ApprovalState {
    if allow {
        ApprovalState::Allowed
    } else {
        ApprovalState::Denied
    }
}

/// Whether `b` is `a` with the approval allowed or denied.
pub open spec fn decided(
    a: Database,
    b: Database,
    row: ApprovalRow,
    allow: bool,
    message: Seq<char>,
    now: i64,
) -> bool {
    exists|m: Database|
        {
            &&& #[trigger] lapsed(a, m, now)
            &&& b == (Database { approvals: b.approvals, audit: b.audit, ..m })
            &&& changed(
                m.approvals@,
                b.approvals@,
                |p: ApprovalRow, q: ApprovalRow|
                    if p.approval_id == row.approval_id {
                        q == (ApprovalRow {
                            state: spoken(allow),
                            decided_by_message_id: q.decided_by_message_id,
                            updated_at: now,
                            ..p
                        }) && opt_view(q.decided_by_message_id) == Some(message)
                    } else {
                        q == p
                    },
            )
            &&& noted_approval(
                a.audit@,
                b.audit@,
                code_of(a, row.session_id@),
                "approval_decided"@,
                row,
                spoken(allow).label(),
                Some(message),
                now,
            )
        }
}

/// Whether the record tells the state of the approval.
pub open spec fn tells_decision(row: ApprovalRow, d: ApprovalDecision) -> bool {
    &&& d.approval_id == row.approval_id
    &&& d.session_id == row.session_id
    &&& d.short_code == row.short_code
    &&& d.state == row.state
}

/// Whether the approval is for that tool call of the session.
pub open spec fn is_for_tool(r: ApprovalRow, session: Seq<char>, tool: Seq<char>) -> bool {
    r.session_id@ == session && r.tool_use_id@ == tool
}

/// The condition of being for that tool call of the session.
pub open spec fn for_tool(session: Seq<char>, tool: Seq<char>) -> spec_fn(ApprovalRow) -> bool {
    |r: ApprovalRow| is_for_tool(r, session, tool)
}

/// What approvals are ordered by: the latest first.
pub open spec fn latest_approval() -> spec_fn(ApprovalRow) -> (int, int, Seq<char>) {
    |r: ApprovalRow| (-(r.created_at as int), 0int, Seq::<char>::empty())
}

/// Whether the approval in that place is the latest for the tool call.
pub open spec fn is_latest_for(
    rows: Seq<ApprovalRow>,
    i: int,
    session: Seq<char>,
    tool: Seq<char>,
) -> bool {
    &&& 0 <= i < rows.len()
    &&& is_for_tool(rows[i], session, tool)
    &&& forall|j: int|
        0 <= j < rows.len() && is_for_tool(#[trigger] rows[j], session, tool) ==> rows[j].created_at
            <= rows[i].created_at
}

fn approval_record(row: &ApprovalRow) -> (r: ApprovalRecord)
    ensures
        shows_approval(*row, r),
{
    ApprovalRecord {
        approval_id: row.approval_id,
        short_code: row.short_code.clone(),
        idempotency_key: row.idempotency_key.clone(),
        session_id: row.session_id.clone(),
        tool_use_id: row.tool_use_id.clone(),
        tool_name: row.tool_name.clone(),
        input_hash: row.input_hash.clone(),
        redacted_summary: row.redacted_summary.clone(),
        risk: row.risk,
        state: row.state,
        expires_at: row.expires_at,
    }
}

/// What comes of the owner's word on an approval.
pub open spec fn decide_outcome(
    a: Database,
    b: Database,
    code: Seq<char>,
    allow: bool,
    message: Seq<char>,
    now: i64,
    r: Option<ApprovalDecision>,
) -> bool {
    match first(a.approvals@, approval_coded(upper(code))) {
        None => b == a && r is None,
        Some(row) => if lapse_approval(row, now).state != ApprovalState::Pending {
            b == a && (r matches Some(d) && tells_decision(
                lapse_approval(row, now),
                d,
            ))
        } else {
            &&& decided(a, b, row, allow, message, now)
            &&& r matches Some(d) && tells_decision(
                ApprovalRow { state: spoken(allow), ..row },
                d,
            )
        },
    }
}

/// The condition of being a code that no approval has.
pub open spec fn free_approval_code(rows: Seq<ApprovalRow>) -> spec_fn(String) -> bool {
    |s: String| is_approval_code_free(rows, s@)
}

/// What comes of asking for an approval, where these codes were drawn for it: it gets
/// the first of them that is free, and where none is nothing happens.
pub open spec fn ask_outcome(
    a: Database,
    b: Database,
    approval: NewApproval,
    drawn: Seq<String>,
    now: i64,
    r: Result<BeginApproval, Failure>,
) -> bool {
    match first(a.approvals@, approval_keyed(approval.idempotency_key@)) {
        Some(row) => lapsed(a, b, now) && (r matches Ok(begun)
            && !begun.created && shows_approval(lapse_approval(row, now), begun.record)),
        None => match approval_fault(a, approval, now) {
            Some(message) => b == a && (r matches Err(f) && f.message@ == message),
            None => match first(drawn, free_approval_code(a.approvals@)) {
                None => b == a && (r matches Err(f) && f.message@
                    == "failed to allocate a unique approval code"@),
                Some(code) => {
                    &&& approval_added(a, b, approval, code@, now)
                    &&& r matches Ok(begun) && begun.created && shows_approval(
                        b.approvals@.last(),
                        begun.record,
                    )
                },
            },
        },
    }
}

/// What comes of word that a tool call is over.
pub open spec fn complete_outcome(
    a: Database,
    b: Database,
    session: Seq<char>,
    tool: Seq<char>,
    now: i64,
    r: bool,
) -> bool {
    &&& all_close_approval(
        a.approvals@,
        b.approvals@,
        session,
        tool,
        now,
    )
    &&& r == exists|i: int|
        0 <= i < a.approvals@.len() && is_for_tool(
            #[trigger] a.approvals@[i],
            session,
            tool,
        ) && a.approvals@[i].state == ApprovalState::Allowed
    &&& b == (Database {
        approvals: b.approvals,
        audit: b.audit,
        ..a
    })
    &&& if r {
        noted(
            a.audit@,
            b.audit@,
            code_of(a, session),
            "tool_completed"@,
            "completed"@,
            None,
            Some(tool),
            now,
        )
    } else {
        b.audit == a.audit
    }
}

/// What comes of a request for approval that did not reach the owner.
pub open spec fn undelivered_outcome(
    a: Database,
    b: Database,
    approval_id: u128,
    outcome: Seq<char>,
    now: i64,
) -> bool {
    &&& b == (Database {
        approvals: b.approvals,
        audit: b.audit,
        ..a
    })
    &&& all_refuse_approval(a.approvals@, b.approvals@, approval_id, now)
    &&& noted(
        a.audit@,
        b.audit@,
        None,
        "approval_notification_failed"@,
        outcome,
        None,
        None,
        now,
    )
}

impl Database {
    fn find_approval(&self, code: &str) -> (r: Option<usize>)
        ensures
            match r {
                Some(i) => i < self.approvals@.len() && first(self.approvals@, approval_coded(code@))
                    == Some(self.approvals@[i as int]),
                None => first(self.approvals@, approval_coded(code@)) is None,
            },
    {
        let test = |r: &ApprovalRow| -> (b: bool)
            ensures
                b == (approval_coded(code@))(*r),
        { str_eq(r.short_code.as_str(), code) };
        find(&self.approvals, test, Ghost(approval_coded(code@)))
    }

    fn find_approval_id(&self, id: u128) -> (r: Option<usize>)
        ensures
            match r {
                Some(i) => i < self.approvals@.len() && first(self.approvals@, approval_numbered(id))
                    == Some(self.approvals@[i as int]),
                None => first(self.approvals@, approval_numbered(id)) is None && forall|j: int|
                    0 <= j < self.approvals@.len() ==> (#[trigger] self.approvals@[j]).approval_id
                        != id,
            },
    {
        let test = |r: &ApprovalRow| -> (b: bool)
            ensures
                b == (approval_numbered(id))(*r),
        { r.approval_id == id };
        find(&self.approvals, test, Ghost(approval_numbered(id)))
    }

    fn expire_pending(&mut self, now: i64)
        requires
            old(self).wf(),
        ensures
            final(self).wf(),
            lapsed(*old(self), *final(self), now),
    {
        apply_lapse_approval(&mut self.approvals, now);
    }

    fn awaits(&self, session: &str, now: i64) -> (r: bool)
        ensures
            r == awaits_approval(self.approvals@, session@, now),
    {
        let mut i: usize = 0;
        while i < self.approvals.len()
            invariant
                i <= self.approvals@.len(),
                forall|j: int|
                    0 <= j < i ==> !((#[trigger] self.approvals@[j]).session_id@ == session@
                        && self.approvals@[j].state == ApprovalState::Pending
                        && self.approvals@[j].expires_at > now),
            decreases self.approvals@.len() - i,
        {
            if str_eq(self.approvals[i].session_id.as_str(), session) && self.approvals[i].state
                == ApprovalState::Pending && self.approvals[i].expires_at > now {
                return true;
            }
            i += 1;
        }
        false
    }

    fn is_approval_code_of_none(&self, code: &str) -> (r: bool)
        ensures
            r == is_approval_code_free(self.approvals@, code@),
    {
        let mut i: usize = 0;
        while i < self.approvals.len()
            invariant
                i <= self.approvals@.len(),
                forall|j: int| 0 <= j < i ==> (#[trigger] self.approvals@[j]).short_code@ != code@,
            decreases self.approvals@.len() - i,
        {
            if str_eq(self.approvals[i].short_code.as_str(), code) {
                return false;
            }
            i += 1;
        }
        true
    }

    /// Asks for an approval, unless it was asked for before.
    pub fn begin_approval(&mut self, approval: NewApproval, now: i64) -> (r: Result<
        BeginApproval,
        Failure,
    >)
        requires
            old(self).wf(),
        ensures
            final(self).wf(),
            exists|drawn: Seq<String>|
                are_codes(drawn, None, 5) && #[trigger] ask_outcome(
                    *old(self),
                    *final(self),
                    approval,
                    drawn,
                    now,
                    r,
                ),
    {
        let drawn = draw_codes(None, 5);
        self.ask_with_codes(approval, &drawn, now)
    }

    /// Asks for an approval, unless it was asked for before, under the first of the
    /// codes that no approval has.
    pub fn ask_with_codes(&mut self, approval: NewApproval, drawn: &Vec<String>, now: i64) -> (r:
        Result<BeginApproval, Failure>)
        requires
            old(self).wf(),
        ensures
            final(self).wf(),
            ask_outcome(*old(self), *final(self), approval, drawn@, now, r),
    {
        let ghost a = *self;
        let key = approval.idempotency_key.as_str();
        let test = |r: &ApprovalRow| -> (b: bool)
            ensures
                b == (approval_keyed(key@))(*r),
        { str_eq(r.idempotency_key.as_str(), key) };
        let known = find(&self.approvals, test, Ghost(approval_keyed(key@)));
        if let Some(i) = known {
            self.expire_pending(now);
            assert(self.approvals@[i as int] == lapse_approval(a.approvals@[i as int], now));
            let record = approval_record(&self.approvals[i]);
            return Ok(BeginApproval { record, created: false });
        }
        proof {
            lemma_first_holds(a.approvals@, approval_keyed(key@));
        }
        let i = match self.find_session(approval.session_id.as_str()) {
            None => {
                return Err(failure("Agent session is not active"));
            },
            Some(i) => i,
        };
        if self.sessions[i].state != SessionState::Active && self.sessions[i].state
            != SessionState::Waiting {
            return Err(failure("Agent session is not active"));
        }
        if self.awaits(approval.session_id.as_str(), now) {
            return Err(failure("this Agent session already has a pending approval"));
        }
        if self.find_approval_id(approval.approval_id).is_some() {
            return Err(failure("failed to allocate a unique approval code"));
        }
        let test = |s: &String| -> (b: bool)
            ensures
                b == (free_approval_code(self.approvals@))(*s),
        { self.is_approval_code_of_none(s.as_str()) };
        match find(drawn, test, Ghost(free_approval_code(self.approvals@))) {
            None => Err(failure("failed to allocate a unique approval code")),
            Some(k) => {
                let record = self.add_approval(&approval, drawn[k].as_str(), now);
                Ok(BeginApproval { record, created: true })
            },
        }
    }

    /// Asks for an approval under a code that is free.
    pub fn add_approval(&mut self, approval: &NewApproval, code: &str, now: i64) -> (r:
        ApprovalRecord)
        requires
            old(self).wf(),
            approval_fault(*old(self), *approval, now) is None,
            first(old(self).approvals@, approval_keyed(approval.idempotency_key@)) is None,
            is_approval_code_free(old(self).approvals@, code@),
        ensures
            final(self).wf(),
            approval_added(*old(self), *final(self), *approval, code@, now),
            r.short_code@ == code@,
            shows_approval(final(self).approvals@.last(), r),
    {
        let ghost a = *self;
        proof {
            lemma_first_holds(a.approvals@, approval_keyed(approval.idempotency_key@));
            lemma_first_holds(a.approvals@, approval_numbered(approval.approval_id));
            lemma_first_holds(a.sessions@, with_session_id(approval.session_id@));
        }
        self.expire_pending(now);
        let ghost m = *self;
        let row = ApprovalRow {
            approval_id: approval.approval_id,
            short_code: code.to_owned(),
            idempotency_key: approval.idempotency_key.clone(),
            session_id: approval.session_id.clone(),
            tool_use_id: approval.tool_use_id.clone(),
            tool_name: approval.tool_name.clone(),
            input_hash: approval.input_hash.clone(),
            redacted_summary: approval.redacted_summary.clone(),
            risk: approval.risk,
            state: ApprovalState::Pending,
            decided_by_message_id: None,
            expires_at: approval.expires_at,
            created_at: now,
            updated_at: now,
        };
        let record = approval_record(&row);
        self.approvals.push(row);
        proof {
            assert(has_session(self.sessions@, approval.session_id@));
            assert forall|j: int| 0 <= j < m.approvals@.len() implies (
            #[trigger] m.approvals@[j]).approval_id != approval.approval_id
                && m.approvals@[j].short_code@ != code@ && m.approvals@[j].idempotency_key@
                != approval.idempotency_key@ by {
                assert(!(approval_keyed(approval.idempotency_key@))(a.approvals@[j]));
                assert(!(approval_numbered(approval.approval_id))(a.approvals@[j]));
                assert(a.approvals@[j].short_code@ != code@);
            }
        }
        let at: usize = self.approvals.len() - 1;
        let session_code = self.session_code(approval.session_id.as_str());
        let shown = match &session_code {
            Some(s) => Some(s.as_str()),
            None => None,
        };
        self.note_approval(shown, "approval_created", at, "pending", None, now);
        assert(lapsed(a, m, now));
        record
    }

    fn session_code(&self, session_id: &str) -> (r: Option<String>)
        ensures
            opt_view(r) == code_of(*self, session_id@),
    {
        match self.find_session(session_id) {
            Some(i) => Some(self.sessions[i].short_code.clone()),
            None => None,
        }
    }

    /// The approval with that identifier.
    pub fn approval_by_id(&self, approval_id: u128) -> (r: Option<ApprovalRecord>)
        ensures
            match first(self.approvals@, approval_numbered(approval_id)) {
                Some(row) => r matches Some(x) && shows_approval(row, x),
                None => r is None,
            },
    {
        match self.find_approval_id(approval_id) {
            Some(i) => Some(approval_record(&self.approvals[i])),
            None => None,
        }
    }

    /// Lets an approval expire, if it waits.
    pub fn expire_approval(&mut self, approval_id: u128, now: i64)
        requires
            old(self).wf(),
        ensures
            final(self).wf(),
            *final(self) == (Database { approvals: final(self).approvals, ..*old(self) }),
            all_drop_approval(old(self).approvals@, final(self).approvals@, approval_id, now),
    {
        apply_drop_approval(&mut self.approvals, approval_id, now);
    }

    /// Denies an approval, if it waits, because the owner could not be asked.
    pub fn deny_approval_delivery_failure(&mut self, approval_id: u128, outcome: &str, now: i64)
        requires
            old(self).wf(),
        ensures
            final(self).wf(),
            undelivered_outcome(
                *old(self),
                *final(self),
                approval_id,
                outcome@,
                now,
            ),
    {
        apply_refuse_approval(&mut self.approvals, approval_id, now);
        self.note(None, "approval_notification_failed", outcome, None, None, now);
    }

    /// Allows or denies the approval with that code, if it waits; the first word
    /// counts.
    pub fn decide_approval(&mut self, short_code: &str, allow: bool, message_id: &str, now: i64) -> (r:
        Option<ApprovalDecision>)
        requires
            old(self).wf(),
        ensures
            final(self).wf(),
            decide_outcome(
                *old(self),
                *final(self),
                short_code@,
                allow,
                message_id@,
                now,
                r,
            ),
    {
        let code = to_upper(short_code);
        let i = match self.find_approval(code.as_str()) {
            None => {
                return None;
            },
            Some(i) => i,
        };
        let ghost a = *self;
        let ghost row = self.approvals@[i as int];
        let mut d = ApprovalDecision {
            approval_id: self.approvals[i].approval_id,
            session_id: self.approvals[i].session_id.clone(),
            short_code: self.approvals[i].short_code.clone(),
            state: self.approvals[i].state,
        };
        if self.approvals[i].state != ApprovalState::Pending {
            return Some(d);
        }
        if self.approvals[i].expires_at <= now {
            d.state = ApprovalState::Expired;
            return Some(d);
        }
        let state = if allow {
            ApprovalState::Allowed
        } else {
            ApprovalState::Denied
        };
        d.state = state;
        self.expire_pending(now);
        let ghost m = *self;
        assert(m.approvals@[i as int] == row);
        self.approvals[i].state = state;
        self.approvals[i].decided_by_message_id = Some(message_id.to_owned());
        self.approvals[i].updated_at = now;
        proof {
            assert forall|j: int| 0 <= j < m.approvals@.len() && j != i implies (
            #[trigger] m.approvals@[j]).approval_id != row.approval_id by {}
        }
        let session_code = self.session_code(d.session_id.as_str());
        let shown = match &session_code {
            Some(s) => Some(s.as_str()),
            None => None,
        };
        self.note_approval(shown, "approval_decided", i, state.as_str(), Some(message_id), now);
        assert(lapsed(a, m, now));
        Some(d)
    }

    /// Takes note that an allowed tool call was completed.
    pub fn complete_approval(&mut self, session_id: &str, tool_use_id: &str, now: i64) -> (r: bool)
        requires
            old(self).wf(),
        ensures
            final(self).wf(),
            complete_outcome(
                *old(self),
                *final(self),
                session_id@,
                tool_use_id@,
                now,
                r,
            ),
    {
        let mut any = false;
        let mut i: usize = 0;
        while i < self.approvals.len()
            invariant
                i <= self.approvals@.len(),
                *self == *old(self),
                self.wf(),
                any == exists|j: int|
                    0 <= j < i && is_for_tool(
                        #[trigger] self.approvals@[j],
                        session_id@,
                        tool_use_id@,
                    ) && self.approvals@[j].state == ApprovalState::Allowed,
            decreases self.approvals@.len() - i,
        {
            if str_eq(self.approvals[i].session_id.as_str(), session_id) && str_eq(
                self.approvals[i].tool_use_id.as_str(),
                tool_use_id,
            ) && self.approvals[i].state == ApprovalState::Allowed {
                assert(is_for_tool(self.approvals@[i as int], session_id@, tool_use_id@));
                any = true;
            }
            i += 1;
        }
        apply_close_approval(&mut self.approvals, session_id, tool_use_id, now);
        if any {
            let session_code = self.session_code(session_id);
            let shown = match &session_code {
                Some(s) => Some(s.as_str()),
                None => None,
            };
            self.note(shown, "tool_completed", "completed", None, Some(tool_use_id), now);
        }
        any
    }

    /// The latest approval for that tool call of the session.
    pub fn approval_for_tool(&self, session_id: &str, tool_use_id: &str) -> (r: Option<
        ApprovalRecord,
    >)
        ensures
            match r {
                Some(x) => exists|i: int| #[trigger]
                    is_latest_for(self.approvals@, i, session_id@, tool_use_id@) && shows_approval(
                        self.approvals@[i],
                        x,
                    ),
                None => forall|i: int|
                    0 <= i < self.approvals@.len() ==> !is_for_tool(
                        #[trigger] self.approvals@[i],
                        session_id@,
                        tool_use_id@,
                    ),
            },
    {
        let test = |r: &ApprovalRow| -> (b: bool)
            ensures
                b == (for_tool(session_id@, tool_use_id@))(*r),
        {
            str_eq(r.session_id.as_str(), session_id) && str_eq(
                r.tool_use_id.as_str(),
                tool_use_id,
            )
        };
        let key = |r: &ApprovalRow| -> (s: SortKey)
            ensures
                s@ == (latest_approval())(*r),
        { SortKey { first: -(r.created_at as i128), second: 0, text: String::new() } };
        match least(
            &self.approvals,
            test,
            key,
            Ghost(for_tool(session_id@, tool_use_id@)),
            Ghost(latest_approval()),
        ) {
            None => {
                proof {
                    assert forall|i: int| 0 <= i < self.approvals@.len() implies !is_for_tool(
                        #[trigger] self.approvals@[i],
                        session_id@,
                        tool_use_id@,
                    ) by {
                        assert(!(for_tool(session_id@, tool_use_id@))(self.approvals@[i]));
                    }
                }
                None
            },
            Some(i) => {
                proof {
                    assert forall|j: int|
                        0 <= j < self.approvals@.len() && is_for_tool(
                            #[trigger] self.approvals@[j],
                            session_id@,
                            tool_use_id@,
                        ) implies self.approvals@[j].created_at
                        <= self.approvals@[i as int].created_at by {
                        assert((for_tool(session_id@, tool_use_id@))(self.approvals@[j]));
                        assert(!precedes(
                            (latest_approval())(self.approvals@[j]),
                            (latest_approval())(self.approvals@[i as int]),
                            false,
                        ));
                    }
                    assert(is_latest_for(self.approvals@, i as int, session_id@, tool_use_id@));
                }
                Some(approval_record(&self.approvals[i]))
            },
        }
    }
}

// ---------------------------------------------------------------------------
// The end of a session

/// The final answer of a running session was sent.
pub open spec fn finish_session(p: SessionRow, session: Seq<char>, now: i64) -> SessionRow {
    if p.session_id@ == session && is_running(p) {
        SessionRow {
            final_sent: true,
            updated_at: now,
            ..p
        }
    } else {
        p
    }
}

/// Whether each row of `b` is the row of `a` in its place after that change.
pub open spec fn all_finish_session(a: Seq<SessionRow>, b: Seq<SessionRow>, session: Seq<char>, now: i64) -> bool {
    a.len() == b.len() && forall|i: int|
        0 <= i < a.len() ==> #[trigger] b[i] == finish_session(a[i], session, now)
}

pub(crate) fn apply_finish_session(rows: &mut Vec<SessionRow>, session: &str, now: i64)
    ensures
        all_finish_session(old(rows)@, final(rows)@, session@, now),
{
    let ghost a = rows@;
    let mut i: usize = 0;
    while i < rows.len()
        invariant
            i <= rows@.len(),
            rows@.len() == a.len(),
            forall|j: int| 0 <= j < i ==> #[trigger] rows@[j] == finish_session(a[j], session@, now),
            forall|j: int| i <= j < rows@.len() ==> #[trigger] rows@[j] == a[j],
        decreases rows@.len() - i,
    {
        if str_eq(rows[i].session_id.as_str(), session) && (rows[i].state == SessionState::Active || rows[i].state
            == SessionState::Waiting) {
            rows[i].final_sent = true;
            rows[i].updated_at = now;
        }
        i += 1;
    }
}

/// An active session waits.
pub open spec fn pause_session(p: SessionRow, session: Seq<char>, now: i64) -> SessionRow {
    if p.session_id@ == session && p.state == SessionState::Active {
        SessionRow {
            state: SessionState::Waiting,
            updated_at: now,
            ..p
        }
    } else {
        p
    }
}

/// Whether each row of `b` is the row of `a` in its place after that change.
pub open spec fn all_pause_session(a: Seq<SessionRow>, b: Seq<SessionRow>, session: Seq<char>, now: i64) -> bool {
    a.len() == b.len() && forall|i: int|
        0 <= i < a.len() ==> #[trigger] b[i] == pause_session(a[i], session, now)
}

pub(crate) fn apply_pause_session(rows: &mut Vec<SessionRow>, session: &str, now: i64)
    ensures
        all_pause_session(old(rows)@, final(rows)@, session@, now),
{
    let ghost a = rows@;
    let mut i: usize = 0;
    while i < rows.len()
        invariant
            i <= rows@.len(),
            rows@.len() == a.len(),
            forall|j: int| 0 <= j < i ==> #[trigger] rows@[j] == pause_session(a[j], session@, now),
            forall|j: int| i <= j < rows@.len() ==> #[trigger] rows@[j] == a[j],
        decreases rows@.len() - i,
    {
        if str_eq(rows[i].session_id.as_str(), session) && rows[i].state == SessionState::Active {
            rows[i].state = SessionState::Waiting;
            rows[i].updated_at = now;
        }
        i += 1;
    }
}

/// A waiting session is active.
pub open spec fn resume_session(p: SessionRow, session: Seq<char>, now: i64) -> SessionRow {
    if p.session_id@ == session && p.state == SessionState::Waiting {
        SessionRow {
            state: SessionState::Active,
            updated_at: now,
            ..p
        }
    } else {
        p
    }
}

/// Whether each row of `b` is the row of `a` in its place after that change.
pub open spec fn all_resume_session(a: Seq<SessionRow>, b: Seq<SessionRow>, session: Seq<char>, now: i64) -> bool {
    a.len() == b.len() && forall|i: int|
        0 <= i < a.len() ==> #[trigger] b[i] == resume_session(a[i], session, now)
}

pub(crate) fn apply_resume_session(rows: &mut Vec<SessionRow>, session: &str, now: i64)
    ensures
        all_resume_session(old(rows)@, final(rows)@, session@, now),
{
    let ghost a = rows@;
    let mut i: usize = 0;
    while i < rows.len()
        invariant
            i <= rows@.len(),
            rows@.len() == a.len(),
            forall|j: int| 0 <= j < i ==> #[trigger] rows@[j] == resume_session(a[j], session@, now),
            forall|j: int| i <= j < rows@.len() ==> #[trigger] rows@[j] == a[j],
        decreases rows@.len() - i,
    {
        if str_eq(rows[i].session_id.as_str(), session) && rows[i].state == SessionState::Waiting {
            rows[i].state = SessionState::Active;
            rows[i].updated_at = now;
        }
        i += 1;
    }
}

/// The session has stopped.
pub open spec fn end_session(p: SessionRow, session: Seq<char>, now: i64) -> SessionRow {
    if p.session_id@ == session {
        SessionRow {
            state: SessionState::Stopped,
            updated_at: now,
            ..p
        }
    } else {
        p
    }
}

/// Whether each row of `b` is the row of `a` in its place after that change.
pub open spec fn all_end_session(a: Seq<SessionRow>, b: Seq<SessionRow>, session: Seq<char>, now: i64) -> bool {
    a.len() == b.len() && forall|i: int|
        0 <= i < a.len() ==> #[trigger] b[i] == end_session(a[i], session, now)
}

pub(crate) fn apply_end_session(rows: &mut Vec<SessionRow>, session: &str, now: i64)
    ensures
        all_end_session(old(rows)@, final(rows)@, session@, now),
{
    let ghost a = rows@;
    let mut i: usize = 0;
    while i < rows.len()
        invariant
            i <= rows@.len(),
            rows@.len() == a.len(),
            forall|j: int| 0 <= j < i ==> #[trigger] rows@[j] == end_session(a[j], session@, now),
            forall|j: int| i <= j < rows@.len() ==> #[trigger] rows@[j] == a[j],
        decreases rows@.len() - i,
    {
        if str_eq(rows[i].session_id.as_str(), session) {
            rows[i].state = SessionState::Stopped;
            rows[i].updated_at = now;
        }
        i += 1;
    }
}

/// The session was held back once from stopping.
pub open spec fn hold_session(p: SessionRow, session: Seq<char>, now: i64) -> SessionRow {
    if p.session_id@ == session {
        SessionRow {
            stop_blocked_once: true,
            updated_at: now,
            ..p
        }
    } else {
        p
    }
}

/// Whether each row of `b` is the row of `a` in its place after that change.
pub open spec fn all_hold_session(a: Seq<SessionRow>, b: Seq<SessionRow>, session: Seq<char>, now: i64) -> bool {
    a.len() == b.len() && forall|i: int|
        0 <= i < a.len() ==> #[trigger] b[i] == hold_session(a[i], session, now)
}

pub(crate) fn apply_hold_session(rows: &mut Vec<SessionRow>, session: &str, now: i64)
    ensures
        all_hold_session(old(rows)@, final(rows)@, session@, now),
{
    let ghost a = rows@;
    let mut i: usize = 0;
    while i < rows.len()
        invariant
            i <= rows@.len(),
            rows@.len() == a.len(),
            forall|j: int| 0 <= j < i ==> #[trigger] rows@[j] == hold_session(a[j], session@, now),
            forall|j: int| i <= j < rows@.len() ==> #[trigger] rows@[j] == a[j],
        decreases rows@.len() - i,
    {
        if str_eq(rows[i].session_id.as_str(), session) {
            rows[i].stop_blocked_once = true;
            rows[i].updated_at = now;
        }
        i += 1;
    }
}

/// The owner has stopped the session.
pub open spec fn halt_session(p: SessionRow, session: Seq<char>, now: i64) -> SessionRow {
    if p.session_id@ == session {
        SessionRow {
            state: SessionState::Stopped,
            cancel_requested: true,
            updated_at: now,
            ..p
        }
    } else {
        p
    }
}

/// Whether each row of `b` is the row of `a` in its place after that change.
pub open spec fn all_halt_session(a: Seq<SessionRow>, b: Seq<SessionRow>, session: Seq<char>, now: i64) -> bool {
    a.len() == b.len() && forall|i: int|
        0 <= i < a.len() ==> #[trigger] b[i] == halt_session(a[i], session, now)
}

pub(crate) fn apply_halt_session(rows: &mut Vec<SessionRow>, session: &str, now: i64)
    ensures
        all_halt_session(old(rows)@, final(rows)@, session@, now),
{
    let ghost a = rows@;
    let mut i: usize = 0;
    while i < rows.len()
        invariant
            i <= rows@.len(),
            rows@.len() == a.len(),
            forall|j: int| 0 <= j < i ==> #[trigger] rows@[j] == halt_session(a[j], session@, now),
            forall|j: int| i <= j < rows@.len() ==> #[trigger] rows@[j] == a[j],
        decreases rows@.len() - i,
    {
        if str_eq(rows[i].session_id.as_str(), session) {
            rows[i].state = SessionState::Stopped;
            rows[i].cancel_requested = true;
            rows[i].updated_at = now;
        }
        i += 1;
    }
}

/// The session has heard that the owner stopped it.
pub open spec fn hear_cancel(p: SessionRow, session: Seq<char>) -> SessionRow {
    if p.session_id@ == session {
        SessionRow {
            cancel_requested: false,
            ..p
        }
    } else {
        p
    }
}

/// Whether each row of `b` is the row of `a` in its place after that change.
pub open spec fn all_hear_cancel(a: Seq<SessionRow>, b: Seq<SessionRow>, session: Seq<char>) -> bool {
    a.len() == b.len() && forall|i: int|
        0 <= i < a.len() ==> #[trigger] b[i] == hear_cancel(a[i], session)
}

pub(crate) fn apply_hear_cancel(rows: &mut Vec<SessionRow>, session: &str)
    ensures
        all_hear_cancel(old(rows)@, final(rows)@, session@),
{
    let ghost a = rows@;
    let mut i: usize = 0;
    while i < rows.len()
        invariant
            i <= rows@.len(),
            rows@.len() == a.len(),
            forall|j: int| 0 <= j < i ==> #[trigger] rows@[j] == hear_cancel(a[j], session@),
            forall|j: int| i <= j < rows@.len() ==> #[trigger] rows@[j] == a[j],
        decreases rows@.len() - i,
    {
        if str_eq(rows[i].session_id.as_str(), session) {
            rows[i].cancel_requested = false;
        }
        i += 1;
    }
}

/// Whether `b` is `a` with the session stopped.
pub open spec fn session_ended(a: Database, b: Database, session: Seq<char>, now: i64) -> bool {
    &&& b == (Database { sessions: b.sessions, approvals: b.approvals, ..a })
    &&& all_end_session(a.sessions@, b.sessions@, session, now)
    &&& all_abandon_approval(a.approvals@, b.approvals@, session, now)
}

/// What an agent is told that wants to stop before its final answer was sent.
pub open spec fn send_final_first() -> Seq<char> {
    "Before stopping, call qq_send_final once with the exact final answer intended for the user. Do not send hidden reasoning, secrets, tool inputs, or transcripts."@
}

/// What an agent is told that stops though its final answer was not sent.
pub open spec fn final_unconfirmed() -> Seq<char> {
    "Final QQ delivery was not confirmed; the one-time Stop guard is exhausted."@
}

/// What comes of a session's wish to stop. It is held back once, where its final
/// answer was not sent.
pub open spec fn stop_outcome(
    a: Database,
    b: Database,
    session: Seq<char>,
    hook_active: bool,
    now: i64,
    r: Result<StopResult, Failure>,
) -> bool {
    match first(a.sessions@, with_session_id(session)) {
        None => b == a && (r matches Err(f) && f.message@ == "unknown Agent session"@),
        Some(row) => if !is_running(row) || row.final_sent {
            &&& session_ended(a, b, session, now)
            &&& r matches Ok(s) && s.decision == StopDecision::Allow && s.reason is None
        } else if !row.stop_blocked_once && !hook_active {
            &&& b == (Database { sessions: b.sessions, ..a })
            &&& all_hold_session(a.sessions@, b.sessions@, session, now)
            &&& r matches Ok(s) && s.decision == StopDecision::Block && opt_view(s.reason) == Some(
                send_final_first(),
            )
        } else {
            &&& session_ended(a, b, session, now)
            &&& r matches Ok(s) && s.decision == StopDecision::Allow && opt_view(s.reason) == Some(
                final_unconfirmed(),
            )
        },
    }
}

/// What comes of word that a session waits for the owner, or no longer does.
pub open spec fn waiting_outcome(
    a: Database,
    b: Database,
    session: Seq<char>,
    waiting: bool,
    now: i64,
) -> bool {
    &&& b == (Database { sessions: b.sessions, ..a })
    &&& if waiting {
        all_pause_session(a.sessions@, b.sessions@, session, now)
    } else {
        all_resume_session(a.sessions@, b.sessions@, session, now)
    }
}

/// What comes of word that the last message of a session was sent.
pub open spec fn final_outcome(
    a: Database,
    b: Database,
    session: Seq<char>,
    now: i64,
    r: Result<(), Failure>,
) -> bool {
    match first(a.sessions@, with_session_id(session)) {
        Some(row) if is_running(row) => {
            &&& r matches Ok(())
            &&& b == (Database { sessions: b.sessions, ..a })
            &&& all_finish_session(
                a.sessions@,
                b.sessions@,
                session,
                now,
            )
        },
        _ => b == a && (r matches Err(f) && f.message@
            == "cannot mark final delivery for an inactive session"@),
    }
}

impl Database {
    /// Takes note that the final answer of a running session was sent.
    pub fn set_final_sent(&mut self, session_id: &str, now: i64) -> (r: Result<(), Failure>)
        requires
            old(self).wf(),
        ensures
            final(self).wf(),
            final_outcome(
                *old(self),
                *final(self),
                session_id@,
                now,
                r,
            ),
    {
        let running = match self.find_session(session_id) {
            Some(i) => self.sessions[i].state == SessionState::Active || self.sessions[i].state
                == SessionState::Waiting,
            None => false,
        };
        if !running {
            return Err(failure("cannot mark final delivery for an inactive session"));
        }
        let ghost a = *self;
        apply_finish_session(&mut self.sessions, session_id, now);
        proof {
            lemma_sessions_keep_ids(a, *self);
        }
        Ok(())
    }

    /// Lets an active session wait, or a waiting one go on.
    pub fn set_session_waiting(&mut self, session_id: &str, waiting: bool, now: i64)
        requires
            old(self).wf(),
        ensures
            final(self).wf(),
            waiting_outcome(
                *old(self),
                *final(self),
                session_id@,
                waiting,
                now,
            ),
    {
        let ghost a = *self;
        if waiting {
            apply_pause_session(&mut self.sessions, session_id, now);
        } else {
            apply_resume_session(&mut self.sessions, session_id, now);
        }
        proof {
            lemma_sessions_keep_ids(a, *self);
        }
    }

    fn stop_now(&mut self, session_id: &str, now: i64)
        requires
            old(self).wf(),
        ensures
            final(self).wf(),
            session_ended(*old(self), *final(self), session_id@, now),
    {
        apply_abandon_approval(&mut self.approvals, session_id, now);
        let ghost a = *self;
        assert(a.wf());
        apply_end_session(&mut self.sessions, session_id, now);
        proof {
            lemma_sessions_keep_ids(a, *self);
        }
    }

    /// Hears a session's wish to stop, and holds it back once where its final
    /// answer was not sent.
    pub fn stop_session(&mut self, session_id: &str, stop_hook_active: bool, now: i64) -> (r: Result<
        StopResult,
        Failure,
    >)
        requires
            old(self).wf(),
        ensures
            final(self).wf(),
            stop_outcome(*old(self), *final(self), session_id@, stop_hook_active, now, r),
    {
        let i = match self.find_session(session_id) {
            None => {
                return Err(failure("unknown Agent session"));
            },
            Some(i) => i,
        };
        let running = self.sessions[i].state == SessionState::Active || self.sessions[i].state
            == SessionState::Waiting;
        if !running || self.sessions[i].final_sent {
            self.stop_now(session_id, now);
            return Ok(StopResult { decision: StopDecision::Allow, reason: None });
        }
        if !self.sessions[i].stop_blocked_once && !stop_hook_active {
            let ghost a = *self;
            apply_hold_session(&mut self.sessions, session_id, now);
            proof {
                lemma_sessions_keep_ids(a, *self);
            }
            let reason = "Before stopping, call qq_send_final once with the exact final answer intended for the user. Do not send hidden reasoning, secrets, tool inputs, or transcripts.";
            return Ok(
                StopResult { decision: StopDecision::Block, reason: Some(reason.to_owned()) },
            );
        }
        self.stop_now(session_id, now);
        let reason = "Final QQ delivery was not confirmed; the one-time Stop guard is exhausted.";
        Ok(StopResult { decision: StopDecision::Allow, reason: Some(reason.to_owned()) })
    }
}

// ---------------------------------------------------------------------------
// Questions

/// A question to ask.
#[derive(Clone, Debug)]
pub struct NewQuestion {
    pub question_id: u128,
    pub session_id: String,
    pub question_hash: String,
    pub choices_json: String,
    pub allow_freeform: bool,
    pub expires_at: i64,
}

/// A question that was asked.
#[derive(Clone, Debug)]
pub struct QuestionRecord {
    pub question_id: u128,
    pub short_code: String,
    pub session_id: String,
    pub choices_json: String,
    pub allow_freeform: bool,
    pub state: String,
    pub answer: Option<String>,
    pub expires_at: i64,
}

/// The condition of being the question with that identifier.
pub open spec fn question_numbered(id: u128) -> spec_fn(QuestionRow) -> bool {
    |r: QuestionRow| r.question_id == id
}

/// The condition of being the question with that code.
pub open spec fn question_coded(code: Seq<char>) -> spec_fn(QuestionRow) -> bool {
    |r: QuestionRow| r.short_code@ == code
}

/// The condition of being the question with that identifier, and waiting for its
/// answer.
pub open spec fn waiting_question(id: u128) -> spec_fn(QuestionRow) -> bool {
    |r: QuestionRow| r.question_id == id && r.state == QuestionState::Pending
}

/// Whether the record shows the question.
pub open spec fn shows_question(row: QuestionRow, r: QuestionRecord) -> bool {
    &&& r.question_id == row.question_id
    &&& r.short_code == row.short_code
    &&& r.session_id == row.session_id
    &&& r.choices_json == row.choices_json
    &&& r.allow_freeform == row.allow_freeform
    &&& r.state@ == row.state.label()
    &&& r.answer == row.answer
    &&& r.expires_at == row.expires_at
}

/// Whether the session waits for an answer.
pub open spec fn awaits_answer(rows: Seq<QuestionRow>, session: Seq<char>) -> bool {
    exists|i: int|
        0 <= i < rows.len() && (#[trigger] rows[i]).session_id@ == session && rows[i].state
            == QuestionState::Pending
}

/// Whether no question has that code.
pub open spec fn is_question_code_free(rows: Seq<QuestionRow>, code: Seq<char>) -> bool {
    forall|i: int| 0 <= i < rows.len() ==> (#[trigger] rows[i]).short_code@ != code
}

/// Why the question cannot be asked.
pub open spec fn question_fault(db: Database, q: NewQuestion) -> Option<Seq<char>> {
    if awaits_answer(db.questions@, q.session_id@) {
        Some("this Agent session already has a pending question"@)
    } else if first(db.questions@, question_numbered(q.question_id)) is Some || !has_session(
        db.sessions@,
        q.session_id@,
    ) {
        Some("failed to allocate a unique question code"@)
    } else {
        None
    }
}

/// Whether the row is a question that was just asked.
pub open spec fn is_new_question(r: QuestionRow, q: NewQuestion, code: Seq<char>, now: i64) -> bool {
    &&& r.question_id == q.question_id
    &&& r.short_code@ == code
    &&& r.session_id == q.session_id
    &&& r.question_hash == q.question_hash
    &&& r.choices_json == q.choices_json
    &&& r.allow_freeform == q.allow_freeform
    &&& r.state == QuestionState::Pending
    &&& r.answer_message_id is None
    &&& r.answer is None
    &&& r.expires_at == q.expires_at
    &&& r.created_at == now
    &&& r.updated_at == now
}

/// Whether `b` is `a` with the question asked under that code; its session waits.
pub open spec fn question_added(
    a: Database,
    b: Database,
    q: NewQuestion,
    code: Seq<char>,
    now: i64,
) -> bool {
    &&& b == (Database {
        questions: b.questions,
        sessions: b.sessions,
        audit: b.audit,
        ..a
    })
    &&& b.questions@ == a.questions@.push(b.questions@.last())
    &&& is_new_question(b.questions@.last(), q, code, now)
    &&& all_pause_session(a.sessions@, b.sessions@, q.session_id@, now)
    &&& b.audit@ == a.audit@.push(b.audit@.last())
    &&& remembers(
        b.audit@.last(),
        code_of(a, q.session_id@),
        "question_created"@,
        None,
        Some(q.question_hash@),
        None,
        "pending"@,
        None,
        Some(code),
        now,
    )
}

/// The question with that identifier, if it waits, has expired.
pub open spec fn lapse_question(p: QuestionRow, id: u128, now: i64) -> QuestionRow {
    if p.question_id == id && p.state == QuestionState::Pending {
        QuestionRow {
            state: QuestionState::Expired,
            updated_at: now,
            ..p
        }
    } else {
        p
    }
}

/// Whether each row of `b` is the row of `a` in its place after that change.
pub open spec fn all_lapse_question(a: Seq<QuestionRow>, b: Seq<QuestionRow>, id: u128, now: i64) -> bool {
    a.len() == b.len() && forall|i: int|
        0 <= i < a.len() ==> #[trigger] b[i] == lapse_question(a[i], id, now)
}

pub(crate) fn apply_lapse_question(rows: &mut Vec<QuestionRow>, id: u128, now: i64)
    ensures
        all_lapse_question(old(rows)@, final(rows)@, id, now),
{
    let ghost a = rows@;
    let mut i: usize = 0;
    while i < rows.len()
        invariant
            i <= rows@.len(),
            rows@.len() == a.len(),
            forall|j: int| 0 <= j < i ==> #[trigger] rows@[j] == lapse_question(a[j], id, now),
            forall|j: int| i <= j < rows@.len() ==> #[trigger] rows@[j] == a[j],
        decreases rows@.len() - i,
    {
        if rows[i].question_id == id && rows[i].state == QuestionState::Pending {
            rows[i].state = QuestionState::Expired;
            rows[i].updated_at = now;
        }
        i += 1;
    }
}

/// The answer to the question with that identifier is kept no longer.
pub open spec fn forget_answer(p: QuestionRow, id: u128, now: i64) -> QuestionRow {
    if p.question_id == id && p.state == QuestionState::Answered {
        QuestionRow {
            answer: None,
            updated_at: now,
            ..p
        }
    } else {
        p
    }
}

/// Whether each row of `b` is the row of `a` in its place after that change.
pub open spec fn all_forget_answer(a: Seq<QuestionRow>, b: Seq<QuestionRow>, id: u128, now: i64) -> bool {
    a.len() == b.len() && forall|i: int|
        0 <= i < a.len() ==> #[trigger] b[i] == forget_answer(a[i], id, now)
}

pub(crate) fn apply_forget_answer(rows: &mut Vec<QuestionRow>, id: u128, now: i64)
    ensures
        all_forget_answer(old(rows)@, final(rows)@, id, now),
{
    let ghost a = rows@;
    let mut i: usize = 0;
    while i < rows.len()
        invariant
            i <= rows@.len(),
            rows@.len() == a.len(),
            forall|j: int| 0 <= j < i ==> #[trigger] rows@[j] == forget_answer(a[j], id, now),
            forall|j: int| i <= j < rows@.len() ==> #[trigger] rows@[j] == a[j],
        decreases rows@.len() - i,
    {
        if rows[i].question_id == id && rows[i].state == QuestionState::Answered {
            rows[i].answer = None;
            rows[i].updated_at = now;
        }
        i += 1;
    }
}

fn question_record(row: &QuestionRow) -> (r: QuestionRecord)
    ensures
        shows_question(*row, r),
{
    QuestionRecord {
        question_id: row.question_id,
        short_code: row.short_code.clone(),
        session_id: row.session_id.clone(),
        choices_json: row.choices_json.clone(),
        allow_freeform: row.allow_freeform,
        state: row.state.as_str().to_owned(),
        answer: row.answer.clone(),
        expires_at: row.expires_at,
    }
}

/// The condition of being a code that no question has.
pub open spec fn free_question_code(rows: Seq<QuestionRow>) -> spec_fn(String) -> bool {
    |s: String| is_question_code_free(rows, s@)
}

/// What comes of asking a question, where these codes were drawn for it: it gets the
/// first of them that is free, and where none is nothing happens.
pub open spec fn question_outcome(
    a: Database,
    b: Database,
    question: NewQuestion,
    drawn: Seq<String>,
    now: i64,
    r: Result<QuestionRecord, Failure>,
) -> bool {
    match question_fault(a, question) {
        Some(message) => b == a && (r matches Err(f) && f.message@ == message),
        None => match first(drawn, free_question_code(a.questions@)) {
            None => b == a && (r matches Err(f) && f.message@
                == "failed to allocate a unique question code"@),
            Some(code) => {
                &&& question_added(a, b, question, code@, now)
                &&& r matches Ok(record) && shows_question(b.questions@.last(), record)
            },
        },
    }
}

/// What comes of an answer to a question.
pub open spec fn reply_outcome(
    a: Database,
    b: Database,
    question_id: u128,
    answer: Seq<char>,
    message: Seq<char>,
    now: i64,
    r: bool,
) -> bool {
    match first(a.questions@, waiting_question(question_id)) {
        Some(row) if row.expires_at > now => {
            &&& r
            &&& b == (Database {
                questions: b.questions,
                sessions: b.sessions,
                ..a
            })
            &&& changed(
                a.questions@,
                b.questions@,
                |p: QuestionRow, q: QuestionRow|
                    if p.question_id == question_id {
                        q == (QuestionRow {
                            state: QuestionState::Answered,
                            answer_message_id: q.answer_message_id,
                            answer: q.answer,
                            updated_at: now,
                            ..p
                        }) && opt_view(q.answer_message_id) == Some(message)
                            && opt_view(q.answer) == Some(answer)
                    } else {
                        q == p
                    },
            )
            &&& all_resume_session(
                a.sessions@,
                b.sessions@,
                row.session_id@,
                now,
            )
        },
        _ => b == a && !r,
    }
}

/// What comes of a question that nobody answered in time.
pub open spec fn lapse_outcome(
    a: Database,
    b: Database,
    question_id: u128,
    now: i64,
) -> bool {
    &&& b == (Database {
        questions: b.questions,
        sessions: b.sessions,
        ..a
    })
    &&& all_lapse_question(a.questions@, b.questions@, question_id, now)
    &&& match first(a.questions@, waiting_question(question_id)) {
        Some(row) => all_resume_session(
            a.sessions@,
            b.sessions@,
            row.session_id@,
            now,
        ),
        None => b.sessions == a.sessions,
    }
}

impl Database {
    fn awaits_reply(&self, session: &str) -> (r: bool)
        ensures
            r == awaits_answer(self.questions@, session@),
    {
        let mut i: usize = 0;
        while i < self.questions.len()
            invariant
                i <= self.questions@.len(),
                forall|j: int|
                    0 <= j < i ==> !((#[trigger] self.questions@[j]).session_id@ == session@
                        && self.questions@[j].state == QuestionState::Pending),
            decreases self.questions@.len() - i,
        {
            if str_eq(self.questions[i].session_id.as_str(), session) && self.questions[i].state
                == QuestionState::Pending {
                return true;
            }
            i += 1;
        }
        false
    }

    fn is_question_code_of_none(&self, code: &str) -> (r: bool)
        ensures
            r == is_question_code_free(self.questions@, code@),
    {
        let mut i: usize = 0;
        while i < self.questions.len()
            invariant
                i <= self.questions@.len(),
                forall|j: int| 0 <= j < i ==> (#[trigger] self.questions@[j]).short_code@ != code@,
            decreases self.questions@.len() - i,
        {
            if str_eq(self.questions[i].short_code.as_str(), code) {
                return false;
            }
            i += 1;
        }
        true
    }

    fn find_question(&self, id: u128) -> (r: Option<usize>)
        ensures
            match r {
                Some(i) => i < self.questions@.len() && first(self.questions@, question_numbered(id))
                    == Some(self.questions@[i as int]),
                None => first(self.questions@, question_numbered(id)) is None,
            },
    {
        let test = |r: &QuestionRow| -> (b: bool)
            ensures
                b == (question_numbered(id))(*r),
        { r.question_id == id };
        find(&self.questions, test, Ghost(question_numbered(id)))
    }

    /// Asks a question; its session waits for the answer.
    pub fn create_question(&mut self, question: NewQuestion, now: i64) -> (r: Result<
        QuestionRecord,
        Failure,
    >)
        requires
            old(self).wf(),
        ensures
            final(self).wf(),
            exists|drawn: Seq<String>|
                are_codes(drawn, Some('Q'), 4) && #[trigger] question_outcome(
                    *old(self),
                    *final(self),
                    question,
                    drawn,
                    now,
                    r,
                ),
    {
        let drawn = draw_codes(Some('Q'), 4);
        self.question_with_codes(question, &drawn, now)
    }

    /// Asks a question under the first of the codes that no question has; its session
    /// waits for the answer.
    pub fn question_with_codes(&mut self, question: NewQuestion, drawn: &Vec<String>, now: i64) -> (r:
        Result<QuestionRecord, Failure>)
        requires
            old(self).wf(),
        ensures
            final(self).wf(),
            question_outcome(*old(self), *final(self), question, drawn@, now, r),
    {
        if self.awaits_reply(question.session_id.as_str()) {
            return Err(failure("this Agent session already has a pending question"));
        }
        if self.find_question(question.question_id).is_some() || self.find_session(
            question.session_id.as_str(),
        ).is_none() {
            return Err(failure("failed to allocate a unique question code"));
        }
        let test = |s: &String| -> (b: bool)
            ensures
                b == (free_question_code(self.questions@))(*s),
        { self.is_question_code_of_none(s.as_str()) };
        match find(drawn, test, Ghost(free_question_code(self.questions@))) {
            None => Err(failure("failed to allocate a unique question code")),
            Some(k) => Ok(self.add_question(&question, drawn[k].as_str(), now)),
        }
    }

    /// Asks a question under a code that is free; its session waits for the
    /// answer.
    pub fn add_question(&mut self, question: &NewQuestion, code: &str, now: i64) -> (r:
        QuestionRecord)
        requires
            old(self).wf(),
            question_fault(*old(self), *question) is None,
            is_question_code_free(old(self).questions@, code@),
        ensures
            final(self).wf(),
            question_added(*old(self), *final(self), *question, code@, now),
            r.short_code@ == code@,
            shows_question(final(self).questions@.last(), r),
    {
        let ghost a = *self;
        let row = QuestionRow {
            question_id: question.question_id,
            short_code: code.to_owned(),
            session_id: question.session_id.clone(),
            question_hash: question.question_hash.clone(),
            choices_json: question.choices_json.clone(),
            allow_freeform: question.allow_freeform,
            state: QuestionState::Pending,
            answer_message_id: None,
            answer: None,
            expires_at: question.expires_at,
            created_at: now,
            updated_at: now,
        };
        let record = question_record(&row);
        let session_code = self.session_code(question.session_id.as_str());
        self.questions.push(row);
        proof {
            lemma_first_holds(a.questions@, question_numbered(question.question_id));
            assert forall|j: int| 0 <= j < a.questions@.len() implies (
            #[trigger] a.questions@[j]).question_id != question.question_id by {
                assert(!(question_numbered(question.question_id))(a.questions@[j]));
            }
            assert(self.wf());
        }
        let ghost m = *self;
        apply_pause_session(&mut self.sessions, question.session_id.as_str(), now);
        proof {
            lemma_sessions_keep_ids(m, *self);
        }
        self.audit.push(
            AuditRow {
                occurred_at: now,
                session_code,
                event_type: "question_created".to_owned(),
                tool_name: None,
                input_hash: Some(question.question_hash.clone()),
                risk: None,
                outcome: "pending".to_owned(),
                qq_message_id: None,
                detail_redacted: Some(code.to_owned()),
            },
        );
        record
    }

    /// The question with that identifier.
    pub fn question_by_id(&self, question_id: u128) -> (r: Option<QuestionRecord>)
        ensures
            match first(self.questions@, question_numbered(question_id)) {
                Some(row) => r matches Some(q) && shows_question(row, q),
                None => r is None,
            },
    {
        match self.find_question(question_id) {
            Some(i) => Some(question_record(&self.questions[i])),
            None => None,
        }
    }

    /// The question with that code, whatever the case of its letters.
    pub fn question_by_code(&self, short_code: &str) -> (r: Option<QuestionRecord>)
        ensures
            match first(self.questions@, question_coded(upper(short_code@))) {
                Some(row) => r matches Some(q) && shows_question(row, q),
                None => r is None,
            },
    {
        let code = to_upper(short_code);
        let test = |r: &QuestionRow| -> (b: bool)
            ensures
                b == (question_coded(code@))(*r),
        { str_eq(r.short_code.as_str(), code.as_str()) };
        match find(&self.questions, test, Ghost(question_coded(code@))) {
            Some(i) => Some(question_record(&self.questions[i])),
            None => None,
        }
    }

    /// Answers a question that waits and has not expired; its session goes on.
    pub fn answer_question(
        &mut self,
        question_id: u128,
        answer: &str,
        message_id: &str,
        now: i64,
    ) -> (r: bool)
        requires
            old(self).wf(),
        ensures
            final(self).wf(),
            reply_outcome(
                *old(self),
                *final(self),
                question_id,
                answer@,
                message_id@,
                now,
                r,
            ),
    {
        let test = |r: &QuestionRow| -> (b: bool)
            ensures
                b == (waiting_question(question_id))(*r),
        { r.question_id == question_id && r.state == QuestionState::Pending };
        let i = match find(&self.questions, test, Ghost(waiting_question(question_id))) {
            None => {
                return false;
            },
            Some(i) => i,
        };
        if self.questions[i].expires_at <= now {
            return false;
        }
        let ghost a = *self;
        let session = self.questions[i].session_id.clone();
        self.questions[i].state = QuestionState::Answered;
        self.questions[i].answer_message_id = Some(message_id.to_owned());
        self.questions[i].answer = Some(answer.to_owned());
        self.questions[i].updated_at = now;
        proof {
            assert forall|j: int| 0 <= j < a.questions@.len() && j != i implies (
            #[trigger] a.questions@[j]).question_id != question_id by {
                assert(a.questions@[i as int].question_id == question_id);
            }
            assert(self.wf());
        }
        let ghost m = *self;
        apply_resume_session(&mut self.sessions, session.as_str(), now);
        proof {
            lemma_sessions_keep_ids(m, *self);
        }
        true
    }

    /// Lets a question expire, if it waits; its session goes on.
    pub fn expire_question(&mut self, question_id: u128, now: i64)
        requires
            old(self).wf(),
        ensures
            final(self).wf(),
            lapse_outcome(
                *old(self),
                *final(self),
                question_id,
                now,
            ),
    {
        let test = |r: &QuestionRow| -> (b: bool)
            ensures
                b == (waiting_question(question_id))(*r),
        { r.question_id == question_id && r.state == QuestionState::Pending };
        let session = match find(&self.questions, test, Ghost(waiting_question(question_id))) {
            None => None,
            Some(i) => Some(self.questions[i].session_id.clone()),
        };
        apply_lapse_question(&mut self.questions, question_id, now);
        let ghost m = *self;
        assert(m.wf());
        if let Some(id) = session {
            apply_resume_session(&mut self.sessions, id.as_str(), now);
            proof {
                lemma_sessions_keep_ids(m, *self);
            }
        }
    }

    /// Forgets the answer to a question, once it was read.
    pub fn consume_question_answer(&mut self, question_id: u128, now: i64)
        requires
            old(self).wf(),
        ensures
            final(self).wf(),
            *final(self) == (Database { questions: final(self).questions, ..*old(self) }),
            all_forget_answer(old(self).questions@, final(self).questions@, question_id, now),
    {
        apply_forget_answer(&mut self.questions, question_id, now);
    }
}

// ---------------------------------------------------------------------------
// Stopping a session from outside

/// Whether `b` is `a` with the approvals that the session waits for denied by the
/// message.
pub open spec fn approvals_denied(
    a: Seq<ApprovalRow>,
    b: Seq<ApprovalRow>,
    session: Seq<char>,
    message: Seq<char>,
    now: i64,
) -> bool {
    changed(
        a,
        b,
        |p: ApprovalRow, q: ApprovalRow|
            if p.session_id@ == session && p.state == ApprovalState::Pending {
                q == (ApprovalRow {
                    state: ApprovalState::Denied,
                    decided_by_message_id: q.decided_by_message_id,
                    updated_at: now,
                    ..p
                }) && opt_view(q.decided_by_message_id) == Some(message)
            } else {
                q == p
            },
    )
}

/// Whether `b` is `a` with the questions that the session waits for taken back
/// by the message.
pub open spec fn questions_cancelled(
    a: Seq<QuestionRow>,
    b: Seq<QuestionRow>,
    session: Seq<char>,
    message: Seq<char>,
    now: i64,
) -> bool {
    changed(
        a,
        b,
        |p: QuestionRow, q: QuestionRow|
            if p.session_id@ == session && p.state == QuestionState::Pending {
                q == (QuestionRow {
                    state: QuestionState::Cancelled,
                    answer_message_id: q.answer_message_id,
                    updated_at: now,
                    ..p
                }) && opt_view(q.answer_message_id) == Some(message)
            } else {
                q == p
            },
    )
}

fn deny_approvals(rows: &mut Vec<ApprovalRow>, session: &str, message: &str, now: i64)
    ensures
        approvals_denied(old(rows)@, final(rows)@, session@, message@, now),
{
    let ghost a = rows@;
    let mut i: usize = 0;
    while i < rows.len()
        invariant
            i <= rows@.len(),
            rows@.len() == a.len(),
            forall|j: int|
                #![trigger rows@[j]]
                0 <= j < i ==> if a[j].session_id@ == session@ && a[j].state
                    == ApprovalState::Pending {
                    rows@[j] == (ApprovalRow {
                        state: ApprovalState::Denied,
                        decided_by_message_id: rows@[j].decided_by_message_id,
                        updated_at: now,
                        ..a[j]
                    }) && opt_view(rows@[j].decided_by_message_id) == Some(message@)
                } else {
                    rows@[j] == a[j]
                },
            forall|j: int| i <= j < rows@.len() ==> #[trigger] rows@[j] == a[j],
        decreases rows@.len() - i,
    {
        if str_eq(rows[i].session_id.as_str(), session) && rows[i].state == ApprovalState::Pending {
            rows[i].state = ApprovalState::Denied;
            rows[i].decided_by_message_id = Some(message.to_owned());
            rows[i].updated_at = now;
        }
        i += 1;
    }
}

fn cancel_questions(rows: &mut Vec<QuestionRow>, session: &str, message: &str, now: i64)
    ensures
        questions_cancelled(old(rows)@, final(rows)@, session@, message@, now),
{
    let ghost a = rows@;
    let mut i: usize = 0;
    while i < rows.len()
        invariant
            i <= rows@.len(),
            rows@.len() == a.len(),
            forall|j: int|
                #![trigger rows@[j]]
                0 <= j < i ==> if a[j].session_id@ == session@ && a[j].state
                    == QuestionState::Pending {
                    rows@[j] == (QuestionRow {
                        state: QuestionState::Cancelled,
                        answer_message_id: rows@[j].answer_message_id,
                        updated_at: now,
                        ..a[j]
                    }) && opt_view(rows@[j].answer_message_id) == Some(message@)
                } else {
                    rows@[j] == a[j]
                },
            forall|j: int| i <= j < rows@.len() ==> #[trigger] rows@[j] == a[j],
        decreases rows@.len() - i,
    {
        if str_eq(rows[i].session_id.as_str(), session) && rows[i].state == QuestionState::Pending {
            rows[i].state = QuestionState::Cancelled;
            rows[i].answer_message_id = Some(message.to_owned());
            rows[i].updated_at = now;
        }
        i += 1;
    }
}

/// What comes of the owner's wish that the session with that label stops.
pub open spec fn halt_outcome(
    a: Database,
    b: Database,
    label: Seq<char>,
    message: Seq<char>,
    now: i64,
    r: bool,
) -> bool {
    match first(a.sessions@, running_code(upper(label))) {
        None => b == a && !r,
        Some(row) => {
            &&& r
            &&& b == (Database {
                sessions: b.sessions,
                approvals: b.approvals,
                questions: b.questions,
                audit: b.audit,
                ..a
            })
            &&& approvals_denied(
                a.approvals@,
                b.approvals@,
                row.session_id@,
                message,
                now,
            )
            &&& questions_cancelled(
                a.questions@,
                b.questions@,
                row.session_id@,
                message,
                now,
            )
            &&& all_halt_session(
                a.sessions@,
                b.sessions@,
                row.session_id@,
                now,
            )
            &&& noted(
                a.audit@,
                b.audit@,
                Some(upper(label)),
                "session_cancelled"@,
                "cancelled"@,
                Some(message),
                None,
                now,
            )
        },
    }
}

impl Database {
    /// Stops the running session with that label for the owner; what it waited
    /// for is denied or taken back.
    pub fn cancel_session(&mut self, session_label: &str, message_id: &str, now: i64) -> (r: bool)
        requires
            old(self).wf(),
        ensures
            final(self).wf(),
            halt_outcome(
                *old(self),
                *final(self),
                session_label@,
                message_id@,
                now,
                r,
            ),
    {
        let code = to_upper(session_label);
        let test = |r: &SessionRow| -> (b: bool)
            ensures
                b == (running_code(code@))(*r),
        {
            str_eq(r.short_code.as_str(), code.as_str()) && (r.state == SessionState::Active
                || r.state == SessionState::Waiting)
        };
        let session = match find(&self.sessions, test, Ghost(running_code(code@))) {
            None => {
                return false;
            },
            Some(i) => self.sessions[i].session_id.clone(),
        };
        deny_approvals(&mut self.approvals, session.as_str(), message_id, now);
        cancel_questions(&mut self.questions, session.as_str(), message_id, now);
        let ghost m = *self;
        assert(m.wf());
        apply_halt_session(&mut self.sessions, session.as_str(), now);
        proof {
            lemma_sessions_keep_ids(m, *self);
        }
        self.note(
            Some(code.as_str()),
            "session_cancelled",
            "cancelled",
            Some(message_id),
            None,
            now,
        );
        true
    }

    /// Whether the owner has stopped the session; the session is told once.
    pub fn take_cancel_requested(&mut self, session_id: &str) -> (r: bool)
        requires
            old(self).wf(),
        ensures
            final(self).wf(),
            *final(self) == (Database { sessions: final(self).sessions, ..*old(self) }),
            all_hear_cancel(old(self).sessions@, final(self).sessions@, session_id@),
            r == (first(old(self).sessions@, with_session_id(session_id@)) matches Some(row)
                && row.cancel_requested),
    {
        let asked = match self.find_session(session_id) {
            Some(i) => self.sessions[i].cancel_requested,
            None => false,
        };
        let ghost a = *self;
        apply_hear_cancel(&mut self.sessions, session_id);
        proof {
            lemma_sessions_keep_ids(a, *self);
        }
        asked
    }
}

} // verus!
