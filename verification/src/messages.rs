//! The messages that come in and go out, the gateway that they pass, and what is
//! told of all that.
use vstd::prelude::*;
use vstd::string::*;

use crate::agents::code_of;
use crate::config::{failure, Failure};
use crate::events::broken_reference;
use crate::protocol::ApprovalState;
use crate::store::{
    has_session, ApprovalRow, Database, DeliveryRow, DeliveryStatus, GatewayRuntimeRow,
    GatewayState, GatewayStateRow, InboundRow, SentRow, SessionRow,
};
use crate::tables::{
    changed, count, count_rows, find, first, is_selection, least, opt_is, precedes, select, SortKey,
};
use crate::text::{opt_str_view, opt_view, owned, str_eq};

verus! {

broadcast use vstd::string::group_string_axioms;

// ---------------------------------------------------------------------------
// Messages that come in

/// The condition of being the message with that identifier.
pub open spec fn with_message(id: Seq<char>) -> spec_fn(InboundRow) -> bool {
    |r: InboundRow| r.message_id@ == id
}

/// Whether the row is a message that just came in.
pub open spec fn is_new_message(r: InboundRow, id: Seq<char>, user: Seq<char>, now: i64) -> bool {
    &&& r.message_id@ == id
    &&& r.user_openid@ == user
    &&& r.session_id is None
    &&& r.kind@ == "received"@
    &&& r.content is None
    &&& r.consumed_at is None
    &&& r.expires_at is None
    &&& r.created_at == now
}

/// The message after it was queued for a session.
pub open spec fn queued(
    p: InboundRow,
    q: InboundRow,
    session: Seq<char>,
    content: Seq<char>,
    expires_at: int,
) -> bool {
    &&& q == (InboundRow {
        session_id: q.session_id,
        kind: q.kind,
        content: q.content,
        expires_at: q.expires_at,
        ..p
    })
    &&& opt_view(q.session_id) == Some(session)
    &&& q.kind@ == "queued"@
    &&& opt_view(q.content) == Some(content)
    &&& q.expires_at matches Some(t) && t == expires_at
}

/// Whether the message waits for the session to take it.
pub open spec fn is_waiting_message(r: InboundRow, session: Seq<char>, now: i64) -> bool {
    &&& opt_view(r.session_id) == Some(session)
    &&& r.kind@ == "queued"@
    &&& r.consumed_at is None
    &&& r.expires_at is None || r.expires_at->0 > now
}

/// The condition of waiting for the session.
pub open spec fn waiting_message(session: Seq<char>, now: i64) -> spec_fn(InboundRow) -> bool {
    |r: InboundRow| is_waiting_message(r, session, now)
}

/// What messages are ordered by: their age.
pub open spec fn oldest_message() -> spec_fn(InboundRow) -> (int, int, Seq<char>) {
    |r: InboundRow| (r.created_at as int, 0int, Seq::<char>::empty())
}

/// Whether the message in that place is the oldest that waits for the session.
pub open spec fn is_next_message(rows: Seq<InboundRow>, i: int, session: Seq<char>, now: i64) -> bool {
    &&& 0 <= i < rows.len()
    &&& is_waiting_message(rows[i], session, now)
    &&& forall|j: int|
        0 <= j < rows.len() && is_waiting_message(#[trigger] rows[j], session, now)
            ==> rows[i].created_at <= rows[j].created_at
}

/// The message after the session took it.
pub open spec fn taken(p: InboundRow, q: InboundRow, now: i64) -> bool {
    &&& q == (InboundRow { kind: q.kind, content: None, consumed_at: Some(now), ..p })
    &&& q.kind@ == "consumed"@
}

/// What comes of queueing a message.
pub open spec fn queue_outcome(
    a: Database,
    b: Database,
    message: Seq<char>,
    session: Seq<char>,
    content: Seq<char>,
    ttl: u64,
    now: i64,
    r: Result<(), Failure>,
) -> bool {
    if ttl > i64::MAX {
        b == a && (r matches Err(f) && f.message@ == "duration exceeds supported range"@)
    } else {
        match first(a.inbound@, with_message(message)) {
            Some(row) if row.kind@ == "received"@ => if !has_session(a.sessions@, session) {
                b == a && (r matches Err(f) && f.message@ == broken_reference())
            } else {
                &&& r matches Ok(())
                &&& b == (Database { inbound: b.inbound, ..a })
                &&& changed(
                    a.inbound@,
                    b.inbound@,
                    |p: InboundRow, q: InboundRow|
                        if p.message_id@ == message {
                            queued(p, q, session, content, now + ttl)
                        } else {
                            q == p
                        },
                )
            },
            _ => b == a && (r matches Err(f) && f.message@
                == "inbound message is not available for queueing"@),
        }
    }
}

/// What comes of a message that comes in.
pub open spec fn inbound_outcome(
    a: Database,
    b: Database,
    message: Seq<char>,
    user: Seq<char>,
    now: i64,
    r: bool,
) -> bool {
    if first(a.inbound@, with_message(message)) is Some {
        b == a && !r
    } else {
        &&& r
        &&& b == (Database { inbound: b.inbound, ..a })
        &&& b.inbound@ == a.inbound@.push(b.inbound@.last())
        &&& is_new_message(b.inbound@.last(), message, user, now)
    }
}

/// Whether `b` is `a` with that message handed to the session: the oldest that waits
/// for it.
pub open spec fn message_taken(
    a: Database,
    b: Database,
    session: Seq<char>,
    now: i64,
    message: String,
    content: String,
) -> bool {
    exists|i: int|
        {
            &&& #[trigger] is_next_message(a.inbound@, i, session, now)
            &&& message == a.inbound@[i].message_id
            &&& Some(content) == a.inbound@[i].content
            &&& b == (Database { inbound: b.inbound, ..a })
            &&& b.inbound@ == a.inbound@.update(i, b.inbound@[i])
            &&& taken(a.inbound@[i], b.inbound@[i], now)
        }
}

/// What comes of handing a session the oldest message that waits for it.
pub open spec fn take_outcome(
    a: Database,
    b: Database,
    session: Seq<char>,
    now: i64,
    r: Option<(String, String)>,
) -> bool {
    match r {
        None => b == a && forall|i: int|
            0 <= i < a.inbound@.len() ==> !is_waiting_message(
                #[trigger] a.inbound@[i],
                session,
                now,
            ),
        Some((message, content)) => message_taken(a, b, session, now, message, content),
    }
}

/// Whether `b` is `a` with note taken of what the message was.
pub open spec fn message_marked(
    a: Database,
    b: Database,
    message: Seq<char>,
    kind: Seq<char>,
    now: i64,
) -> bool {
    &&& b == (Database { inbound: b.inbound, ..a })
    &&& changed(
        a.inbound@,
        b.inbound@,
        |p: InboundRow, q: InboundRow|
            if p.message_id@ == message {
                q == (InboundRow { kind: q.kind, consumed_at: Some(now), ..p }) && q.kind@
                    == kind
            } else {
                q == p
            },
    )
}

impl Database {
    fn find_message(&self, message_id: &str) -> (r: Option<usize>)
        ensures
            match r {
                Some(i) => i < self.inbound@.len() && first(self.inbound@, with_message(message_id@))
                    == Some(self.inbound@[i as int]) && self.inbound@[i as int].message_id@
                    == message_id@,
                None => first(self.inbound@, with_message(message_id@)) is None && forall|j: int|
                    0 <= j < self.inbound@.len() ==> (#[trigger] self.inbound@[j]).message_id@
                        != message_id@,
            },
    {
        let test = |r: &InboundRow| -> (b: bool)
            ensures
                b == (with_message(message_id@))(*r),
        { str_eq(r.message_id.as_str(), message_id) };
        find(&self.inbound, test, Ghost(with_message(message_id@)))
    }

    /// Takes a message in, unless it came in before.
    pub fn record_inbound(&mut self, message_id: &str, user_openid: &str, now: i64) -> (r: bool)
        requires
            old(self).wf(),
        ensures
            final(self).wf(),
            inbound_outcome(
                *old(self),
                *final(self),
                message_id@,
                user_openid@,
                now,
                r,
            ),
    {
        if self.find_message(message_id).is_some() {
            return false;
        }
        proof {
            reveal_strlit("received");
            reveal_strlit("queued");
        }
        self.inbound.push(
            InboundRow {
                message_id: message_id.to_owned(),
                user_openid: user_openid.to_owned(),
                session_id: None,
                kind: "received".to_owned(),
                content: None,
                consumed_at: None,
                expires_at: None,
                created_at: now,
            },
        );
        proof {
            assert("received"@.len() == 8 && "queued"@.len() == 6);
            assert(self.inbound@.last().message_id@ == message_id@);
        }
        true
    }

    /// Queues a message that came in for a session.
    pub fn queue_message(
        &mut self,
        message_id: &str,
        session_id: &str,
        content: &str,
        ttl_seconds: u64,
        now: i64,
    ) -> (r: Result<(), Failure>)
        requires
            old(self).wf(),
            ttl_seconds <= i64::MAX ==> now + ttl_seconds <= i64::MAX,
        ensures
            final(self).wf(),
            queue_outcome(
                *old(self),
                *final(self),
                message_id@,
                session_id@,
                content@,
                ttl_seconds,
                now,
                r,
            ),
    {
        if ttl_seconds > i64::MAX as u64 {
            return Err(failure("duration exceeds supported range"));
        }
        let expires_at: i64 = now + ttl_seconds as i64;
        let i = match self.find_message(message_id) {
            None => {
                return Err(failure("inbound message is not available for queueing"));
            },
            Some(i) => i,
        };
        if !str_eq(self.inbound[i].kind.as_str(), "received") {
            return Err(failure("inbound message is not available for queueing"));
        }
        if self.find_session(session_id).is_none() {
            return Err(failure("FOREIGN KEY constraint failed"));
        }
        let ghost a = *self;
        assert(has_session(a.sessions@, session_id@));
        self.inbound[i].session_id = Some(session_id.to_owned());
        self.inbound[i].kind = "queued".to_owned();
        self.inbound[i].content = Some(content.to_owned());
        self.inbound[i].expires_at = Some(expires_at);
        proof {
            assert forall|j: int| 0 <= j < a.inbound@.len() && j != i implies (
            #[trigger] a.inbound@[j]).message_id@ != message_id@ by {
                assert(a.inbound@[i as int].message_id@ == message_id@);
            }
        }
        Ok(())
    }

    /// Takes note of what a message was.
    pub fn mark_inbound_kind(&mut self, message_id: &str, kind: &str, now: i64)
        requires
            old(self).wf(),
        ensures
            final(self).wf(),
            message_marked(
                *old(self),
                *final(self),
                message_id@,
                kind@,
                now,
            ),
    {
        let ghost a = *self;
        if let Some(i) = self.find_message(message_id) {
            self.inbound[i].kind = kind.to_owned();
            self.inbound[i].consumed_at = Some(now);
            proof {
                assert forall|j: int| 0 <= j < a.inbound@.len() && j != i implies (
                #[trigger] a.inbound@[j]).message_id@ != message_id@ by {
                    assert(a.inbound@[i as int].message_id@ == message_id@);
                }
            }
        }
    }

    /// Hands the session the oldest message that waits for it.
    pub fn take_next_message(&mut self, session_id: &str, now: i64) -> (r: Option<(String, String)>)
        requires
            old(self).wf(),
        ensures
            final(self).wf(),
            take_outcome(
                *old(self),
                *final(self),
                session_id@,
                now,
                r,
            ),
    {
        let test = |r: &InboundRow| -> (b: bool)
            ensures
                b == (waiting_message(session_id@, now))(*r),
        {
            opt_is(&r.session_id, session_id) && str_eq(r.kind.as_str(), "queued")
                && r.consumed_at.is_none() && (match r.expires_at {
                None => true,
                Some(t) => t > now,
            })
        };
        let key = |r: &InboundRow| -> (s: SortKey)
            ensures
                s@ == (oldest_message())(*r),
        { SortKey { first: r.created_at as i128, second: 0, text: String::new() } };
        let i = match least(
            &self.inbound,
            test,
            key,
            Ghost(waiting_message(session_id@, now)),
            Ghost(oldest_message()),
        ) {
            None => {
                proof {
                    assert forall|j: int| 0 <= j < self.inbound@.len() implies !is_waiting_message(
                        #[trigger] self.inbound@[j],
                        session_id@,
                        now,
                    ) by {
                        assert(!(waiting_message(session_id@, now))(self.inbound@[j]));
                    }
                }
                return None;
            },
            Some(i) => i,
        };
        let ghost a = *self;
        proof {
            assert forall|j: int|
                0 <= j < a.inbound@.len() && is_waiting_message(
                    #[trigger] a.inbound@[j],
                    session_id@,
                    now,
                ) implies a.inbound@[i as int].created_at <= a.inbound@[j].created_at by {
                assert((waiting_message(session_id@, now))(a.inbound@[j]));
                assert(!precedes(
                    (oldest_message())(a.inbound@[j]),
                    (oldest_message())(a.inbound@[i as int]),
                    false,
                ));
            }
            assert(is_next_message(a.inbound@, i as int, session_id@, now));
        }
        let message = self.inbound[i].message_id.clone();
        let content = self.inbound[i].content.take();
        self.inbound[i].kind = "consumed".to_owned();
        self.inbound[i].consumed_at = Some(now);
        let content = content.unwrap();
        assert(self.inbound@ =~= a.inbound@.update(i as int, self.inbound@[i as int]));
        assert(message_taken(*old(self), *self, session_id@, now, message, content));
        Some((message, content))
    }
}

// ---------------------------------------------------------------------------
// Messages that go out

/// A message to send.
#[derive(Clone, Debug)]
pub struct NewDelivery {
    pub delivery_id: u128,
    pub idempotency_key: String,
    pub kind: String,
    pub session_id: Option<String>,
}

/// What has become of a message to send.
#[derive(Clone, Debug)]
pub struct DeliveryRecord {
    pub delivery_id: u128,
    pub status: String,
    pub qq_message_id: Option<String>,
    pub error_code: Option<String>,
}

/// What has become of a message to send, and whether it is new.
#[derive(Clone, Debug)]
pub struct BeginDelivery {
    pub record: DeliveryRecord,
    pub created: bool,
}

/// The condition of being the delivery with that key.
pub open spec fn delivery_keyed(key: Seq<char>) -> spec_fn(DeliveryRow) -> bool {
    |r: DeliveryRow| r.idempotency_key@ == key
}

/// The condition of being the delivery with that identifier.
pub open spec fn delivery_numbered(id: u128) -> spec_fn(DeliveryRow) -> bool {
    |r: DeliveryRow| r.delivery_id == id
}

/// Whether the record shows the delivery.
pub open spec fn shows_delivery(row: DeliveryRow, r: DeliveryRecord) -> bool {
    &&& r.delivery_id == row.delivery_id
    &&& r.status@ == row.status.label()
    &&& r.qq_message_id == row.qq_message_id
    &&& r.error_code == row.error_code
}

/// Whether the row is a delivery that just began.
pub open spec fn is_new_delivery(r: DeliveryRow, d: NewDelivery, now: i64) -> bool {
    &&& r.delivery_id == d.delivery_id
    &&& r.idempotency_key == d.idempotency_key
    &&& r.kind == d.kind
    &&& r.session_id == d.session_id
    &&& r.qq_message_id is None
    &&& r.status == DeliveryStatus::Pending
    &&& r.error_code is None
    &&& r.created_at == now
    &&& r.updated_at == now
}

/// Why a delivery that is not known cannot begin.
pub open spec fn delivery_fault(db: Database, d: NewDelivery) -> Option<Seq<char>> {
    if first(db.deliveries@, delivery_numbered(d.delivery_id)) is Some {
        Some("UNIQUE constraint failed: deliveries.delivery_id"@)
    } else if d.session_id matches Some(s) && !has_session(db.sessions@, s@) {
        Some(broken_reference())
    } else {
        None
    }
}

/// What comes of beginning a delivery: one whose key is known is not begun
/// again.
pub open spec fn begin_outcome(
    a: Database,
    b: Database,
    d: NewDelivery,
    now: i64,
    r: Result<BeginDelivery, Failure>,
) -> bool {
    match first(a.deliveries@, delivery_keyed(d.idempotency_key@)) {
        Some(row) => b == a && (r matches Ok(begun) && !begun.created && shows_delivery(
            row,
            begun.record,
        )),
        None => match delivery_fault(a, d) {
            Some(message) => b == a && (r matches Err(f) && f.message@ == message),
            None => {
                &&& b == (Database { deliveries: b.deliveries, ..a })
                &&& b.deliveries@ == a.deliveries@.push(b.deliveries@.last())
                &&& is_new_delivery(b.deliveries@.last(), d, now)
                &&& r matches Ok(begun) && begun.created && shows_delivery(
                    b.deliveries@.last(),
                    begun.record,
                )
            },
        },
    }
}

/// The status that a delivery can end with, by its name.
pub open spec fn final_status(name: Seq<char>) -> Option<DeliveryStatus> {
    if name == "sent"@ {
        Some(DeliveryStatus::Sent)
    } else if name == "failed"@ {
        Some(DeliveryStatus::Failed)
    } else if name == "in_doubt"@ {
        Some(DeliveryStatus::InDoubt)
    } else {
        None
    }
}

/// What comes of ending a delivery.
pub open spec fn finish_outcome(
    a: Database,
    b: Database,
    id: u128,
    status: Seq<char>,
    message: Option<Seq<char>>,
    error: Option<Seq<char>>,
    now: i64,
    r: Result<(), Failure>,
) -> bool {
    match final_status(status) {
        None => b == a && (r matches Err(f) && f.message@ == "invalid delivery terminal status"@),
        Some(s) => match first(a.deliveries@, delivery_numbered(id)) {
            Some(row) if row.status == DeliveryStatus::Pending => {
                &&& r matches Ok(())
                &&& b == (Database { deliveries: b.deliveries, ..a })
                &&& changed(
                    a.deliveries@,
                    b.deliveries@,
                    |p: DeliveryRow, q: DeliveryRow|
                        if p.delivery_id == id {
                            q == (DeliveryRow {
                                status: s,
                                qq_message_id: q.qq_message_id,
                                error_code: q.error_code,
                                updated_at: now,
                                ..p
                            }) && opt_view(q.qq_message_id) == message && opt_view(q.error_code)
                                == error
                        } else {
                            q == p
                        },
                )
            },
            _ => b == a && (r matches Err(f) && f.message@ == "delivery is not pending"@),
        },
    }
}

/// Whether that part of the delivery was sent.
pub open spec fn has_part(sent: Seq<SentRow>, id: u128, index: u32) -> bool {
    exists|i: int|
        0 <= i < sent.len() && (#[trigger] sent[i]).delivery_id == id && sent[i].message_index
            == index
}

/// The condition of having been sent since that time.
pub open spec fn sent_since(since: i64) -> spec_fn(SentRow) -> bool {
    |r: SentRow| r.sent_at >= since
}

fn delivery_record(row: &DeliveryRow) -> (r: DeliveryRecord)
    ensures
        shows_delivery(*row, r),
{
    DeliveryRecord {
        delivery_id: row.delivery_id,
        status: row.status.as_str().to_owned(),
        qq_message_id: row.qq_message_id.clone(),
        error_code: row.error_code.clone(),
    }
}

/// What comes of word that a part of a delivery was sent.
pub open spec fn part_outcome(
    a: Database,
    b: Database,
    delivery_id: u128,
    message_index: u32,
    now: i64,
    r: Result<(), Failure>,
) -> bool {
    if has_part(a.sent@, delivery_id, message_index) {
        b == a && (r matches Err(f) && f.message@
            == "UNIQUE constraint failed: sent_message_events.delivery_id, sent_message_events.message_index"@)
    } else if first(a.deliveries@, delivery_numbered(delivery_id)) is None {
        b == a && (r matches Err(f) && f.message@ == broken_reference())
    } else {
        &&& r matches Ok(())
        &&& b == (Database { sent: b.sent, ..a })
        &&& b.sent@ == a.sent@.push(
            SentRow { delivery_id, message_index, sent_at: now },
        )
    }
}

/// What comes of counting the parts sent since a time.
pub open spec fn sent_counted(
    db: Database,
    since: i64,
    r: Result<u32, Failure>,
) -> bool {
    match r {
        Ok(n) => n == count(db.sent@, sent_since(since)),
        Err(f) => count(db.sent@, sent_since(since)) > u32::MAX && f.message@
            == "failed to count deliveries"@,
    }
}

impl Database {
    fn find_delivery(&self, id: u128) -> (r: Option<usize>)
        ensures
            match r {
                Some(i) => i < self.deliveries@.len() && first(
                    self.deliveries@,
                    delivery_numbered(id),
                ) == Some(self.deliveries@[i as int]) && self.deliveries@[i as int].delivery_id
                    == id,
                None => first(self.deliveries@, delivery_numbered(id)) is None && forall|j: int|
                    0 <= j < self.deliveries@.len() ==> (#[trigger] self.deliveries@[j]).delivery_id
                        != id,
            },
    {
        let test = |r: &DeliveryRow| -> (b: bool)
            ensures
                b == (delivery_numbered(id))(*r),
        { r.delivery_id == id };
        find(&self.deliveries, test, Ghost(delivery_numbered(id)))
    }

    fn find_delivery_key(&self, key: &str) -> (r: Option<usize>)
        ensures
            match r {
                Some(i) => i < self.deliveries@.len() && first(self.deliveries@, delivery_keyed(key@))
                    == Some(self.deliveries@[i as int]),
                None => first(self.deliveries@, delivery_keyed(key@)) is None && forall|j: int|
                    0 <= j < self.deliveries@.len() ==> (
                    #[trigger] self.deliveries@[j]).idempotency_key@ != key@,
            },
    {
        let test = |r: &DeliveryRow| -> (b: bool)
            ensures
                b == (delivery_keyed(key@))(*r),
        { str_eq(r.idempotency_key.as_str(), key) };
        find(&self.deliveries, test, Ghost(delivery_keyed(key@)))
    }

    /// Begins a delivery, unless one with its key was begun before.
    pub fn begin_delivery(&mut self, delivery: NewDelivery, now: i64) -> (r: Result<
        BeginDelivery,
        Failure,
    >)
        requires
            old(self).wf(),
        ensures
            final(self).wf(),
            begin_outcome(*old(self), *final(self), delivery, now, r),
    {
        if let Some(i) = self.find_delivery_key(delivery.idempotency_key.as_str()) {
            let record = delivery_record(&self.deliveries[i]);
            return Ok(BeginDelivery { record, created: false });
        }
        if self.find_delivery(delivery.delivery_id).is_some() {
            return Err(failure("UNIQUE constraint failed: deliveries.delivery_id"));
        }
        if let Some(s) = &delivery.session_id {
            if self.find_session(s.as_str()).is_none() {
                return Err(failure("FOREIGN KEY constraint failed"));
            }
        }
        let row = DeliveryRow {
            delivery_id: delivery.delivery_id,
            idempotency_key: delivery.idempotency_key.clone(),
            kind: delivery.kind.clone(),
            session_id: delivery.session_id.clone(),
            qq_message_id: None,
            status: DeliveryStatus::Pending,
            error_code: None,
            created_at: now,
            updated_at: now,
        };
        let record = delivery_record(&row);
        self.deliveries.push(row);
        Ok(BeginDelivery { record, created: true })
    }

    /// Ends a delivery that has begun.
    pub fn finish_delivery(
        &mut self,
        delivery_id: u128,
        status: &str,
        qq_message_id: Option<&str>,
        error_code: Option<&str>,
        now: i64,
    ) -> (r: Result<(), Failure>)
        requires
            old(self).wf(),
        ensures
            final(self).wf(),
            finish_outcome(
                *old(self),
                *final(self),
                delivery_id,
                status@,
                opt_str_view(qq_message_id),
                opt_str_view(error_code),
                now,
                r,
            ),
    {
        let end = if str_eq(status, "sent") {
            DeliveryStatus::Sent
        } else if str_eq(status, "failed") {
            DeliveryStatus::Failed
        } else if str_eq(status, "in_doubt") {
            DeliveryStatus::InDoubt
        } else {
            return Err(failure("invalid delivery terminal status"));
        };
        let i = match self.find_delivery(delivery_id) {
            None => {
                return Err(failure("delivery is not pending"));
            },
            Some(i) => i,
        };
        if self.deliveries[i].status != DeliveryStatus::Pending {
            return Err(failure("delivery is not pending"));
        }
        let ghost a = *self;
        self.deliveries[i].status = end;
        self.deliveries[i].qq_message_id = owned(qq_message_id);
        self.deliveries[i].error_code = owned(error_code);
        self.deliveries[i].updated_at = now;
        proof {
            assert forall|j: int| 0 <= j < a.deliveries@.len() && j != i implies (
            #[trigger] a.deliveries@[j]).delivery_id != delivery_id by {
                assert(a.deliveries@[i as int].delivery_id == delivery_id);
            }
        }
        Ok(())
    }

    /// The delivery with that identifier.
    pub fn delivery_by_id(&self, delivery_id: u128) -> (r: Option<DeliveryRecord>)
        ensures
            match first(self.deliveries@, delivery_numbered(delivery_id)) {
                Some(row) => r matches Some(d) && shows_delivery(row, d),
                None => r is None,
            },
    {
        match self.find_delivery(delivery_id) {
            Some(i) => Some(delivery_record(&self.deliveries[i])),
            None => None,
        }
    }

    /// The delivery with that key.
    pub fn delivery_by_idempotency_key(&self, key: &str) -> (r: Option<DeliveryRecord>)
        ensures
            match first(self.deliveries@, delivery_keyed(key@)) {
                Some(row) => r matches Some(d) && shows_delivery(row, d),
                None => r is None,
            },
    {
        match self.find_delivery_key(key) {
            Some(i) => Some(delivery_record(&self.deliveries[i])),
            None => None,
        }
    }

    /// How many parts of deliveries were sent since that time.
    pub fn sent_delivery_count_since(&self, since: i64) -> (r: Result<u32, Failure>)
        ensures
            sent_counted(*self, since, r),
    {
        let test = |r: &SentRow| -> (b: bool)
            ensures
                b == (sent_since(since))(*r),
        { r.sent_at >= since };
        let n = count_rows(&self.sent, test, Ghost(sent_since(since)));
        if n as u64 > u32::MAX as u64 {
            return Err(failure("failed to count deliveries"));
        }
        Ok(n as u32)
    }

    /// Takes note that a part of a delivery was sent.
    pub fn record_sent_message(&mut self, delivery_id: u128, message_index: u32, now: i64) -> (r:
        Result<(), Failure>)
        requires
            old(self).wf(),
        ensures
            final(self).wf(),
            part_outcome(
                *old(self),
                *final(self),
                delivery_id,
                message_index,
                now,
                r,
            ),
    {
        let mut i: usize = 0;
        while i < self.sent.len()
            invariant
                i <= self.sent@.len(),
                *self == *old(self),
                self.wf(),
                forall|j: int|
                    0 <= j < i ==> !((#[trigger] self.sent@[j]).delivery_id == delivery_id
                        && self.sent@[j].message_index == message_index),
            decreases self.sent@.len() - i,
        {
            if self.sent[i].delivery_id == delivery_id && self.sent[i].message_index
                == message_index {
                return Err(
                    failure(
                        "UNIQUE constraint failed: sent_message_events.delivery_id, sent_message_events.message_index",
                    ),
                );
            }
            i += 1;
        }
        if self.find_delivery(delivery_id).is_none() {
            return Err(failure("FOREIGN KEY constraint failed"));
        }
        self.sent.push(SentRow { delivery_id, message_index, sent_at: now });
        Ok(())
    }
}

// ---------------------------------------------------------------------------
// The gateway

/// Where a gateway session can be resumed.
#[derive(Clone, Debug)]
pub struct GatewayResume {
    pub session_id: String,
    pub sequence: u64,
    pub resume_gateway_url: Option<String>,
}

/// What is said where the number of a gateway session cannot be remembered.
pub open spec fn sequence_too_great() -> Seq<char> {
    "gateway sequence exceeds SQLite range"@
}

/// Whether `b` is `a` with where the gateway session can be resumed. An address
/// that is not told is the one that was told before.
pub open spec fn resume_saved(
    a: Database,
    b: Database,
    session: Seq<char>,
    sequence: u64,
    url: Option<Seq<char>>,
    now: i64,
) -> bool {
    &&& b == (Database { gateway: b.gateway, ..a })
    &&& b.gateway matches Some(g) && g.session_id@ == session && g.sequence == sequence
        && g.updated_at == now && opt_view(g.resume_gateway_url) == (match (url, a.gateway) {
        (Some(u), _) => Some(u),
        (None, Some(before)) => opt_view(before.resume_gateway_url),
        (None, None) => None,
    })
}

/// Whether `b` is `a` with what the gateway connection is doing, and whether the
/// gateway was heard of.
pub open spec fn runtime_set(
    a: Database,
    b: Database,
    state: Seq<char>,
    seen: bool,
    now: i64,
) -> bool {
    &&& b == (Database { gateway_runtime: b.gateway_runtime, ..a })
    &&& b.gateway_runtime matches Some(g) && g.state.label() == state && g.updated_at == now
        && g.last_seen_at == (if seen {
        Some(now)
    } else {
        match a.gateway_runtime {
            Some(before) => before.last_seen_at,
            None => None,
        }
    })
}

impl Database {
    /// Where the gateway session can be resumed.
    pub fn gateway_resume(&self) -> (r: Option<GatewayResume>)
        ensures
            match self.gateway {
                None => r is None,
                Some(g) => r matches Some(x) && x.session_id == g.session_id && x.sequence == (
                if g.sequence < 0 {
                    0
                } else {
                    g.sequence as int
                }) && x.resume_gateway_url == g.resume_gateway_url,
            },
    {
        match &self.gateway {
            None => None,
            Some(g) => Some(
                GatewayResume {
                    session_id: g.session_id.clone(),
                    sequence: if g.sequence < 0 {
                        0
                    } else {
                        g.sequence as u64
                    },
                    resume_gateway_url: g.resume_gateway_url.clone(),
                },
            ),
        }
    }

    /// Remembers where the gateway session can be resumed. An address that is
    /// not told is the one that was told before.
    pub fn save_gateway_resume(
        &mut self,
        session_id: &str,
        sequence: u64,
        resume_gateway_url: Option<&str>,
        now: i64,
    ) -> (r: Result<(), Failure>)
        requires
            old(self).wf(),
        ensures
            final(self).wf(),
            if sequence > i64::MAX {
                *final(self) == *old(self) && (r matches Err(f) && f.message@
                    == sequence_too_great())
            } else {
                (r matches Ok(())) && resume_saved(
                    *old(self),
                    *final(self),
                    session_id@,
                    sequence,
                    opt_str_view(resume_gateway_url),
                    now,
                )
            },
    {
        if sequence > i64::MAX as u64 {
            return Err(failure("gateway sequence exceeds SQLite range"));
        }
        let url = match resume_gateway_url {
            Some(url) => Some(url.to_owned()),
            None => match &self.gateway {
                Some(g) => g.resume_gateway_url.clone(),
                None => None,
            },
        };
        self.gateway = Some(
            GatewayStateRow {
                session_id: session_id.to_owned(),
                sequence: sequence as i64,
                resume_gateway_url: url,
                updated_at: now,
            },
        );
        Ok(())
    }

    /// Forgets where the gateway session could be resumed.
    pub fn clear_gateway_resume(&mut self)
        requires
            old(self).wf(),
        ensures
            final(self).wf(),
            *final(self) == (Database { gateway: None, ..*old(self) }),
    {
        self.gateway = None;
    }

    /// Takes note of what the gateway connection is doing, and whether the gateway
    /// was heard of.
    pub fn set_gateway_runtime(&mut self, state: &str, seen: bool, now: i64) -> (r: Result<
        (),
        Failure,
    >)
        requires
            old(self).wf(),
        ensures
            final(self).wf(),
            match r {
                Err(f) => *final(self) == *old(self) && f.message@
                    == "invalid QQ Gateway runtime state"@ && forall|s: GatewayState|
                    #[trigger] s.label() != state@,
                Ok(()) => runtime_set(*old(self), *final(self), state@, seen, now),
            },
    {
        let next = match GatewayState::from_label(state) {
            None => {
                return Err(failure("invalid QQ Gateway runtime state"));
            },
            Some(next) => next,
        };
        let last_seen_at = if seen {
            Some(now)
        } else {
            match &self.gateway_runtime {
                Some(before) => before.last_seen_at,
                None => None,
            }
        };
        self.gateway_runtime = Some(
            GatewayRuntimeRow { state: next, last_seen_at, updated_at: now },
        );
        Ok(())
    }
}

// ---------------------------------------------------------------------------
// What is told of all that

/// What is told of the gateway connection.
#[derive(Clone, Debug)]
pub struct GatewayRuntimeStatus {
    pub state: String,
    pub last_seen_at: Option<i64>,
}

/// What is told of an agent session.
#[derive(Clone, Debug)]
pub struct SessionStatus {
    pub session_label: String,
    pub state: String,
    pub final_sent: bool,
}

/// What is told of an approval that the owner has not spoken on.
#[derive(Clone, Debug)]
pub struct PendingApprovalStatus {
    pub approval_code: String,
    pub session_label: String,
    pub tool_name: String,
    pub expires_at: i64,
}

/// What is told of the owner, the gateway and the agent sessions.
#[derive(Clone, Debug)]
pub struct StatusSnapshot {
    pub owner_bound: bool,
    pub owner_enabled: bool,
    pub qq_gateway: GatewayRuntimeStatus,
    pub sessions: Vec<SessionStatus>,
    pub pending_approvals: Vec<PendingApprovalStatus>,
}

/// How many agent sessions are told of at most.
pub const MAX_TOLD_SESSIONS: usize = 20;

/// The condition of being a session.
pub open spec fn any_session() -> spec_fn(SessionRow) -> bool {
    |r: SessionRow| true
}

/// What sessions are ordered by: the latest change first.
pub open spec fn latest_session() -> spec_fn(SessionRow) -> (int, int, Seq<char>) {
    |r: SessionRow| (-(r.updated_at as int), 0int, Seq::<char>::empty())
}

/// The condition of being an approval that waits and has not expired.
pub open spec fn waiting_approval(now: i64) -> spec_fn(ApprovalRow) -> bool {
    |r: ApprovalRow| r.state == ApprovalState::Pending && r.expires_at > now
}

/// What approvals are ordered by: their age.
pub open spec fn oldest_approval() -> spec_fn(ApprovalRow) -> (int, int, Seq<char>) {
    |r: ApprovalRow| (r.created_at as int, 0int, Seq::<char>::empty())
}

/// Whether the records tell of the sessions that were changed last.
pub open spec fn tells_sessions(db: Database, picks: Seq<usize>, list: Seq<SessionStatus>) -> bool {
    &&& is_selection(db.sessions@, any_session(), latest_session(), false, picks)
    &&& list.len() == (if picks.len() <= MAX_TOLD_SESSIONS {
        picks.len()
    } else {
        MAX_TOLD_SESSIONS as nat
    })
    &&& forall|k: int|
        #![trigger list[k]]
        0 <= k < list.len() ==> {
            let s = db.sessions@[picks[k] as int];
            list[k].session_label == s.short_code && list[k].state@ == s.state.label()
                && list[k].final_sent == s.final_sent
        }
}

/// Whether the records tell of the approvals that wait, the oldest first.
pub open spec fn tells_approvals(
    db: Database,
    picks: Seq<usize>,
    now: i64,
    list: Seq<PendingApprovalStatus>,
) -> bool {
    &&& is_selection(db.approvals@, waiting_approval(now), oldest_approval(), false, picks)
    &&& list.len() == picks.len()
    &&& forall|k: int|
        #![trigger list[k]]
        0 <= k < list.len() ==> {
            let p = db.approvals@[picks[k] as int];
            list[k].approval_code == p.short_code && Some(list[k].session_label@) == code_of(
                db,
                p.session_id@,
            ) && list[k].tool_name == p.tool_name && list[k].expires_at == p.expires_at
        }
}

/// Whether what is told is so.
pub open spec fn tells_snapshot(db: Database, now: i64, s: StatusSnapshot) -> bool {
    &&& s.owner_bound == (db.owner is Some)
    &&& s.owner_enabled == (db.owner matches Some(o) && o.enabled)
    &&& match db.gateway_runtime {
        Some(g) => s.qq_gateway.state@ == g.state.label() && s.qq_gateway.last_seen_at
            == g.last_seen_at,
        None => s.qq_gateway.state@ == "stopped"@ && s.qq_gateway.last_seen_at is None,
    }
    &&& exists|picks: Seq<usize>| #[trigger] tells_sessions(db, picks, s.sessions@)
    &&& exists|picks: Seq<usize>| #[trigger]
        tells_approvals(db, picks, now, s.pending_approvals@)
}

impl Database {
    fn session_statuses(&self) -> (r: Vec<SessionStatus>)
        ensures
            exists|picks: Seq<usize>| #[trigger] tells_sessions(*self, picks, r@),
    {
        let test = |r: &SessionRow| -> (b: bool)
            ensures
                b == (any_session())(*r),
        { true };
        let key = |r: &SessionRow| -> (s: SortKey)
            ensures
                s@ == (latest_session())(*r),
        { SortKey { first: -(r.updated_at as i128), second: 0, text: String::new() } };
        let picks = select(
            &self.sessions,
            test,
            key,
            false,
            Ghost(any_session()),
            Ghost(latest_session()),
        );
        let mut r: Vec<SessionStatus> = Vec::new();
        let mut k: usize = 0;
        while k < picks.len() && k < MAX_TOLD_SESSIONS
            invariant
                k <= picks@.len(),
                k <= MAX_TOLD_SESSIONS,
                is_selection(self.sessions@, any_session(), latest_session(), false, picks@),
                r@.len() == k,
                forall|l: int|
                    #![trigger r@[l]]
                    0 <= l < k ==> {
                        let s = self.sessions@[picks@[l] as int];
                        r@[l].session_label == s.short_code && r@[l].state@ == s.state.label()
                            && r@[l].final_sent == s.final_sent
                    },
            decreases picks@.len() - k,
        {
            let s = &self.sessions[picks[k]];
            r.push(
                SessionStatus {
                    session_label: s.short_code.clone(),
                    state: s.state.as_str().to_owned(),
                    final_sent: s.final_sent,
                },
            );
            k += 1;
        }
        assert(tells_sessions(*self, picks@, r@));
        r
    }

    fn approval_statuses(&self, now: i64) -> (r: Vec<PendingApprovalStatus>)
        requires
            self.wf(),
        ensures
            exists|picks: Seq<usize>| #[trigger] tells_approvals(*self, picks, now, r@),
    {
        let test = |r: &ApprovalRow| -> (b: bool)
            ensures
                b == (waiting_approval(now))(*r),
        { r.state == ApprovalState::Pending && r.expires_at > now };
        let key = |r: &ApprovalRow| -> (s: SortKey)
            ensures
                s@ == (oldest_approval())(*r),
        { SortKey { first: r.created_at as i128, second: 0, text: String::new() } };
        let picks = select(
            &self.approvals,
            test,
            key,
            false,
            Ghost(waiting_approval(now)),
            Ghost(oldest_approval()),
        );
        let mut r: Vec<PendingApprovalStatus> = Vec::new();
        let mut k: usize = 0;
        while k < picks.len()
            invariant
                k <= picks@.len(),
                self.wf(),
                is_selection(
                    self.approvals@,
                    waiting_approval(now),
                    oldest_approval(),
                    false,
                    picks@,
                ),
                r@.len() == k,
                forall|l: int|
                    #![trigger r@[l]]
                    0 <= l < k ==> {
                        let p = self.approvals@[picks@[l] as int];
                        r@[l].approval_code == p.short_code && Some(r@[l].session_label@)
                            == code_of(*self, p.session_id@) && r@[l].tool_name == p.tool_name
                            && r@[l].expires_at == p.expires_at
                    },
            decreases picks@.len() - k,
        {
            let p = &self.approvals[picks[k]];
            assert(has_session(self.sessions@, p.session_id@));
            if let Some(i) = self.find_session(p.session_id.as_str()) {
                r.push(
                    PendingApprovalStatus {
                        approval_code: p.short_code.clone(),
                        session_label: self.sessions[i].short_code.clone(),
                        tool_name: p.tool_name.clone(),
                        expires_at: p.expires_at,
                    },
                );
            }
            k += 1;
        }
        assert(tells_approvals(*self, picks@, now, r@));
        r
    }

    /// What is told of the owner, the gateway and the agent sessions.
    pub fn status_snapshot(&self, now: i64) -> (r: StatusSnapshot)
        requires
            self.wf(),
        ensures
            tells_snapshot(*self, now, r),
    {
        let sessions = self.session_statuses();
        let pending_approvals = self.approval_statuses(now);
        let qq_gateway = match &self.gateway_runtime {
            Some(g) => GatewayRuntimeStatus {
                state: g.state.as_str().to_owned(),
                last_seen_at: g.last_seen_at,
            },
            None => GatewayRuntimeStatus { state: "stopped".to_owned(), last_seen_at: None },
        };
        let (owner_bound, owner_enabled) = match &self.owner {
            Some(o) => (true, o.enabled),
            None => (false, false),
        };
        let r = StatusSnapshot {
            owner_bound,
            owner_enabled,
            qq_gateway,
            sessions,
            pending_approvals,
        };
        proof {
            let picks = choose|picks: Seq<usize>| #[trigger] tells_sessions(*self, picks, sessions@);
            assert(tells_sessions(*self, picks, r.sessions@));
            let picks = choose|picks: Seq<usize>| #[trigger]
                tells_approvals(*self, picks, now, pending_approvals@);
            assert(tells_approvals(*self, picks, now, r.pending_approvals@));
        }
        r
    }
}

} // verus!
