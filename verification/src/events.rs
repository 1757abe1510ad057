//! The events of tracked sessions, and the messages that tell the owner of them.
use vstd::prelude::*;
use vstd::string::*;

use crate::bindings::{fits, not_registered, out_of_range};
use crate::commands::heard;
use crate::config::{failure, Failure};
use crate::json::{
    canonical, canonical_json, compact, get_tree, number_tree, text_tree, Json, Tree,
};
use crate::protocol::{AhpEventKind, AhpPublishedEvent};
use crate::security::{redact_json, redacted};
use crate::store::{
    BindingRow, BindingState, Database, DeliveryRow, DeliveryStatus, EventRow, ProjectionRow,
    SentRow,
};
use crate::tables::{changed, count, count_rows, is_selection, opt_eq, opt_is, select, SortKey};
use crate::text::{cat, is_listed, lists_text, opt_view, str_eq, views};

verus! {

broadcast use vstd::string::group_string_axioms;

// ---------------------------------------------------------------------------
// Publishing events

/// Whether an event with that identifier is kept.
pub open spec fn has_event(rows: Seq<EventRow>, id: Seq<char>) -> bool {
    exists|i: int| 0 <= i < rows.len() && (#[trigger] rows[i]).event_id@ == id
}

/// Whether an event with that identifier is kept and has been processed.
pub open spec fn is_processed(rows: Seq<EventRow>, id: Seq<char>) -> bool {
    exists|i: int|
        0 <= i < rows.len() && (#[trigger] rows[i]).event_id@ == id && rows[i].processed_at is Some
}

/// How many messages a chat has queued, as its snapshot says.
pub open spec fn queued_count(data: Tree) -> nat {
    match number_tree(get_tree(data, "queued_message_count"@)) {
        Some(n) => n,
        None => 0,
    }
}

/// What is wrong with an event for that tracked session.
pub open spec fn event_fault(row: BindingRow, e: AhpPublishedEvent) -> Option<Seq<char>> {
    if e.session_uri@ != row.session_uri@ {
        Some("AHP event targets a different session"@)
    } else if opt_view(row.host_instance_id) != Some(e.host_instance_id@) {
        Some("AHP event targets a stale Host instance"@)
    } else if e.chat_uri is Some && opt_view(row.chat_uri) != opt_view(e.chat_uri) {
        Some("AHP event targets a different Chat"@)
    } else if e.server_sequence matches Some(n) && n > i64::MAX {
        Some("AHP server sequence exceeds SQLite"@)
    } else if e.kind == AhpEventKind::ChatSnapshot && queued_count(e.data@) > i64::MAX {
        Some(out_of_range())
    } else {
        None
    }
}

/// What is wrong with the first of the first `n` events that something is wrong
/// with.
pub open spec fn events_fault(row: BindingRow, events: Seq<AhpPublishedEvent>, n: nat) -> Option<
    Seq<char>,
>
    decreases n,
{
    if n == 0 || n > events.len() {
        None
    } else {
        match events_fault(row, events, (n - 1) as nat) {
            Some(f) => Some(f),
            None => event_fault(row, events[n - 1]),
        }
    }
}

/// Why a batch of events is refused.
pub open spec fn publish_fault(
    db: Database,
    adapter: Seq<char>,
    instance: Seq<char>,
    id: Seq<char>,
    generation: i64,
    events: Seq<AhpPublishedEvent>,
) -> Option<Seq<char>> {
    if !db.is_registered(adapter, instance) {
        Some(not_registered())
    } else {
        match db.binding_with(id) {
            None => Some("AHP event batch targets an unknown binding"@),
            Some(row) => if !fits(row) {
                Some(out_of_range())
            } else if row.generation != generation || !(row.state == BindingState::Bound
                || row.state == BindingState::Detaching) {
                Some("AHP event batch targets a stale or inactive binding"@)
            } else {
                events_fault(row, events, events.len())
            },
        }
    }
}

/// The positions of the events, among the first `n`, that are neither kept yet
/// nor repeat an earlier one.
pub open spec fn new_events(
    rows: Seq<EventRow>,
    events: Seq<AhpPublishedEvent>,
    n: nat,
) -> Seq<int>
    decreases n,
{
    if n == 0 || n > events.len() {
        Seq::empty()
    } else {
        let before = new_events(rows, events, (n - 1) as nat);
        let id = events[n - 1].event_id@;
        if has_event(rows, id) || exists|j: int|
            0 <= j < n - 1 && (#[trigger] events[j]).event_id@ == id {
            before
        } else {
            before.push(n - 1)
        }
    }
}

/// The identifiers of the events, among the first `n`, that have not been
/// processed.
pub open spec fn unprocessed(
    rows: Seq<EventRow>,
    events: Seq<AhpPublishedEvent>,
    n: nat,
) -> Seq<Seq<char>>
    decreases n,
{
    if n == 0 || n > events.len() {
        Seq::empty()
    } else {
        let before = unprocessed(rows, events, (n - 1) as nat);
        let id = events[n - 1].event_id@;
        if is_processed(rows, id) {
            before
        } else {
            before.push(id)
        }
    }
}

/// Whether the row keeps the event, its credentials replaced.
pub open spec fn keeps(
    r: EventRow,
    e: AhpPublishedEvent,
    id: Seq<char>,
    generation: i64,
    now: i64,
) -> bool {
    &&& r.event_id@ == e.event_id@
    &&& r.host_instance_id@ == e.host_instance_id@
    &&& r.binding_id@ == id
    &&& r.binding_generation == generation
    &&& match e.server_sequence {
        Some(n) => r.server_sequence matches Some(m) && m == n,
        None => r.server_sequence is None,
    }
    &&& r.session_uri@ == e.session_uri@
    &&& opt_view(r.chat_uri) == opt_view(e.chat_uri)
    &&& opt_view(r.turn_id) == opt_view(e.turn_id)
    &&& r.kind == e.kind
    &&& opt_view(r.origin_client_id) == opt_view(e.origin_client_id)
    &&& r.occurred_at@ == e.occurred_at@
    &&& r.data_redacted@ == compact(canonical(redacted(e.data@)))
    &&& r.processed_at is None
    &&& r.processing_error is None
    &&& r.created_at == now
}

/// Whether `b` is `a` with the first `n` events kept, each once.
pub open spec fn events_kept(
    a: Seq<EventRow>,
    b: Seq<EventRow>,
    events: Seq<AhpPublishedEvent>,
    n: nat,
    id: Seq<char>,
    generation: i64,
    now: i64,
) -> bool {
    let added = new_events(a, events, n);
    &&& b.len() == a.len() + added.len()
    &&& forall|i: int| 0 <= i < a.len() ==> #[trigger] b[i] == a[i]
    &&& forall|k: int|
        0 <= k < added.len() ==> keeps(
            b[a.len() + k],
            events[#[trigger] added[k]],
            id,
            generation,
            now,
        )
}

/// What a tracked session is known to be doing.
pub ghost struct Activity {
    pub turn: Option<Seq<char>>,
    pub queued: int,
    pub active_at: i64,
    pub updated_at: i64,
}

/// What the tracked session is doing after the event.
pub open spec fn after_event(s: Activity, e: AhpPublishedEvent, now: i64) -> Activity {
    match e.kind {
        AhpEventKind::ChatSnapshot => Activity {
            turn: text_tree(get_tree(e.data@, "active_turn_id"@)),
            queued: queued_count(e.data@) as int,
            updated_at: now,
            ..s
        },
        AhpEventKind::TurnStarted => Activity {
            turn: opt_view(e.turn_id),
            active_at: now,
            updated_at: now,
            ..s
        },
        AhpEventKind::TurnCompleted
        | AhpEventKind::TurnCancelled
        | AhpEventKind::TurnFailed => if e.turn_id is None || s.turn == opt_view(e.turn_id) {
            Activity { turn: None, active_at: now, updated_at: now, ..s }
        } else {
            s
        },
        _ => s,
    }
}

/// What the tracked session is doing after the first `n` events.
pub open spec fn after_events(
    s: Activity,
    events: Seq<AhpPublishedEvent>,
    n: nat,
    now: i64,
) -> Activity
    decreases n,
{
    if n == 0 || n > events.len() {
        s
    } else {
        after_event(after_events(s, events, (n - 1) as nat, now), events[n - 1], now)
    }
}

/// The greatest number that the server gave to one of the first `n` events.
pub open spec fn last_sequence(events: Seq<AhpPublishedEvent>, n: nat) -> Option<u64>
    decreases n,
{
    if n == 0 || n > events.len() {
        None
    } else {
        let before = last_sequence(events, (n - 1) as nat);
        match (before, events[n - 1].server_sequence) {
            (Some(x), Some(y)) => Some(
                if y > x {
                    y
                } else {
                    x
                },
            ),
            (None, y) => y,
            (x, None) => x,
        }
    }
}

/// What a tracked session is known to be doing.
pub open spec fn activity(row: BindingRow) -> Activity {
    Activity {
        turn: opt_view(row.active_turn_id),
        queued: row.queued_message_count as int,
        active_at: row.last_activity_at,
        updated_at: row.updated_at,
    }
}

/// The tracked session after the first `n` events, its sequence number aside.
pub open spec fn has_followed(
    p: BindingRow,
    q: BindingRow,
    events: Seq<AhpPublishedEvent>,
    n: nat,
    now: i64,
) -> bool {
    &&& q == (BindingRow {
        active_turn_id: q.active_turn_id,
        queued_message_count: q.queued_message_count,
        last_activity_at: q.last_activity_at,
        updated_at: q.updated_at,
        ..p
    })
    &&& activity(q) == after_events(activity(p), events, n, now)
}

/// The tracked session after the events.
pub open spec fn followed(
    p: BindingRow,
    q: BindingRow,
    events: Seq<AhpPublishedEvent>,
    now: i64,
) -> bool {
    let s = after_events(activity(p), events, events.len(), now);
    let last = last_sequence(events, events.len());
    &&& q == (BindingRow {
        active_turn_id: q.active_turn_id,
        queued_message_count: q.queued_message_count,
        last_activity_at: q.last_activity_at,
        updated_at: q.updated_at,
        last_server_sequence: q.last_server_sequence,
        ..p
    })
    &&& activity(q) == (if last is Some {
        Activity { updated_at: now, ..s }
    } else {
        s
    })
    &&& q.last_server_sequence == (match last {
        Some(n) if n > p.last_server_sequence => n as int,
        _ => p.last_server_sequence as int,
    })
}

/// Whether `b` is `a` after a batch of events of a tracked session: the new ones
/// are kept, and what the session is doing is known.
pub open spec fn published(
    a: Database,
    b: Database,
    id: Seq<char>,
    generation: i64,
    events: Seq<AhpPublishedEvent>,
    now: i64,
) -> bool {
    &&& b == (Database {
        events: b.events,
        bindings: b.bindings,
        adapter: heard(a.adapter, now),
        ..a
    })
    &&& events_kept(a.events@, b.events@, events, events.len(), id, generation, now)
    &&& changed(
        a.bindings@,
        b.bindings@,
        |p: BindingRow, q: BindingRow|
            if p.binding_id@ == id {
                followed(p, q, events, now)
            } else {
                q == p
            },
    )
}

fn find_event_fault(row: &BindingRow, e: &AhpPublishedEvent) -> (r: Option<&'static str>)
    ensures
        match r {
            Some(f) => event_fault(*row, *e) == Some(f@),
            None => event_fault(*row, *e) is None,
        },
{
    if !str_eq(e.session_uri.as_str(), row.session_uri.as_str()) {
        return Some("AHP event targets a different session");
    }
    if !opt_is(&row.host_instance_id, e.host_instance_id.as_str()) {
        return Some("AHP event targets a stale Host instance");
    }
    if e.chat_uri.is_some() && !opt_eq(&row.chat_uri, &e.chat_uri) {
        return Some("AHP event targets a different Chat");
    }
    if let Some(n) = e.server_sequence {
        if n > i64::MAX as u64 {
            return Some("AHP server sequence exceeds SQLite");
        }
    }
    if e.kind == AhpEventKind::ChatSnapshot && queued_messages(&e.data) > i64::MAX as u64 {
        return Some("out of range integral type conversion attempted");
    }
    None
}

fn queued_messages(data: &Json) -> (r: u64)
    ensures
        r as nat == queued_count(data@),
{
    match data.get("queued_message_count") {
        Some(j) => match j.as_u64() {
            Some(n) => n,
            None => 0,
        },
        None => 0,
    }
}

fn stored_event(
    e: &AhpPublishedEvent,
    id: &str,
    generation: i64,
    now: i64,
) -> (r: EventRow)
    requires
        e.server_sequence matches Some(n) ==> n <= i64::MAX,
    ensures
        keeps(r, *e, id@, generation, now),
{
    let safe = redact_json(&e.data);
    EventRow {
        event_id: e.event_id.clone(),
        host_instance_id: e.host_instance_id.clone(),
        binding_id: id.to_owned(),
        binding_generation: generation,
        server_sequence: match e.server_sequence {
            Some(n) => Some(n as i64),
            None => None,
        },
        session_uri: e.session_uri.clone(),
        chat_uri: e.chat_uri.clone(),
        turn_id: e.turn_id.clone(),
        kind: e.kind,
        origin_client_id: e.origin_client_id.clone(),
        occurred_at: e.occurred_at.clone(),
        data_redacted: canonical_json(&safe),
        processed_at: None,
        processing_error: None,
        created_at: now,
    }
}

fn find_event(rows: &Vec<EventRow>, id: &str) -> (r: Option<usize>)
    ensures
        match r {
            Some(i) => i < rows@.len() && rows@[i as int].event_id@ == id@,
            None => !has_event(rows@, id@),
        },
{
    let mut i: usize = 0;
    while i < rows.len()
        invariant
            i <= rows@.len(),
            forall|j: int| 0 <= j < i ==> (#[trigger] rows@[j]).event_id@ != id@,
        decreases rows@.len() - i,
    {
        if str_eq(rows[i].event_id.as_str(), id) {
            return Some(i);
        }
        i += 1;
    }
    None
}

fn follow(row: &mut BindingRow, e: &AhpPublishedEvent, now: i64)
    requires
        event_fault(*old(row), *e) is None,
    ensures
        *final(row) == (BindingRow {
            active_turn_id: final(row).active_turn_id,
            queued_message_count: final(row).queued_message_count,
            last_activity_at: final(row).last_activity_at,
            updated_at: final(row).updated_at,
            ..*old(row)
        }),
        activity(*final(row)) == after_event(activity(*old(row)), *e, now),
{
    match e.kind {
        AhpEventKind::ChatSnapshot => {
            row.active_turn_id = e.data.get_text("active_turn_id");
            row.queued_message_count = queued_messages(&e.data) as i64;
            row.updated_at = now;
        },
        AhpEventKind::TurnStarted => {
            row.active_turn_id = e.turn_id.clone();
            row.last_activity_at = now;
            row.updated_at = now;
        },
        AhpEventKind::TurnCompleted
        | AhpEventKind::TurnCancelled
        | AhpEventKind::TurnFailed => {
            if e.turn_id.is_none() || opt_eq(&row.active_turn_id, &e.turn_id) {
                row.active_turn_id = None;
                row.last_activity_at = now;
                row.updated_at = now;
            }
        },
        _ => {},
    }
}

proof fn lemma_kept_have(
    a: Seq<EventRow>,
    b: Seq<EventRow>,
    events: Seq<AhpPublishedEvent>,
    n: nat,
    id: Seq<char>,
    generation: i64,
    now: i64,
)
    requires
        n <= events.len(),
        events_kept(a, b, events, n, id, generation, now),
    ensures
        forall|j: int| 0 <= j < n ==> has_event(b, (#[trigger] events[j]).event_id@),
        forall|x: Seq<char>| #[trigger] has_event(a, x) ==> has_event(b, x),
        forall|x: Seq<char>| #[trigger]
            has_event(b, x) ==> has_event(a, x) || exists|j: int|
                0 <= j < n && (#[trigger] events[j]).event_id@ == x,
        forall|x: Seq<char>| #[trigger] is_processed(b, x) == is_processed(a, x),
{
    let added = new_events(a, events, n);
    lemma_new_events(a, events, n);
    assert forall|x: Seq<char>| #[trigger] has_event(a, x) implies has_event(b, x) by {
        let i = choose|i: int| 0 <= i < a.len() && (#[trigger] a[i]).event_id@ == x;
        assert(b[i].event_id@ == x);
    }
    assert forall|j: int| 0 <= j < n implies has_event(b, (#[trigger] events[j]).event_id@) by {
        let x = events[j].event_id@;
        if !has_event(a, x) {
            let k = lemma_new_event(a, events, n, j);
            assert(keeps(b[a.len() + k], events[added[k]], id, generation, now));
            assert(b[a.len() + k].event_id@ == x);
        }
    }
    assert forall|x: Seq<char>| #[trigger] has_event(b, x) implies has_event(a, x) || exists|j: int|
        0 <= j < n && (#[trigger] events[j]).event_id@ == x by {
        let i = choose|i: int| 0 <= i < b.len() && (#[trigger] b[i]).event_id@ == x;
        if i < a.len() {
            assert(a[i].event_id@ == x);
        } else {
            let k = i - a.len();
            assert(keeps(b[a.len() + k], events[added[k]], id, generation, now));
            assert(events[added[k]].event_id@ == x);
        }
    }
    assert forall|x: Seq<char>| #[trigger] is_processed(b, x) == is_processed(a, x) by {
        if is_processed(b, x) {
            let i = choose|i: int|
                0 <= i < b.len() && (#[trigger] b[i]).event_id@ == x && b[i].processed_at is Some;
            if i < a.len() {
                assert(a[i].event_id@ == x);
            } else {
                let k = i - a.len();
                assert(keeps(b[a.len() + k], events[added[k]], id, generation, now));
            }
        }
        if is_processed(a, x) {
            let i = choose|i: int|
                0 <= i < a.len() && (#[trigger] a[i]).event_id@ == x && a[i].processed_at is Some;
            assert(b[i].event_id@ == x);
        }
    }
}

proof fn lemma_new_events(rows: Seq<EventRow>, events: Seq<AhpPublishedEvent>, n: nat)
    requires
        n <= events.len(),
    ensures
        forall|k: int|
            0 <= k < new_events(rows, events, n).len() ==> 0 <= #[trigger] new_events(
                rows,
                events,
                n,
            )[k] < n,
    decreases n,
{
    if n > 0 {
        let before = new_events(rows, events, (n - 1) as nat);
        lemma_new_events(rows, events, (n - 1) as nat);
        assert forall|k: int| 0 <= k < new_events(rows, events, n).len() implies 0
            <= #[trigger] new_events(rows, events, n)[k] < n by {
            if k < before.len() {
                assert(0 <= before[k] < n - 1);
            }
        }
    }
}

proof fn lemma_new_event(
    rows: Seq<EventRow>,
    events: Seq<AhpPublishedEvent>,
    n: nat,
    j: int,
) -> (k: int)
    requires
        n <= events.len(),
        0 <= j < n,
        !has_event(rows, events[j].event_id@),
    ensures
        0 <= k < new_events(rows, events, n).len(),
        events[new_events(rows, events, n)[k]].event_id@ == events[j].event_id@,
    decreases n,
{
    let before = new_events(rows, events, (n - 1) as nat);
    if j < n - 1 {
        lemma_new_event(rows, events, (n - 1) as nat, j)
    } else if exists|i: int|
        0 <= i < n - 1 && (#[trigger] events[i]).event_id@ == events[j].event_id@ {
        let i = choose|i: int|
            0 <= i < n - 1 && (#[trigger] events[i]).event_id@ == events[j].event_id@;
        lemma_new_event(rows, events, (n - 1) as nat, i)
    } else {
        before.len() as int
    }
}

/// What comes of word that an event was processed.
pub open spec fn processed_outcome(
    a: Database,
    b: Database,
    id: Seq<char>,
    now: i64,
    r: Result<(), Failure>,
) -> bool {
    match r {
        Err(f) => b == a && !has_event(a.events@, id)
            && f.message@ == "AHP event not found while marking it processed"@,
        Ok(()) => {
            &&& has_event(a.events@, id)
            &&& b == (Database { events: b.events, ..a })
            &&& changed(
                a.events@,
                b.events@,
                |p: EventRow, q: EventRow|
                    q == (if p.event_id@ == id {
                        EventRow { processed_at: Some(now), processing_error: None, ..p }
                    } else {
                        p
                    }),
            )
        },
    }
}

impl Database {
    /// Takes in a batch of events of a tracked session, and says which of them
    /// are to be processed. An event that is known already is kept as it was.
    pub fn ahp_publish_events(
        &mut self,
        adapter_id: &str,
        adapter_instance_id: &str,
        binding_id: &str,
        binding_generation: i64,
        events: &Vec<AhpPublishedEvent>,
        now: i64,
    ) -> (r: Result<Vec<String>, Failure>)
        requires
            old(self).wf(),
        ensures
            final(self).wf(),
            match publish_fault(
                *old(self),
                adapter_id@,
                adapter_instance_id@,
                binding_id@,
                binding_generation,
                events@,
            ) {
                Some(message) => *final(self) == *old(self) && (r matches Err(f) && f.message@
                    == message),
                None => {
                    &&& r matches Ok(ids) && views(ids@) == unprocessed(
                        old(self).events@,
                        events@,
                        events@.len(),
                    )
                    &&& published(
                        *old(self),
                        *final(self),
                        binding_id@,
                        binding_generation,
                        events@,
                        now,
                    )
                },
            },
    {
        if !self.adapter_is_registered(adapter_id, adapter_instance_id) {
            return Err(failure("AHP adapter identity is not registered"));
        }
        let at = match self.find_binding(binding_id) {
            None => {
                return Err(failure("AHP event batch targets an unknown binding"));
            },
            Some(i) => i,
        };
        if let Err(f) = self.binding_record(at) {
            return Err(f);
        }
        if self.bindings[at].generation != binding_generation || !(self.bindings[at].state
            == BindingState::Bound || self.bindings[at].state == BindingState::Detaching) {
            return Err(failure("AHP event batch targets a stale or inactive binding"));
        }
        let ghost a = *self;
        let ghost row = self.bindings@[at as int];
        let mut i: usize = 0;
        while i < events.len()
            invariant
                i <= events@.len(),
                *self == a,
                at < a.bindings@.len(),
                row == a.bindings@[at as int],
                events_fault(row, events@, i as nat) is None,
                forall|j: int| 0 <= j < i ==> event_fault(row, #[trigger] events@[j]) is None,
                a.wf(),
                *old(self) == a,
                publish_fault(
                    a,
                    adapter_id@,
                    adapter_instance_id@,
                    binding_id@,
                    binding_generation,
                    events@,
                ) == events_fault(row, events@, events@.len()),
            decreases events@.len() - i,
        {
            if let Some(f) = find_event_fault(&self.bindings[at], &events[i]) {
                proof {
                    lemma_fault_stays(row, events@, (i + 1) as nat);
                }
                return Err(failure(f));
            }
            i += 1;
        }
        let ids = self.take_events(at, events, binding_id, binding_generation, now);
        let ghost m = *self;
        self.follow_events(at, events, now);
        let ghost m2 = *self;
        self.hear_adapter(now);
        proof {
            assert(m2.bindings@ == self.bindings@);
            assert forall|j: int| 0 <= j < a.bindings@.len() implies (if a.bindings@[j].binding_id@
                == binding_id@ {
                followed(a.bindings@[j], #[trigger] self.bindings@[j], events@, now)
            } else {
                self.bindings@[j] == a.bindings@[j]
            }) by {
                if j != at {
                    assert(a.bindings@[j].binding_id@ != a.bindings@[at as int].binding_id@);
                }
            }
        }
        Ok(ids)
    }

    fn take_events(
        &mut self,
        at: usize,
        events: &Vec<AhpPublishedEvent>,
        binding_id: &str,
        binding_generation: i64,
        now: i64,
    ) -> (ids: Vec<String>)
        requires
            old(self).wf(),
            at < old(self).bindings@.len(),
            forall|j: int|
                0 <= j < events@.len() ==> event_fault(
                    old(self).bindings@[at as int],
                    #[trigger] events@[j],
                ) is None,
        ensures
            final(self).wf(),
            *final(self) == (Database { events: final(self).events, ..*old(self) }),
            events_kept(
                old(self).events@,
                final(self).events@,
                events@,
                events@.len(),
                binding_id@,
                binding_generation,
                now,
            ),
            views(ids@) == unprocessed(old(self).events@, events@, events@.len()),
    {
        let ghost a = *self;
        let mut ids: Vec<String> = Vec::new();
        let mut i: usize = 0;
        assert(views(ids@) =~= Seq::<Seq<char>>::empty());
        while i < events.len()
            invariant
                i <= events@.len(),
                a.wf(),
                self.wf(),
                *self == (Database { events: self.events, ..a }),
                at < a.bindings@.len(),
                forall|j: int|
                    0 <= j < events@.len() ==> event_fault(
                        a.bindings@[at as int],
                        #[trigger] events@[j],
                    ) is None,
                events_kept(
                    a.events@,
                    self.events@,
                    events@,
                    i as nat,
                    binding_id@,
                    binding_generation,
                    now,
                ),
                views(ids@) == unprocessed(a.events@, events@, i as nat),
            decreases events@.len() - i,
        {
            let e = &events[i];
            let ghost x = e.event_id@;
            let ghost before = self.events@;
            let ghost added = new_events(a.events@, events@, i as nat);
            let ghost old_ids = ids@;
            proof {
                lemma_kept_have(
                    a.events@,
                    before,
                    events@,
                    i as nat,
                    binding_id@,
                    binding_generation,
                    now,
                );
            }
            match find_event(&self.events, e.event_id.as_str()) {
                Some(k) => {
                    assert(has_event(before, x));
                    if self.events[k].processed_at.is_none() {
                        assert(!is_processed(before, x)) by {
                            if is_processed(before, x) {
                                let l = choose|l: int|
                                    0 <= l < before.len() && (#[trigger] before[l]).event_id@ == x
                                        && before[l].processed_at is Some;
                                assert(before[l].event_id@ == before[k as int].event_id@);
                            }
                        }
                        ids.push(e.event_id.clone());
                        assert(views(ids@) =~= views(old_ids).push(x));
                    } else {
                        assert(is_processed(before, x));
                    }
                },
                None => {
                    assert(event_fault(a.bindings@[at as int], events@[i as int]) is None);
                    let row = stored_event(e, binding_id, binding_generation, now);
                    self.events.push(row);
                    ids.push(e.event_id.clone());
                    proof {
                        assert(!is_processed(before, x));
                        assert(views(ids@) =~= views(old_ids).push(x));
                        assert(!exists|j: int|
                            0 <= j < i && (#[trigger] events@[j]).event_id@ == x);
                        assert(new_events(a.events@, events@, (i + 1) as nat) == added.push(
                            i as int,
                        ));
                        assert forall|k: int| 0 <= k < added.push(i as int).len() implies keeps(
                            self.events@[a.events@.len() + k],
                            events@[#[trigger] added.push(i as int)[k]],
                            binding_id@,
                            binding_generation,
                            now,
                        ) by {
                            if k < added.len() {
                                assert(keeps(
                                    before[a.events@.len() + k],
                                    events@[added[k]],
                                    binding_id@,
                                    binding_generation,
                                    now,
                                ));
                            }
                        }
                        assert forall|p: int, q: int| 0 <= p < q < self.events@.len() implies (
                        #[trigger] self.events@[p]).event_id@ != (
                        #[trigger] self.events@[q]).event_id@ by {
                            if q == before.len() {
                                assert(before[p].event_id@ != x);
                            } else {
                                assert(before[p].event_id@ != before[q].event_id@);
                            }
                        }
                    }
                },
            }
            i += 1;
        }
        ids
    }

    fn follow_events(&mut self, at: usize, events: &Vec<AhpPublishedEvent>, now: i64)
        requires
            old(self).wf(),
            at < old(self).bindings@.len(),
            forall|j: int|
                0 <= j < events@.len() ==> event_fault(
                    old(self).bindings@[at as int],
                    #[trigger] events@[j],
                ) is None,
        ensures
            final(self).wf(),
            *final(self) == (Database { bindings: final(self).bindings, ..*old(self) }),
            final(self).bindings@ == old(self).bindings@.update(
                at as int,
                final(self).bindings@[at as int],
            ),
            followed(old(self).bindings@[at as int], final(self).bindings@[at as int], events@, now),
    {
        let ghost a = *self;
        let ghost row = a.bindings@[at as int];
        let mut last: Option<u64> = None;
        let mut i: usize = 0;
        while i < events.len()
            invariant
                i <= events@.len(),
                a.wf(),
                *self == (Database { bindings: self.bindings, ..a }),
                at < a.bindings@.len(),
                row == a.bindings@[at as int],
                self.bindings@ == a.bindings@.update(at as int, self.bindings@[at as int]),
                forall|j: int|
                    0 <= j < events@.len() ==> event_fault(row, #[trigger] events@[j]) is None,
                has_followed(row, self.bindings@[at as int], events@, i as nat, now),
                last == last_sequence(events@, i as nat),
                last matches Some(n) ==> n <= i64::MAX,
            decreases events@.len() - i,
        {
            assert(event_fault(row, events@[i as int]) is None);
            let ghost before = self.bindings@[at as int];
            assert(event_fault(before, events@[i as int]) is None);
            follow(&mut self.bindings[at], &events[i], now);
            last = match (last, events[i].server_sequence) {
                (Some(x), Some(y)) => Some(
                    if y > x {
                        y
                    } else {
                        x
                    },
                ),
                (None, y) => y,
                (x, None) => x,
            };
            i += 1;
        }
        if let Some(n) = last {
            if n as i64 > self.bindings[at].last_server_sequence {
                self.bindings[at].last_server_sequence = n as i64;
            }
            self.bindings[at].updated_at = now;
        }
        proof {
            self.lemma_same_bindings(a);
        }
    }

    /// Takes note that an event was processed.
    pub fn ahp_mark_event_processed(&mut self, event_id: &str, now: i64) -> (r: Result<(), Failure>)
        requires
            old(self).wf(),
        ensures
            final(self).wf(),
            processed_outcome(
                *old(self),
                *final(self),
                event_id@,
                now,
                r,
            ),
    {
        match find_event(&self.events, event_id) {
            None => Err(failure("AHP event not found while marking it processed")),
            Some(i) => {
                let ghost a = *self;
                assert(has_event(a.events@, event_id@));
                self.events[i].processed_at = Some(now);
                self.events[i].processing_error = None;
                proof {
                    assert forall|j: int| 0 <= j < a.events@.len() && j != i implies (
                    #[trigger] a.events@[j]).event_id@ != event_id@ by {
                        assert(a.events@[i as int].event_id@ == event_id@);
                    }
                }
                Ok(())
            },
        }
    }
}

proof fn lemma_fault_stays(row: BindingRow, events: Seq<AhpPublishedEvent>, n: nat)
    requires
        n <= events.len(),
        events_fault(row, events, n) is Some,
    ensures
        events_fault(row, events, events.len()) == events_fault(row, events, n),
    decreases events.len() - n,
{
    if n < events.len() {
        lemma_fault_stays(row, events, n + 1);
    }
}

/// Events are kept once: a batch that comes again adds none.
pub proof fn events_are_kept_once(
    a: Database,
    b: Database,
    c: Database,
    id: Seq<char>,
    generation: i64,
    events: Seq<AhpPublishedEvent>,
    first_time: i64,
    again: i64,
)
    requires
        published(a, b, id, generation, events, first_time),
        published(b, c, id, generation, events, again),
    ensures
        c.events@ == b.events@,
{
    lemma_kept_have(a.events@, b.events@, events, events.len(), id, generation, first_time);
    lemma_none_new(b.events@, events, events.len());
    assert(c.events@ =~= b.events@);
}

proof fn lemma_none_new(rows: Seq<EventRow>, events: Seq<AhpPublishedEvent>, n: nat)
    requires
        n <= events.len(),
        forall|j: int| 0 <= j < events.len() ==> has_event(rows, (#[trigger] events[j]).event_id@),
    ensures
        new_events(rows, events, n).len() == 0,
    decreases n,
{
    if n > 0 {
        lemma_none_new(rows, events, (n - 1) as nat);
        assert(has_event(rows, events[n - 1].event_id@));
    }
}

// ---------------------------------------------------------------------------
// Messages that tell the owner of an event

/// A message that tells the owner of an event.
#[derive(Debug)]
pub struct AhpProjectionRecord {
    pub event_id: String,
    pub kind: String,
    pub content: String,
}

/// The key of the delivery by which the owner is told of an event directly.
pub open spec fn direct_key(event: Seq<char>) -> Seq<char> {
    "ahp-event-projection:"@ + event
}

/// The key of the delivery by which the owner is told of an event directly.
pub fn direct_delivery_key(event_id: &str) -> (r: String)
    ensures
        r@ == direct_key(event_id@),
{
    cat("ahp-event-projection:", event_id)
}

/// Whether a delivery with that key went wrong, or may have.
pub open spec fn has_failed(deliveries: Seq<DeliveryRow>, key: Seq<char>) -> bool {
    exists|i: int|
        0 <= i < deliveries.len() && (#[trigger] deliveries[i]).idempotency_key@ == key && (
        deliveries[i].status == DeliveryStatus::Failed || deliveries[i].status
            == DeliveryStatus::InDoubt)
}

/// Whether a part of the delivery with that number was sent.
pub open spec fn was_sent(sent: Seq<SentRow>, id: u128) -> bool {
    exists|i: int| 0 <= i < sent.len() && (#[trigger] sent[i]).delivery_id == id
}

/// Whether a part of a delivery with that key was sent.
pub open spec fn is_partly_sent(
    deliveries: Seq<DeliveryRow>,
    sent: Seq<SentRow>,
    key: Seq<char>,
) -> bool {
    exists|i: int|
        0 <= i < deliveries.len() && (#[trigger] deliveries[i]).idempotency_key@ == key && was_sent(
            sent,
            deliveries[i].delivery_id,
        )
}

/// Whether the owner is to be told of the event again: the message did not get
/// through, and no part of it did.
pub open spec fn is_replayable(db: Database, p: ProjectionRow) -> bool {
    let key = direct_key(p.event_id@);
    &&& !p.delivered
    &&& p.last_error is Some || has_failed(db.deliveries@, key)
    &&& !is_partly_sent(db.deliveries@, db.sent@, key)
}

/// The condition that the owner is to be told of the event again.
pub open spec fn replayable(db: Database) -> spec_fn(ProjectionRow) -> bool {
    |p: ProjectionRow| is_replayable(db, p)
}

/// What messages are ordered by: their age.
pub open spec fn by_age() -> spec_fn(ProjectionRow) -> (int, int, Seq<char>) {
    |p: ProjectionRow| (p.created_at as int, 0int, Seq::<char>::empty())
}

/// Whether the records show the oldest messages that the owner is to be told
/// again, no more than the limit.
pub open spec fn lists_projections(
    db: Database,
    picks: Seq<usize>,
    limit: u32,
    list: Seq<AhpProjectionRecord>,
) -> bool {
    &&& is_selection(db.projections@, replayable(db), by_age(), false, picks)
    &&& list.len() == (if picks.len() <= limit {
        picks.len()
    } else {
        limit as nat
    })
    &&& forall|k: int|
        #![trigger list[k]]
        0 <= k < list.len() ==> {
            let p = db.projections@[picks[k] as int];
            list[k].event_id == p.event_id && list[k].kind == p.kind && list[k].content == p.content
        }
}

/// Whether a message about the event is kept.
pub open spec fn has_projection(rows: Seq<ProjectionRow>, id: Seq<char>) -> bool {
    exists|i: int| 0 <= i < rows.len() && (#[trigger] rows[i]).event_id@ == id
}

/// Whether the row is a new message about the event.
pub open spec fn is_new_projection(
    p: ProjectionRow,
    event: Seq<char>,
    kind: Seq<char>,
    content: Seq<char>,
    now: i64,
) -> bool {
    &&& p.event_id@ == event
    &&& p.kind@ == kind
    &&& p.content@ == content
    &&& !p.delivered
    &&& p.attempts == 0
    &&& p.last_error is None
    &&& p.replay_key is None
    &&& p.created_at == now
    &&& p.updated_at == now
}

/// What is said where a row refers to one that is not there.
pub open spec fn broken_reference() -> Seq<char> {
    "FOREIGN KEY constraint failed"@
}

/// A message of the list has got through.
pub open spec fn deliver(p: ProjectionRow, ids: Seq<String>, now: i64) -> ProjectionRow {
    if is_listed(ids, p.event_id@) {
        ProjectionRow {
            delivered: true,
            last_error: None,
            updated_at: now,
            ..p
        }
    } else {
        p
    }
}

/// Whether each row of `b` is the row of `a` in its place after that change.
pub open spec fn all_deliver(a: Seq<ProjectionRow>, b: Seq<ProjectionRow>, ids: Seq<String>, now: i64) -> bool {
    a.len() == b.len() && forall|i: int|
        0 <= i < a.len() ==> #[trigger] b[i] == deliver(a[i], ids, now)
}

pub(crate) fn apply_deliver(rows: &mut Vec<ProjectionRow>, ids: &Vec<String>, now: i64)
    ensures
        all_deliver(old(rows)@, final(rows)@, ids@, now),
{
    let ghost a = rows@;
    let mut i: usize = 0;
    while i < rows.len()
        invariant
            i <= rows@.len(),
            rows@.len() == a.len(),
            forall|j: int| 0 <= j < i ==> #[trigger] rows@[j] == deliver(a[j], ids@, now),
            forall|j: int| i <= j < rows@.len() ==> #[trigger] rows@[j] == a[j],
        decreases rows@.len() - i,
    {
        if lists_text(ids, rows[i].event_id.as_str()) {
            rows[i].delivered = true;
            rows[i].last_error = None;
            rows[i].updated_at = now;
        }
        i += 1;
    }
}

/// Whether `b` is `a` with note taken that the owner could not be told of the event.
pub open spec fn projection_failed(
    a: Database,
    b: Database,
    id: Seq<char>,
    error: Seq<char>,
    now: i64,
) -> bool {
    &&& b == (Database { projections: b.projections, ..a })
    &&& changed(
        a.projections@,
        b.projections@,
        |p: ProjectionRow, q: ProjectionRow|
            if p.event_id@ == id && !p.delivered {
                q == (ProjectionRow {
                    attempts: (p.attempts + 1) as u64,
                    last_error: q.last_error,
                    updated_at: now,
                    ..p
                }) && opt_view(q.last_error) == Some(error)
            } else {
                q == p
            },
    )
}

/// What comes of the wish that the owner is told of an event.
pub open spec fn projection_outcome(
    a: Database,
    b: Database,
    id: Seq<char>,
    kind: Seq<char>,
    content: Seq<char>,
    now: i64,
    r: Result<(), Failure>,
) -> bool {
    if has_projection(a.projections@, id) {
        b == a && (r matches Ok(()))
    } else if !has_event(a.events@, id) {
        b == a && (r matches Err(f) && f.message@ == broken_reference())
    } else {
        &&& r matches Ok(())
        &&& b == (Database {
            projections: b.projections,
            ..a
        })
        &&& b.projections@ == a.projections@.push(
            b.projections@.last(),
        )
        &&& is_new_projection(
            b.projections@.last(),
            id,
            kind,
            content,
            now,
        )
    }
}

impl Database {
    /// Whether one more attempt to tell the owner of an event can be counted.
    pub open spec fn attempts_left(self) -> bool {
        forall|i: int|
            0 <= i < self.projections@.len() ==> (#[trigger] self.projections@[i]).attempts
                < u64::MAX
    }

    /// Keeps a message about an event, unless one is kept already.
    pub fn ahp_queue_projection(
        &mut self,
        event_id: &str,
        kind: &str,
        content: &str,
        now: i64,
    ) -> (r: Result<(), Failure>)
        requires
            old(self).wf(),
        ensures
            final(self).wf(),
            projection_outcome(
                *old(self),
                *final(self),
                event_id@,
                kind@,
                content@,
                now,
                r,
            ),
    {
        let mut i: usize = 0;
        while i < self.projections.len()
            invariant
                i <= self.projections@.len(),
                *self == *old(self),
                self.wf(),
                forall|j: int|
                    0 <= j < i ==> (#[trigger] self.projections@[j]).event_id@ != event_id@,
            decreases self.projections@.len() - i,
        {
            if str_eq(self.projections[i].event_id.as_str(), event_id) {
                return Ok(());
            }
            i += 1;
        }
        if find_event(&self.events, event_id).is_none() {
            return Err(failure("FOREIGN KEY constraint failed"));
        }
        assert(has_event(self.events@, event_id@));
        self.projections.push(
            ProjectionRow {
                event_id: event_id.to_owned(),
                kind: kind.to_owned(),
                content: content.to_owned(),
                delivered: false,
                attempts: 0,
                last_error: None,
                replay_key: None,
                created_at: now,
                updated_at: now,
            },
        );
        assert(self.projections@.last().event_id@ == event_id@);
        Ok(())
    }

    /// Takes note that a message about an event did not get through.
    pub fn ahp_projection_failed(&mut self, event_id: &str, error_code: &str, now: i64)
        requires
            old(self).wf(),
            old(self).attempts_left(),
        ensures
            final(self).wf(),
            projection_failed(
                *old(self),
                *final(self),
                event_id@,
                error_code@,
                now,
            ),
    {
        let ghost a = *self;
        let mut i: usize = 0;
        while i < self.projections.len()
            invariant
                i <= self.projections@.len(),
                a.attempts_left(),
                *self == (Database { projections: self.projections, ..a }),
                self.projections@.len() == a.projections@.len(),
                forall|j: int|
                    #![trigger self.projections@[j]]
                    0 <= j < i ==> {
                        let p = a.projections@[j];
                        let q = self.projections@[j];
                        if p.event_id@ == event_id@ && !p.delivered {
                            q == (ProjectionRow {
                                attempts: (p.attempts + 1) as u64,
                                last_error: q.last_error,
                                updated_at: now,
                                ..p
                            }) && opt_view(q.last_error) == Some(error_code@)
                        } else {
                            q == p
                        }
                    },
                forall|j: int|
                    i <= j < a.projections@.len() ==> #[trigger] self.projections@[j]
                        == a.projections@[j],
            decreases self.projections@.len() - i,
        {
            if str_eq(self.projections[i].event_id.as_str(), event_id)
                && !self.projections[i].delivered {
                assert(a.projections@[i as int].attempts < u64::MAX);
                self.projections[i].attempts += 1;
                self.projections[i].last_error = Some(error_code.to_owned());
                self.projections[i].updated_at = now;
            }
            i += 1;
        }
    }

    /// Takes note that messages about events have got through.
    pub fn ahp_mark_projections_delivered(&mut self, event_ids: &Vec<String>, now: i64)
        requires
            old(self).wf(),
        ensures
            final(self).wf(),
            *final(self) == (Database { projections: final(self).projections, ..*old(self) }),
            all_deliver(old(self).projections@, final(self).projections@, event_ids@, now),
    {
        apply_deliver(&mut self.projections, event_ids, now);
    }

    fn has_failed_delivery(&self, key: &str) -> (r: bool)
        ensures
            r == has_failed(self.deliveries@, key@),
    {
        let mut i: usize = 0;
        while i < self.deliveries.len()
            invariant
                i <= self.deliveries@.len(),
                forall|j: int|
                    0 <= j < i ==> !((#[trigger] self.deliveries@[j]).idempotency_key@ == key@ && (
                    self.deliveries@[j].status == DeliveryStatus::Failed
                        || self.deliveries@[j].status == DeliveryStatus::InDoubt)),
            decreases self.deliveries@.len() - i,
        {
            if str_eq(self.deliveries[i].idempotency_key.as_str(), key) && (
            self.deliveries[i].status == DeliveryStatus::Failed || self.deliveries[i].status
                == DeliveryStatus::InDoubt) {
                return true;
            }
            i += 1;
        }
        false
    }

    pub(crate) fn any_sent(&self, id: u128) -> (r: bool)
        ensures
            r == was_sent(self.sent@, id),
    {
        let mut i: usize = 0;
        while i < self.sent.len()
            invariant
                i <= self.sent@.len(),
                forall|j: int| 0 <= j < i ==> (#[trigger] self.sent@[j]).delivery_id != id,
            decreases self.sent@.len() - i,
        {
            if self.sent[i].delivery_id == id {
                return true;
            }
            i += 1;
        }
        false
    }

    fn has_sent_part(&self, key: &str) -> (r: bool)
        ensures
            r == is_partly_sent(self.deliveries@, self.sent@, key@),
    {
        let mut i: usize = 0;
        while i < self.deliveries.len()
            invariant
                i <= self.deliveries@.len(),
                forall|j: int|
                    0 <= j < i ==> !((#[trigger] self.deliveries@[j]).idempotency_key@ == key@
                        && was_sent(self.sent@, self.deliveries@[j].delivery_id)),
            decreases self.deliveries@.len() - i,
        {
            if str_eq(self.deliveries[i].idempotency_key.as_str(), key) && self.any_sent(
                self.deliveries[i].delivery_id,
            ) {
                return true;
            }
            i += 1;
        }
        false
    }

    fn is_to_be_replayed(&self, p: &ProjectionRow) -> (r: bool)
        ensures
            r == is_replayable(*self, *p),
    {
        if p.delivered {
            return false;
        }
        let key = direct_delivery_key(p.event_id.as_str());
        (p.last_error.is_some() || self.has_failed_delivery(key.as_str())) && !self.has_sent_part(
            key.as_str(),
        )
    }

    /// How many messages the owner is to be told again.
    pub(crate) fn count_replayable(&self) -> (n: usize)
        ensures
            n == count(self.projections@, replayable(*self)),
    {
        let test = |p: &ProjectionRow| -> (b: bool)
            ensures
                b == (replayable(*self))(*p),
        { self.is_to_be_replayed(p) };
        count_rows(&self.projections, test, Ghost(replayable(*self)))
    }

    /// The oldest messages that the owner is to be told again.
    pub fn ahp_pending_projections(&self, limit: u32) -> (r: Vec<AhpProjectionRecord>)
        ensures
            exists|picks: Seq<usize>| #[trigger] lists_projections(*self, picks, limit, r@),
    {
        let test = |p: &ProjectionRow| -> (b: bool)
            ensures
                b == (replayable(*self))(*p),
        { self.is_to_be_replayed(p) };
        let key = |p: &ProjectionRow| -> (s: SortKey)
            ensures
                s@ == (by_age())(*p),
        { SortKey { first: p.created_at as i128, second: 0, text: String::new() } };
        let picks = select(
            &self.projections,
            test,
            key,
            false,
            Ghost(replayable(*self)),
            Ghost(by_age()),
        );
        let mut r: Vec<AhpProjectionRecord> = Vec::new();
        let mut k: usize = 0;
        while k < picks.len() && r.len() < limit as usize
            invariant
                k <= picks@.len(),
                k <= limit,
                is_selection(self.projections@, replayable(*self), by_age(), false, picks@),
                r@.len() == k,
                forall|l: int|
                    #![trigger r@[l]]
                    0 <= l < k ==> {
                        let p = self.projections@[picks@[l] as int];
                        r@[l].event_id == p.event_id && r@[l].kind == p.kind && r@[l].content
                            == p.content
                    },
            decreases picks@.len() - k,
        {
            let p = &self.projections[picks[k]];
            r.push(
                AhpProjectionRecord {
                    event_id: p.event_id.clone(),
                    kind: p.kind.clone(),
                    content: p.content.clone(),
                },
            );
            k += 1;
        }
        assert(lists_projections(*self, picks@, limit, r@));
        r
    }
}

/// The owner is not told again of an event once a part of the message about it was
/// sent.
pub proof fn partly_sent_messages_are_not_repeated(
    db: Database,
    picks: Seq<usize>,
    limit: u32,
    list: Seq<AhpProjectionRecord>,
    k: int,
)
    requires
        lists_projections(db, picks, limit, list),
        0 <= k < list.len(),
    ensures
        !is_partly_sent(db.deliveries@, db.sent@, direct_key(list[k].event_id@)),
{
    let p = db.projections@[picks[k] as int];
    assert(replayable(db)(p));
    assert(list[k].event_id == p.event_id);
}

// ---------------------------------------------------------------------------
// What a batch of events brings about

/// Whether the event says that a turn is over.
pub open spec fn ends_turn(e: AhpPublishedEvent) -> bool {
    e.kind == AhpEventKind::TurnCompleted || e.kind == AhpEventKind::TurnCancelled || e.kind
        == AhpEventKind::TurnFailed
}

/// Whether the event says which turn is running.
pub open spec fn sets_turn(e: AhpPublishedEvent) -> bool {
    e.kind == AhpEventKind::TurnStarted || e.kind == AhpEventKind::ChatSnapshot
}

proof fn lemma_turn_over(
    s: Activity,
    events: Seq<AhpPublishedEvent>,
    n: nat,
    now: i64,
    k: int,
)
    requires
        0 <= k < n <= events.len(),
        ends_turn(events[k]),
        forall|j: int| k < j < n ==> !sets_turn(#[trigger] events[j]),
    ensures
        ({
            let turn = after_events(s, events, n, now).turn;
            &&& events[k].turn_id is None ==> turn is None
            &&& turn is None || turn != opt_view(events[k].turn_id)
        }),
    decreases n,
{
    if k < n - 1 {
        lemma_turn_over(s, events, (n - 1) as nat, now, k);
        assert(!sets_turn(events[n - 1]));
    }
}

/// A turn that an event of the batch says is over is not running after it, unless a
/// later event of the batch says so.
pub proof fn turns_come_to_an_end(
    a: Database,
    b: Database,
    id: Seq<char>,
    generation: i64,
    events: Seq<AhpPublishedEvent>,
    now: i64,
    i: int,
    k: int,
)
    requires
        published(a, b, id, generation, events, now),
        0 <= i < a.bindings@.len(),
        a.bindings@[i].binding_id@ == id,
        0 <= k < events.len(),
        events[k].kind == AhpEventKind::TurnCompleted || events[k].kind
            == AhpEventKind::TurnCancelled || events[k].kind == AhpEventKind::TurnFailed,
        forall|j: int|
            k < j < events.len() ==> (#[trigger] events[j]).kind != AhpEventKind::TurnStarted
                && events[j].kind != AhpEventKind::ChatSnapshot,
    ensures
        b.bindings@[i].active_turn_id is None || opt_view(b.bindings@[i].active_turn_id)
            != opt_view(events[k].turn_id),
        events[k].turn_id is None ==> b.bindings@[i].active_turn_id is None,
{
    lemma_turn_over(activity(a.bindings@[i]), events, events.len(), now, k);
    assert(followed(a.bindings@[i], b.bindings@[i], events, now));
    assert(activity(b.bindings@[i]).turn == opt_view(b.bindings@[i].active_turn_id));
}

proof fn lemma_turn_stays(
    s: Activity,
    events: Seq<AhpPublishedEvent>,
    from: nat,
    n: nat,
    now: i64,
)
    requires
        from <= n <= events.len(),
        forall|j: int|
            from <= j < n ==> !sets_turn(#[trigger] events[j]) && (ends_turn(events[j])
                ==> events[j].turn_id is Some && opt_view(events[j].turn_id) != after_events(
                s,
                events,
                from,
                now,
            ).turn),
    ensures
        after_events(s, events, n, now).turn == after_events(s, events, from, now).turn,
    decreases n,
{
    if from < n {
        lemma_turn_stays(s, events, from, (n - 1) as nat, now);
        assert(!sets_turn(events[n - 1]));
    }
}

/// A batch that neither says which turn is running nor that the one that is running
/// is over leaves it as it is, whatever it says of other turns.
pub proof fn other_turns_do_not_matter(
    a: Database,
    b: Database,
    id: Seq<char>,
    generation: i64,
    events: Seq<AhpPublishedEvent>,
    now: i64,
    i: int,
)
    requires
        published(a, b, id, generation, events, now),
        0 <= i < a.bindings@.len(),
        a.bindings@[i].binding_id@ == id,
        forall|j: int|
            0 <= j < events.len() ==> (#[trigger] events[j]).kind != AhpEventKind::TurnStarted
                && events[j].kind != AhpEventKind::ChatSnapshot && (events[j].kind
                == AhpEventKind::TurnCompleted || events[j].kind == AhpEventKind::TurnCancelled
                || events[j].kind == AhpEventKind::TurnFailed ==> events[j].turn_id is Some
                && opt_view(events[j].turn_id) != opt_view(a.bindings@[i].active_turn_id)),
    ensures
        opt_view(b.bindings@[i].active_turn_id) == opt_view(a.bindings@[i].active_turn_id),
        b.bindings@[i].queued_message_count == a.bindings@[i].queued_message_count,
        b.bindings@[i].last_activity_at == a.bindings@[i].last_activity_at,
{
    let s = activity(a.bindings@[i]);
    lemma_turn_stays(s, events, 0, events.len(), now);
    lemma_idle_batch(s, events, events.len(), now);
    assert(followed(a.bindings@[i], b.bindings@[i], events, now));
    assert(activity(b.bindings@[i]).turn == opt_view(b.bindings@[i].active_turn_id));
    assert(activity(b.bindings@[i]).queued == b.bindings@[i].queued_message_count);
    assert(activity(b.bindings@[i]).active_at == b.bindings@[i].last_activity_at);
}

proof fn lemma_idle_batch(s: Activity, events: Seq<AhpPublishedEvent>, n: nat, now: i64)
    requires
        n <= events.len(),
        forall|j: int|
            0 <= j < events.len() ==> !sets_turn(#[trigger] events[j]) && (ends_turn(events[j])
                ==> events[j].turn_id is Some && opt_view(events[j].turn_id) != s.turn),
    ensures
        after_events(s, events, n, now) == s,
    decreases n,
{
    if n > 0 {
        lemma_idle_batch(s, events, (n - 1) as nat, now);
        assert(!sets_turn(events[n - 1]));
    }
}

/// A turn that an event of the batch says has started is running after it, and the
/// session was active just now, unless a later event of the batch says otherwise.
pub proof fn turns_start(
    a: Database,
    b: Database,
    id: Seq<char>,
    generation: i64,
    events: Seq<AhpPublishedEvent>,
    now: i64,
    i: int,
    k: int,
)
    requires
        published(a, b, id, generation, events, now),
        0 <= i < a.bindings@.len(),
        a.bindings@[i].binding_id@ == id,
        0 <= k < events.len(),
        events[k].kind == AhpEventKind::TurnStarted,
        forall|j: int|
            k < j < events.len() ==> (#[trigger] events[j]).kind != AhpEventKind::TurnStarted
                && events[j].kind != AhpEventKind::ChatSnapshot && (events[j].kind
                == AhpEventKind::TurnCompleted || events[j].kind == AhpEventKind::TurnCancelled
                || events[j].kind == AhpEventKind::TurnFailed ==> events[j].turn_id is Some
                && opt_view(events[j].turn_id) != opt_view(events[k].turn_id)),
    ensures
        opt_view(b.bindings@[i].active_turn_id) == opt_view(events[k].turn_id),
        b.bindings@[i].last_activity_at == now,
{
    let s = activity(a.bindings@[i]);
    lemma_turn_stays(s, events, (k + 1) as nat, events.len(), now);
    lemma_active(s, events, events.len(), now, k);
    assert(followed(a.bindings@[i], b.bindings@[i], events, now));
    assert(activity(b.bindings@[i]).turn == opt_view(b.bindings@[i].active_turn_id));
    assert(activity(b.bindings@[i]).active_at == b.bindings@[i].last_activity_at);
}

proof fn lemma_active(s: Activity, events: Seq<AhpPublishedEvent>, n: nat, now: i64, k: int)
    requires
        0 <= k < n <= events.len(),
        events[k].kind == AhpEventKind::TurnStarted,
    ensures
        after_events(s, events, n, now).active_at == now,
    decreases n,
{
    if k < n - 1 {
        lemma_active(s, events, (n - 1) as nat, now, k);
    }
}

/// After a batch that ends with a snapshot of the chat, the session is doing what the
/// snapshot says: the turn that it names is running, and as many messages are queued
/// as it counts.
pub proof fn snapshots_say_what_is_running(
    a: Database,
    b: Database,
    id: Seq<char>,
    generation: i64,
    events: Seq<AhpPublishedEvent>,
    now: i64,
    i: int,
)
    requires
        published(a, b, id, generation, events, now),
        0 <= i < a.bindings@.len(),
        a.bindings@[i].binding_id@ == id,
        events.len() > 0,
        events.last().kind == AhpEventKind::ChatSnapshot,
    ensures
        opt_view(b.bindings@[i].active_turn_id) == text_tree(
            get_tree(events.last().data@, "active_turn_id"@),
        ),
        match number_tree(get_tree(events.last().data@, "queued_message_count"@)) {
            Some(n) => b.bindings@[i].queued_message_count == n,
            None => b.bindings@[i].queued_message_count == 0,
        },
{
    assert(followed(a.bindings@[i], b.bindings@[i], events, now));
    assert(activity(b.bindings@[i]).turn == opt_view(b.bindings@[i].active_turn_id));
    assert(activity(b.bindings@[i]).queued == b.bindings@[i].queued_message_count);
}

proof fn lemma_last_sequence(events: Seq<AhpPublishedEvent>, n: nat)
    requires
        n <= events.len(),
    ensures
        ({
            let last = last_sequence(events, n);
            &&& forall|k: int|
                0 <= k < n && (#[trigger] events[k]).server_sequence is Some ==> last is Some
                    && events[k].server_sequence->0 <= last->0
            &&& last is Some ==> exists|k: int|
                0 <= k < n && (#[trigger] events[k]).server_sequence == last
        }),
    decreases n,
{
    if n > 0 {
        lemma_last_sequence(events, (n - 1) as nat);
        let before = last_sequence(events, (n - 1) as nat);
        let last = last_sequence(events, n);
        if last is Some && last != events[n - 1].server_sequence {
            assert(last == before);
            let k = choose|k: int|
                0 <= k < n - 1 && (#[trigger] events[k]).server_sequence == before;
            assert(events[k].server_sequence == last);
        } else if last is Some {
            assert(events[n - 1].server_sequence == last);
        }
    }
}

/// The number up to which a session is known never falls, and is at least that of
/// every event of the batch; it is one of these, or the one that was known.
pub proof fn sequences_never_fall(
    a: Database,
    b: Database,
    id: Seq<char>,
    generation: i64,
    events: Seq<AhpPublishedEvent>,
    now: i64,
    i: int,
)
    requires
        published(a, b, id, generation, events, now),
        0 <= i < a.bindings@.len(),
        a.bindings@[i].binding_id@ == id,
    ensures
        b.bindings@[i].last_server_sequence >= a.bindings@[i].last_server_sequence,
        forall|k: int|
            0 <= k < events.len() && (#[trigger] events[k]).server_sequence is Some
                ==> events[k].server_sequence->0 <= b.bindings@[i].last_server_sequence,
        b.bindings@[i].last_server_sequence != a.bindings@[i].last_server_sequence
            ==> exists|k: int|
            0 <= k < events.len() && (#[trigger] events[k]).server_sequence is Some
                && events[k].server_sequence->0 == b.bindings@[i].last_server_sequence,
{
    lemma_last_sequence(events, events.len());
    assert(followed(a.bindings@[i], b.bindings@[i], events, now));
    if b.bindings@[i].last_server_sequence != a.bindings@[i].last_server_sequence {
        let last = last_sequence(events, events.len());
        let k = choose|k: int|
            0 <= k < events.len() && (#[trigger] events[k]).server_sequence == last;
        assert(events[k].server_sequence->0 == b.bindings@[i].last_server_sequence);
    }
}

proof fn lemma_new_in_range(rows: Seq<EventRow>, events: Seq<AhpPublishedEvent>, n: nat)
    requires
        n <= events.len(),
    ensures
        forall|l: int|
            0 <= l < new_events(rows, events, n).len() ==> 0 <= #[trigger] new_events(
                rows,
                events,
                n,
            )[l] < n && !has_event(rows, events[new_events(rows, events, n)[l]].event_id@),
    decreases n,
{
    if n > 0 {
        lemma_new_in_range(rows, events, (n - 1) as nat);
    }
}

/// Every event of the batch is kept. Those that were kept stay as they are, and what
/// is added is one of the batch that was not kept, as it was published, with its
/// credentials replaced, and not processed yet.
pub proof fn published_events_are_kept(
    a: Database,
    b: Database,
    id: Seq<char>,
    generation: i64,
    events: Seq<AhpPublishedEvent>,
    now: i64,
)
    requires
        published(a, b, id, generation, events, now),
    ensures
        b.events@.len() >= a.events@.len(),
        forall|i: int| 0 <= i < a.events@.len() ==> #[trigger] b.events@[i] == a.events@[i],
        forall|k: int|
            0 <= k < events.len() ==> exists|i: int|
                0 <= i < b.events@.len() && (#[trigger] b.events@[i]).event_id@ == (
                #[trigger] events[k]).event_id@,
        forall|i: int|
            a.events@.len() <= i < b.events@.len() ==> exists|k: int|
                {
                    let e = #[trigger] events[k];
                    let row = #[trigger] b.events@[i];
                    &&& 0 <= k < events.len()
                    &&& row.event_id@ == e.event_id@
                    &&& row.binding_id@ == id
                    &&& row.binding_generation == generation
                    &&& row.session_uri@ == e.session_uri@
                    &&& opt_view(row.chat_uri) == opt_view(e.chat_uri)
                    &&& opt_view(row.turn_id) == opt_view(e.turn_id)
                    &&& row.kind == e.kind
                    &&& opt_view(row.origin_client_id) == opt_view(e.origin_client_id)
                    &&& row.data_redacted@ == compact(canonical(redacted(e.data@)))
                    &&& row.processed_at is None
                    &&& forall|j: int|
                        0 <= j < a.events@.len() ==> (#[trigger] a.events@[j]).event_id@
                            != e.event_id@
                },
{
    let n = events.len();
    let added = new_events(a.events@, events, n);
    lemma_new_in_range(a.events@, events, n);
    assert forall|k: int| 0 <= k < n implies exists|i: int|
        0 <= i < b.events@.len() && (#[trigger] b.events@[i]).event_id@ == (
        #[trigger] events[k]).event_id@ by {
        if has_event(a.events@, events[k].event_id@) {
            let i = choose|i: int|
                0 <= i < a.events@.len() && (#[trigger] a.events@[i]).event_id@
                    == events[k].event_id@;
            assert(b.events@[i].event_id@ == events[k].event_id@);
        } else {
            let l = lemma_new_event(a.events@, events, n, k);
            assert(keeps(b.events@[a.events@.len() + l], events[added[l]], id, generation, now));
            assert(b.events@[a.events@.len() + l].event_id@ == events[k].event_id@);
        }
    }
    assert forall|i: int| a.events@.len() <= i < b.events@.len() implies exists|k: int|
        {
            let e = #[trigger] events[k];
            let row = #[trigger] b.events@[i];
            &&& 0 <= k < events.len()
            &&& row.event_id@ == e.event_id@
            &&& row.binding_id@ == id
            &&& row.binding_generation == generation
            &&& row.session_uri@ == e.session_uri@
            &&& opt_view(row.chat_uri) == opt_view(e.chat_uri)
            &&& opt_view(row.turn_id) == opt_view(e.turn_id)
            &&& row.kind == e.kind
            &&& opt_view(row.origin_client_id) == opt_view(e.origin_client_id)
            &&& row.data_redacted@ == compact(canonical(redacted(e.data@)))
            &&& row.processed_at is None
            &&& forall|j: int|
                0 <= j < a.events@.len() ==> (#[trigger] a.events@[j]).event_id@ != e.event_id@
        } by {
        let l = i - a.events@.len();
        let k = added[l];
        assert(keeps(b.events@[a.events@.len() + l], events[k], id, generation, now));
        assert(!has_event(a.events@, events[k].event_id@));
        assert(b.events@[i].event_id@ == events[k].event_id@);
    }
}

proof fn lemma_unprocessed(rows: Seq<EventRow>, events: Seq<AhpPublishedEvent>, n: nat)
    requires
        n <= events.len(),
    ensures
        forall|k: int|
            0 <= k < n && !is_processed(rows, (#[trigger] events[k]).event_id@) ==> unprocessed(
                rows,
                events,
                n,
            ).contains(events[k].event_id@),
        forall|l: int|
            0 <= l < unprocessed(rows, events, n).len() ==> !is_processed(
                rows,
                #[trigger] unprocessed(rows, events, n)[l],
            ),
    decreases n,
{
    if n > 0 {
        let before = unprocessed(rows, events, (n - 1) as nat);
        let all = unprocessed(rows, events, n);
        lemma_unprocessed(rows, events, (n - 1) as nat);
        assert forall|k: int|
            0 <= k < n && !is_processed(rows, (#[trigger] events[k]).event_id@) implies all.contains(
            events[k].event_id@,
        ) by {
            if k < n - 1 {
                assert(before.contains(events[k].event_id@));
                let l = choose|l: int| 0 <= l < before.len() && before[l] == events[k].event_id@;
                assert(all[l] == before[l]);
            } else {
                assert(all[all.len() - 1] == events[k].event_id@);
            }
        }
    }
}

/// The events that are to be processed are those of the batch that no row says were
/// processed.
pub proof fn unprocessed_events_are_handed_on(
    rows: Seq<EventRow>,
    events: Seq<AhpPublishedEvent>,
    k: int,
)
    requires
        0 <= k < events.len(),
    ensures
        unprocessed(rows, events, events.len()).contains(events[k].event_id@) <==> forall|i: int|
            0 <= i < rows.len() && (#[trigger] rows[i]).event_id@ == events[k].event_id@
                ==> rows[i].processed_at is None,
{
    lemma_unprocessed(rows, events, events.len());
    let all = unprocessed(rows, events, events.len());
    if all.contains(events[k].event_id@) {
        let l = choose|l: int| 0 <= l < all.len() && all[l] == events[k].event_id@;
        assert(!is_processed(rows, all[l]));
    }
    if is_processed(rows, events[k].event_id@) {
        let i = choose|i: int|
            0 <= i < rows.len() && (#[trigger] rows[i]).event_id@ == events[k].event_id@
                && rows[i].processed_at is Some;
        assert(rows[i].processed_at is Some);
    } else {
        assert forall|i: int|
            0 <= i < rows.len() && (#[trigger] rows[i]).event_id@ == events[k].event_id@ implies
            rows[i].processed_at is None by {}
    }
}

proof fn lemma_no_fault(row: BindingRow, events: Seq<AhpPublishedEvent>, n: nat)
    requires
        n <= events.len(),
    ensures
        events_fault(row, events, n) is None <==> forall|k: int|
            0 <= k < n ==> event_fault(row, #[trigger] events[k]) is None,
    decreases n,
{
    if n > 0 {
        lemma_no_fault(row, events, (n - 1) as nat);
        if events_fault(row, events, n) is None {
            assert forall|k: int| 0 <= k < n implies event_fault(row, #[trigger] events[k]) is None by {
                if k < n - 1 {
                }
            }
        } else if events_fault(row, events, (n - 1) as nat) is Some {
            let k = choose|k: int|
                0 <= k < n - 1 && event_fault(row, #[trigger] events[k]) is Some;
            assert(event_fault(row, events[k]) is Some);
        } else {
            assert(event_fault(row, events[n - 1]) is Some);
        }
    }
}

/// A batch is taken in exactly where the adapter that publishes it is the registered
/// one, the tracked session is bound, or about to be let go, in that generation, and
/// every event is one of that session, of its host and, where it names one, of its
/// chat.
pub proof fn only_events_of_the_session_are_taken_in(
    db: Database,
    adapter: Seq<char>,
    instance: Seq<char>,
    id: Seq<char>,
    generation: i64,
    events: Seq<AhpPublishedEvent>,
    i: int,
)
    requires
        db.wf(),
        0 <= i < db.bindings@.len(),
        db.bindings@[i].binding_id@ == id,
        db.bindings@[i].queued_message_count <= u32::MAX,
        forall|k: int|
            0 <= k < events.len() ==> ((#[trigger] events[k]).server_sequence matches Some(n)
                ==> n <= i64::MAX) && (number_tree(
                get_tree(events[k].data@, "queued_message_count"@),
            ) matches Some(n) ==> n <= i64::MAX),
    ensures
        publish_fault(db, adapter, instance, id, generation, events) is None <==> {
            let row = db.bindings@[i];
            &&& db.adapter is Some
            &&& db.adapter->0.adapter_id@ == adapter
            &&& db.adapter->0.adapter_instance_id@ == instance
            &&& row.generation == generation
            &&& row.state == BindingState::Bound || row.state == BindingState::Detaching
            &&& forall|k: int|
                0 <= k < events.len() ==> (#[trigger] events[k]).session_uri@ == row.session_uri@
                    && opt_view(row.host_instance_id) == Some(events[k].host_instance_id@) && (
                events[k].chat_uri is Some ==> opt_view(row.chat_uri) == opt_view(
                    events[k].chat_uri,
                ))
        },
{
    let row = db.bindings@[i];
    let p = crate::bindings::with_binding_id(id);
    assert forall|j: int| 0 <= j < i implies !p(#[trigger] db.bindings@[j]) by {
        assert(db.bindings@[j].binding_id@ != db.bindings@[i].binding_id@);
    }
    crate::tables::lemma_first(db.bindings@, p, i);
    lemma_no_fault(row, events, events.len());
    if publish_fault(db, adapter, instance, id, generation, events) is None {
        assert forall|k: int| 0 <= k < events.len() implies (#[trigger] events[k]).session_uri@
            == row.session_uri@ && opt_view(row.host_instance_id) == Some(
            events[k].host_instance_id@,
        ) && (events[k].chat_uri is Some ==> opt_view(row.chat_uri) == opt_view(
            events[k].chat_uri,
        )) by {
            assert(event_fault(row, events[k]) is None);
        }
    } else if exists|k: int|
        0 <= k < events.len() && event_fault(row, #[trigger] events[k]) is Some {
        let k = choose|k: int|
            0 <= k < events.len() && event_fault(row, #[trigger] events[k]) is Some;
        assert(events[k].session_uri@ != row.session_uri@ || opt_view(row.host_instance_id) != Some(
            events[k].host_instance_id@,
        ) || (events[k].chat_uri is Some && opt_view(row.chat_uri) != opt_view(
            events[k].chat_uri,
        )));
    }
}

/// The owner is to be told again of an event exactly where the message about it did
/// not get through: an error was noted, or its delivery failed or may have, and no
/// part of it was sent.
pub proof fn lost_messages_are_told_again(
    db: Database,
    picks: Seq<usize>,
    limit: u32,
    list: Seq<AhpProjectionRecord>,
    i: int,
)
    requires
        lists_projections(db, picks, limit, list),
        0 <= i < db.projections@.len(),
        !db.projections@[i].delivered,
        db.projections@[i].last_error is Some || exists|d: int|
            0 <= d < db.deliveries@.len() && (#[trigger] db.deliveries@[d]).idempotency_key@
                == "ahp-event-projection:"@ + db.projections@[i].event_id@ && (
            db.deliveries@[d].status == DeliveryStatus::Failed || db.deliveries@[d].status
                == DeliveryStatus::InDoubt),
        forall|d: int, s: int|
            0 <= d < db.deliveries@.len() && 0 <= s < db.sent@.len() && (
            #[trigger] db.deliveries@[d]).idempotency_key@ == "ahp-event-projection:"@
                + db.projections@[i].event_id@ ==> (#[trigger] db.sent@[s]).delivery_id
                != db.deliveries@[d].delivery_id,
        list.len() < limit,
    ensures
        exists|k: int|
            0 <= k < list.len() && (#[trigger] list[k]).event_id == db.projections@[i].event_id
                && list[k].kind == db.projections@[i].kind && list[k].content
                == db.projections@[i].content,
{
    let p = db.projections@[i];
    assert(replayable(db)(p)) by {
        assert(!is_partly_sent(db.deliveries@, db.sent@, direct_key(p.event_id@)));
    }
    let k = choose|k: int| 0 <= k < picks.len() && #[trigger] picks[k] == i;
    assert(list[k].event_id == p.event_id);
}

/// Of the messages that are told again, the older ones come first, none got through
/// before, and each is about an event whose message went wrong.
pub proof fn told_messages_went_wrong(
    db: Database,
    picks: Seq<usize>,
    limit: u32,
    list: Seq<AhpProjectionRecord>,
    k: int,
)
    requires
        lists_projections(db, picks, limit, list),
        0 <= k < list.len(),
    ensures
        list.len() <= limit,
        exists|i: int|
            {
                let p = #[trigger] db.projections@[i];
                &&& 0 <= i < db.projections@.len()
                &&& list[k].event_id == p.event_id
                &&& list[k].content == p.content
                &&& !p.delivered
                &&& p.last_error is Some || exists|d: int|
                    0 <= d < db.deliveries@.len() && (#[trigger] db.deliveries@[d]).idempotency_key@
                        == "ahp-event-projection:"@ + p.event_id@ && (db.deliveries@[d].status
                        == DeliveryStatus::Failed || db.deliveries@[d].status
                        == DeliveryStatus::InDoubt)
                &&& forall|l: int|
                    k < l < list.len() ==> p.created_at <= db.projections@[#[trigger] picks[
                        l
                    ] as int].created_at
            },
{
    let i = picks[k] as int;
    let p = db.projections@[i];
    assert(replayable(db)(p));
    assert(list[k].event_id == p.event_id);
    assert forall|l: int| k < l < list.len() implies p.created_at <= db.projections@[
        #[trigger] picks[l] as int
    ].created_at by {
        assert(!crate::tables::precedes(
            by_age()(db.projections@[picks[l] as int]),
            by_age()(db.projections@[picks[k] as int]),
            false,
        ));
    }
    if p.last_error is None {
        let d = choose|d: int|
            0 <= d < db.deliveries@.len() && (#[trigger] db.deliveries@[d]).idempotency_key@
                == direct_key(p.event_id@) && (db.deliveries@[d].status == DeliveryStatus::Failed
                || db.deliveries@[d].status == DeliveryStatus::InDoubt);
        assert(db.deliveries@[d].idempotency_key@ == "ahp-event-projection:"@ + p.event_id@);
    }
}

/// An event that was processed is known to be, and no other event changes.
pub proof fn events_are_processed_at_word(
    a: Database,
    b: Database,
    id: Seq<char>,
    now: i64,
    r: Result<(), Failure>,
    i: int,
)
    requires
        processed_outcome(a, b, id, now, r),
        0 <= i < a.events@.len(),
    ensures
        b.events@.len() == a.events@.len(),
        a.events@[i].event_id@ == id ==> r is Ok && b.events@[i].processed_at == Some(now)
            && b.events@[i].processing_error is None && b.events@[i].event_id
            == a.events@[i].event_id && b.events@[i].server_sequence == a.events@[i].server_sequence,
        a.events@[i].event_id@ != id ==> b.events@[i] == a.events@[i],
        r is Ok ==> exists|j: int|
            0 <= j < a.events@.len() && (#[trigger] a.events@[j]).event_id@ == id,
        r is Err ==> b == a,
{
    if r is Ok {
        let then = b.events@[i];
        let j = choose|j: int|
            0 <= j < a.events@.len() && (#[trigger] a.events@[j]).event_id@ == id;
        assert(a.events@[j].event_id@ == id);
    } else if a.events@[i].event_id@ == id {
        assert(has_event(a.events@, id));
    }
}

/// A message that could not be sent counts as tried once more, unless it got through
/// before; no other message changes.
pub proof fn failed_messages_are_counted(
    a: Database,
    b: Database,
    id: Seq<char>,
    error: Seq<char>,
    now: i64,
    i: int,
)
    requires
        projection_failed(a, b, id, error, now),
        0 <= i < a.projections@.len(),
    ensures
        b.projections@.len() == a.projections@.len(),
        a.projections@[i].event_id@ == id && !a.projections@[i].delivered
            && a.projections@[i].attempts < u64::MAX ==> b.projections@[i].attempts
            == a.projections@[i].attempts + 1 && opt_view(b.projections@[i].last_error) == Some(
            error,
        ) && !b.projections@[i].delivered && b.projections@[i].content
            == a.projections@[i].content,
        a.projections@[i].event_id@ != id || a.projections@[i].delivered ==> b.projections@[i]
            == a.projections@[i],
{
    let then = b.projections@[i];
}

/// The owner is to be told once of an event that is kept, with the words given.
pub proof fn events_are_told_once(
    a: Database,
    b: Database,
    id: Seq<char>,
    kind: Seq<char>,
    content: Seq<char>,
    now: i64,
    r: Result<(), Failure>,
    e: int,
)
    requires
        projection_outcome(a, b, id, kind, content, now, r),
        0 <= e < a.events@.len(),
        a.events@[e].event_id@ == id,
    ensures
        r is Ok,
        (exists|i: int|
            0 <= i < a.projections@.len() && (#[trigger] a.projections@[i]).event_id@ == id) ==> b
            == a,
        (forall|i: int|
            0 <= i < a.projections@.len() ==> (#[trigger] a.projections@[i]).event_id@ != id) ==> {
            &&& b.projections@.len() == a.projections@.len() + 1
            &&& b.projections@.last().event_id@ == id
            &&& b.projections@.last().kind@ == kind
            &&& b.projections@.last().content@ == content
            &&& !b.projections@.last().delivered
            &&& b.projections@.last().attempts == 0
            &&& b.projections@.last().last_error is None
            &&& forall|i: int|
                0 <= i < a.projections@.len() ==> #[trigger] b.projections@[i]
                    == a.projections@[i]
        },
{
    assert(has_event(a.events@, id));
}

/// The messages that are named have got through, and no others.
pub proof fn named_messages_get_through(
    a: Seq<ProjectionRow>,
    b: Seq<ProjectionRow>,
    ids: Seq<String>,
    now: i64,
    i: int,
)
    requires
        all_deliver(a, b, ids, now),
        0 <= i < a.len(),
    ensures
        b.len() == a.len(),
        (exists|k: int| 0 <= k < ids.len() && (#[trigger] ids[k])@ == a[i].event_id@) ==> b[i].delivered
            && b[i].last_error is None && b[i].event_id == a[i].event_id && b[i].content
            == a[i].content,
        (forall|k: int| 0 <= k < ids.len() ==> (#[trigger] ids[k])@ != a[i].event_id@) ==> b[i]
            == a[i],
{
    assert(b[i] == deliver(a[i], ids, now));
}

} // verus!
