//! The commands to the adapter: how they are queued, leased and disposed of.
use vstd::prelude::*;
use vstd::string::*;

use crate::bindings::{fits, lemma_same_commands, not_registered, out_of_range, replaced, touched};
use crate::config::{failure, Failure};
use crate::interactions::{
    all_expire_decision, all_expire_input, all_fail_decision, all_fail_input, all_reopen_decision,
    all_reopen_input, apply_expire_decision, apply_expire_input, apply_fail_decision,
    apply_fail_input, apply_reopen_decision, apply_reopen_input,
};
use crate::json::{canonical, canonicalize, lemma_members_are, Json, Member, Tree};
use crate::protocol::{AhpAdapterCommand, AhpCommandKind, AhpCommandOutcome};
use crate::security::{redact_json, redacted};
use crate::store::{
    is_open_command, AdapterRow, BindingRow, BindingState, CommandRow, CommandState, Database,
    ProgressRow, MAX_COMMAND_BATCH,
};
use crate::tables::{
    changed, find, first, lemma_filter_keeps, lemma_filter_push, lemma_filter_unique, opt_is,
    retain,
};
use crate::text::{cat, opt_str_view, opt_view, owned, str_eq};

verus! {

broadcast use vstd::string::group_string_axioms;

/// Whether the row is a command that was just queued.
pub open spec fn is_new_command(
    r: CommandRow,
    id: i64,
    key: Seq<char>,
    binding: Seq<char>,
    generation: i64,
    kind: AhpCommandKind,
    data: Tree,
    now: i64,
) -> bool {
    &&& r.command_id == id
    &&& r.command_key@ == key
    &&& r.binding_id@ == binding
    &&& r.binding_generation == generation
    &&& r.kind == kind
    &&& r.data@ == canonical(redacted(data))
    &&& r.state == CommandState::Pending
    &&& r.lease_owner is None
    &&& r.lease_expires_at is None
    &&& r.error_code is None
    &&& r.result is None
    &&& r.progress is None
    &&& r.created_at == now
    &&& r.updated_at == now
}

/// Whether `b` is `a` with the command queued, unless its key is known: then
/// nothing changes. `id` is the number of the command with that key.
pub open spec fn enqueued(
    a: Database,
    b: Database,
    key: Seq<char>,
    binding: Seq<char>,
    generation: i64,
    kind: AhpCommandKind,
    data: Tree,
    now: i64,
    id: i64,
) -> bool {
    match a.command_with(key) {
        Some(c) => b == a && id == c.command_id,
        None => {
            &&& b == (Database {
                commands: b.commands,
                next_command_id: (a.next_command_id + 1) as i64,
                ..a
            })
            &&& id == a.next_command_id
            &&& b.commands@ == a.commands@.push(b.commands@.last())
            &&& is_new_command(
                b.commands@.last(),
                id,
                key,
                binding,
                generation,
                kind,
                data,
                now,
            )
        },
    }
}

impl Database {
    /// Queues a command, unless its key is known.
    pub(crate) fn enqueue_command(
        &mut self,
        key: &str,
        binding_id: &str,
        generation: i64,
        kind: AhpCommandKind,
        data: &Json,
        now: i64,
    ) -> (id: i64)
        requires
            old(self).wf(),
            old(self).next_command_id < i64::MAX,
        ensures
            final(self).wf(),
            enqueued(
                *old(self),
                *final(self),
                key@,
                binding_id@,
                generation,
                kind,
                data@,
                now,
                id,
            ),
    {
        match self.find_command(key) {
            Some(i) => self.commands[i].command_id,
            None => {
                let id = self.next_command_id;
                let shown = redact_json(data);
                let row = CommandRow {
                    command_id: id,
                    command_key: key.to_owned(),
                    binding_id: binding_id.to_owned(),
                    binding_generation: generation,
                    kind,
                    data: canonicalize(&shown),
                    state: CommandState::Pending,
                    lease_owner: None,
                    lease_expires_at: None,
                    error_code: None,
                    result: None,
                    progress: None,
                    created_at: now,
                    updated_at: now,
                };
                self.next_command_id = id + 1;
                self.commands.push(row);
                id
            },
        }
    }
}

/// A member of an object whose value is a text.
pub fn text_member(key: &str, value: &str) -> (r: Member)
    ensures
        r.key@ == key@,
        r.value@ == Tree::Text(value@),
{
    Member { key: key.to_owned(), value: Json::Text(value.to_owned()) }
}

/// The data of an optional text.
pub open spec fn opt_text_tree(value: Option<String>) -> Tree {
    match value {
        Some(s) => Tree::Text(s@),
        None => Tree::Null,
    }
}

/// A member of an object whose value is a text or nothing.
pub fn opt_text_member(key: &str, value: &Option<String>) -> (r: Member)
    ensures
        r.key@ == key@,
        r.value@ == opt_text_tree(*value),
{
    let value = match value {
        Some(s) => Json::Text(s.clone()),
        None => Json::Null,
    };
    Member { key: key.to_owned(), value }
}


// ---------------------------------------------------------------------------
// Queueing

/// What a command that sends a message says.
pub open spec fn message_data(message: Seq<char>, row: BindingRow, content: Seq<char>) -> Tree {
    Tree::Object(
        seq![
            ("client_message_id"@, Tree::Text(message)),
            ("session_uri"@, Tree::Text(row.session_uri@)),
            ("chat_uri"@, opt_text_tree(row.chat_uri)),
            ("content"@, Tree::Text(content)),
        ],
    )
}

/// What a command that cancels a turn says.
pub open spec fn cancel_data(row: BindingRow) -> Tree {
    Tree::Object(
        seq![
            ("session_uri"@, Tree::Text(row.session_uri@)),
            ("chat_uri"@, opt_text_tree(row.chat_uri)),
        ],
    )
}

/// Whether `b` is `a` with the command queued for the tracked session, and the
/// session marked as just used.
pub open spec fn routed(
    a: Database,
    b: Database,
    key: Seq<char>,
    row: BindingRow,
    kind: AhpCommandKind,
    data: Tree,
    now: i64,
    id: i64,
) -> bool {
    exists|m: Database|
        #[trigger] enqueued(a, m, key, row.binding_id@, row.generation, kind, data, now, id)
            && touched(m, b, row.binding_id@, now)
}

/// What comes of sending a message to the session at that address.
pub open spec fn message_outcome(
    a: Database,
    b: Database,
    message: Seq<char>,
    uri: Seq<char>,
    content: Seq<char>,
    now: i64,
    r: Result<i64, Failure>,
) -> bool {
    match r {
        Err(f) => b == a && a.route_fault(uri) == Some(f.message@),
        Ok(id) => a.route_fault(uri) is None && routed(
            a,
            b,
            "qq-message:"@ + message,
            a.binding_of(uri)->0,
            AhpCommandKind::SendMessage,
            message_data(message, a.binding_of(uri)->0, content),
            now,
            id,
        ),
    }
}

/// What comes of cancelling the turn of the session at that address.
pub open spec fn cancel_outcome(
    a: Database,
    b: Database,
    message: Seq<char>,
    uri: Seq<char>,
    now: i64,
    r: Result<i64, Failure>,
) -> bool {
    match r {
        Err(f) => b == a && a.bound_fault(uri) == Some(f.message@),
        Ok(id) => a.bound_fault(uri) is None && routed(
            a,
            b,
            "qq-cancel:"@ + message,
            a.binding_of(uri)->0,
            AhpCommandKind::CancelTurn,
            cancel_data(a.binding_of(uri)->0),
            now,
            id,
        ),
    }
}

impl Database {
    /// Queues a command for a tracked session and marks the session as used.
    pub(crate) fn route_command(
        &mut self,
        key: &str,
        i: usize,
        kind: AhpCommandKind,
        data: &Json,
        now: i64,
    ) -> (id: i64)
        requires
            old(self).wf(),
            old(self).next_command_id < i64::MAX,
            i < old(self).bindings@.len(),
            old(self).bindings@[i as int].state != BindingState::Detaching,
        ensures
            final(self).wf(),
            routed(
                *old(self),
                *final(self),
                key@,
                old(self).bindings@[i as int],
                kind,
                data@,
                now,
                id,
            ),
            final(self).decisions == old(self).decisions,
            final(self).inputs == old(self).inputs,
            final(self).next_command_id <= old(self).next_command_id + 1,
    {
        let ghost row = self.bindings@[i as int];
        let binding_id = self.bindings[i].binding_id.clone();
        let generation = self.bindings[i].generation;
        let id = self.enqueue_command(key, binding_id.as_str(), generation, kind, data, now);
        let ghost m = *self;
        self.touch_at(i, now);
        assert(enqueued(
            *old(self),
            m,
            key@,
            row.binding_id@,
            row.generation,
            kind,
            data@,
            now,
            id,
        ));
        id
    }

    /// Queues a message for the session in the foreground.
    pub fn ahp_enqueue_message(&mut self, message_id: &str, content: &str, now: i64) -> (r: Result<
        i64,
        Failure,
    >)
        requires
            old(self).wf(),
            old(self).has_room(),
        ensures
            final(self).wf(),
            match old(self).foreground_row() {
                None => *final(self) == *old(self) && r is Err && r->Err_0.message@
                    == "no foreground AHP session is selected"@,
                Some(row) => if !fits(row) {
                    *final(self) == *old(self) && r is Err && r->Err_0.message@ == out_of_range()
                } else {
                    message_outcome(
                        *old(self),
                        *final(self),
                        message_id@,
                        row.session_uri@,
                        content@,
                        now,
                        r,
                    )
                },
            },
    {
        match self.ahp_binding() {
            Err(f) => Err(f),
            Ok(None) => Err(failure("no foreground AHP session is selected")),
            Ok(Some(record)) => self.ahp_enqueue_message_to_session(
                message_id,
                record.session_uri.as_str(),
                content,
                now,
            ),
        }
    }

    /// Queues a message for the session at that address.
    pub fn ahp_enqueue_message_to_session(
        &mut self,
        message_id: &str,
        session_uri: &str,
        content: &str,
        now: i64,
    ) -> (r: Result<i64, Failure>)
        requires
            old(self).wf(),
            old(self).has_room(),
        ensures
            final(self).wf(),
            message_outcome(
                *old(self),
                *final(self),
                message_id@,
                session_uri@,
                content@,
                now,
                r,
            ),
    {
        let i = match self.require_routable_binding_for_session(session_uri) {
            Err(f) => {
                return Err(f);
            },
            Ok(i) => i,
        };
        let ghost row = self.bindings@[i as int];
        let key = cat("qq-message:", message_id);
        let mut v: Vec<Member> = Vec::new();
        v.push(text_member("client_message_id", message_id));
        v.push(text_member("session_uri", self.bindings[i].session_uri.as_str()));
        v.push(opt_text_member("chat_uri", &self.bindings[i].chat_uri));
        v.push(text_member("content", content));
        proof {
            lemma_members_are(v, message_data(message_id@, row, content@)->Object_0);
        }
        let data = Json::Object(v);
        Ok(self.route_command(key.as_str(), i, AhpCommandKind::SendMessage, &data, now))
    }

    /// Asks for the turn of the session in the foreground to be cancelled.
    pub fn ahp_enqueue_cancel(&mut self, message_id: &str, now: i64) -> (r: Result<i64, Failure>)
        requires
            old(self).wf(),
            old(self).has_room(),
        ensures
            final(self).wf(),
            match old(self).foreground_row() {
                None => *final(self) == *old(self) && r is Err && r->Err_0.message@
                    == "no foreground AHP session is selected"@,
                Some(row) => if !fits(row) {
                    *final(self) == *old(self) && r is Err && r->Err_0.message@ == out_of_range()
                } else {
                    cancel_outcome(
                        *old(self),
                        *final(self),
                        message_id@,
                        row.session_uri@,
                        now,
                        r,
                    )
                },
            },
    {
        match self.ahp_binding() {
            Err(f) => Err(f),
            Ok(None) => Err(failure("no foreground AHP session is selected")),
            Ok(Some(record)) => self.ahp_enqueue_cancel_for_session(
                message_id,
                record.session_uri.as_str(),
                now,
            ),
        }
    }

    /// Asks for the turn of the session at that address to be cancelled.
    pub fn ahp_enqueue_cancel_for_session(
        &mut self,
        message_id: &str,
        session_uri: &str,
        now: i64,
    ) -> (r: Result<i64, Failure>)
        requires
            old(self).wf(),
            old(self).has_room(),
        ensures
            final(self).wf(),
            cancel_outcome(*old(self), *final(self), message_id@, session_uri@, now, r),
    {
        let i = match self.require_bound_binding_for_session(session_uri) {
            Err(f) => {
                return Err(f);
            },
            Ok(i) => i,
        };
        let ghost row = self.bindings@[i as int];
        let key = cat("qq-cancel:", message_id);
        let mut v: Vec<Member> = Vec::new();
        v.push(text_member("session_uri", self.bindings[i].session_uri.as_str()));
        v.push(opt_text_member("chat_uri", &self.bindings[i].chat_uri));
        proof {
            lemma_members_are(v, cancel_data(row)->Object_0);
        }
        let data = Json::Object(v);
        Ok(self.route_command(key.as_str(), i, AhpCommandKind::CancelTurn, &data, now))
    }

    /// Asks the adapter to prepare a target.
    pub fn ahp_enqueue_prepare_target(&mut self, command_key: &str, data: &Json, now: i64) -> (r:
        i64)
        requires
            old(self).wf(),
            old(self).has_room(),
        ensures
            final(self).wf(),
            enqueued(
                *old(self),
                *final(self),
                command_key@,
                "__unbound__"@,
                0,
                AhpCommandKind::PrepareTarget,
                data@,
                now,
                r,
            ),
    {
        self.enqueue_command(
            command_key,
            "__unbound__",
            0,
            AhpCommandKind::PrepareTarget,
            data,
            now,
        )
    }

    /// Asks the adapter to make a session.
    pub fn ahp_enqueue_create_session(&mut self, command_key: &str, data: &Json, now: i64) -> (r:
        i64)
        requires
            old(self).wf(),
            old(self).has_room(),
        ensures
            final(self).wf(),
            enqueued(
                *old(self),
                *final(self),
                command_key@,
                "__unbound__"@,
                0,
                AhpCommandKind::CreateSession,
                data@,
                now,
                r,
            ),
    {
        self.enqueue_command(
            command_key,
            "__unbound__",
            0,
            AhpCommandKind::CreateSession,
            data,
            now,
        )
    }

    /// Asks the adapter to dispose of a session.
    pub fn ahp_enqueue_dispose_session(&mut self, command_key: &str, data: &Json, now: i64) -> (r:
        i64)
        requires
            old(self).wf(),
            old(self).has_room(),
        ensures
            final(self).wf(),
            enqueued(
                *old(self),
                *final(self),
                command_key@,
                "__unbound__"@,
                0,
                AhpCommandKind::DisposeSession,
                data@,
                now,
                r,
            ),
    {
        self.enqueue_command(
            command_key,
            "__unbound__",
            0,
            AhpCommandKind::DisposeSession,
            data,
            now,
        )
    }

    /// Whether a command waits or is leased.
    pub fn ahp_has_pending_commands(&self) -> (r: bool)
        ensures
            r == exists|i: int|
                0 <= i < self.commands@.len() && is_open_command(#[trigger] self.commands@[i]),
    {
        let test = |r: &CommandRow| -> (b: bool)
            ensures
                b == is_open_command(*r),
        { r.state == CommandState::Pending || r.state == CommandState::Leased };
        match find(&self.commands, test, Ghost(|r: CommandRow| is_open_command(r))) {
            Some(i) => {
                assert(is_open_command(self.commands@[i as int]));
                true
            },
            None => {
                assert forall|i: int| 0 <= i < self.commands@.len() implies !is_open_command(
                    #[trigger] self.commands@[i],
                ) by {}
                false
            },
        }
    }
}

// ---------------------------------------------------------------------------
// Leasing

fn lease_is_over(lease: &Option<i64>, now: i64) -> (r: bool)
    ensures
        r == (*lease matches Some(t) && t <= now),
{
    match lease {
        Some(t) => *t <= now,
        None => false,
    }
}

/// A command whose lease has run out waits again.
pub open spec fn release_command(p: CommandRow, now: i64) -> CommandRow {
    if p.state == CommandState::Leased && (p.lease_expires_at matches Some(t) && t <= now) {
        CommandRow {
            state: CommandState::Pending,
            lease_owner: None,
            lease_expires_at: None,
            updated_at: now,
            ..p
        }
    } else {
        p
    }
}

/// Whether each row of `b` is the row of `a` in its place after that change.
pub open spec fn all_release_command(a: Seq<CommandRow>, b: Seq<CommandRow>, now: i64) -> bool {
    a.len() == b.len() && forall|i: int|
        0 <= i < a.len() ==> #[trigger] b[i] == release_command(a[i], now)
}

pub(crate) fn apply_release_command(rows: &mut Vec<CommandRow>, now: i64)
    ensures
        all_release_command(old(rows)@, final(rows)@, now),
{
    let ghost a = rows@;
    let mut i: usize = 0;
    while i < rows.len()
        invariant
            i <= rows@.len(),
            rows@.len() == a.len(),
            forall|j: int| 0 <= j < i ==> #[trigger] rows@[j] == release_command(a[j], now),
            forall|j: int| i <= j < rows@.len() ==> #[trigger] rows@[j] == a[j],
        decreases rows@.len() - i,
    {
        if rows[i].state == CommandState::Leased && lease_is_over(&rows[i].lease_expires_at, now) {
            rows[i].state = CommandState::Pending;
            rows[i].lease_owner = None;
            rows[i].lease_expires_at = None;
            rows[i].updated_at = now;
        }
        i += 1;
    }
}

/// A command that was leased waits again.
pub open spec fn reclaim_command(p: CommandRow, now: i64) -> CommandRow {
    if p.state == CommandState::Leased {
        CommandRow {
            state: CommandState::Pending,
            lease_owner: None,
            lease_expires_at: None,
            updated_at: now,
            ..p
        }
    } else {
        p
    }
}

/// Whether each row of `b` is the row of `a` in its place after that change.
pub open spec fn all_reclaim_command(a: Seq<CommandRow>, b: Seq<CommandRow>, now: i64) -> bool {
    a.len() == b.len() && forall|i: int|
        0 <= i < a.len() ==> #[trigger] b[i] == reclaim_command(a[i], now)
}

pub(crate) fn apply_reclaim_command(rows: &mut Vec<CommandRow>, now: i64)
    ensures
        all_reclaim_command(old(rows)@, final(rows)@, now),
{
    let ghost a = rows@;
    let mut i: usize = 0;
    while i < rows.len()
        invariant
            i <= rows@.len(),
            rows@.len() == a.len(),
            forall|j: int| 0 <= j < i ==> #[trigger] rows@[j] == reclaim_command(a[j], now),
            forall|j: int| i <= j < rows@.len() ==> #[trigger] rows@[j] == a[j],
        decreases rows@.len() - i,
    {
        if rows[i].state == CommandState::Leased {
            rows[i].state = CommandState::Pending;
            rows[i].lease_owner = None;
            rows[i].lease_expires_at = None;
            rows[i].updated_at = now;
        }
        i += 1;
    }
}

/// The condition of waiting for a lease.
pub open spec fn waiting() -> spec_fn(CommandRow) -> bool {
    |r: CommandRow| r.state == CommandState::Pending
}

/// Whether the command is handed out: it waits, and fewer than a batch wait
/// before it.
pub open spec fn is_handed_out(rows: Seq<CommandRow>, i: int) -> bool {
    0 <= i < rows.len() && rows[i].state == CommandState::Pending && rows.take(i).filter(
        waiting(),
    ).len() < MAX_COMMAND_BATCH
}

/// Whether `b` is `a` with the commands that are handed out leased to that
/// instance of the adapter.
pub open spec fn leased(
    a: Seq<CommandRow>,
    b: Seq<CommandRow>,
    instance: Seq<char>,
    until: i64,
    now: i64,
) -> bool {
    a.len() == b.len() && forall|i: int|
        #![trigger b[i]]
        0 <= i < a.len() ==> if is_handed_out(a, i) {
            b[i] == (CommandRow {
                state: CommandState::Leased,
                lease_owner: b[i].lease_owner,
                lease_expires_at: Some(until),
                updated_at: now,
                ..a[i]
            }) && opt_view(b[i].lease_owner) == Some(instance)
        } else {
            b[i] == a[i]
        }
}

/// Whether the record hands out the command.
pub open spec fn hands_out(row: CommandRow, r: AhpAdapterCommand) -> bool {
    &&& r.command_id == row.command_id
    &&& r.command_key == row.command_key
    &&& r.binding_id == row.binding_id
    &&& r.binding_generation == row.binding_generation
    &&& r.kind == row.kind
    &&& r.data@ == row.data@
}

/// The commands that are handed out, in their order.
pub open spec fn batch(rows: Seq<CommandRow>) -> Seq<CommandRow> {
    let all = rows.filter(waiting());
    if all.len() <= MAX_COMMAND_BATCH {
        all
    } else {
        all.take(MAX_COMMAND_BATCH as int)
    }
}

/// The adapter as last heard of at that time.
pub open spec fn heard(adapter: Option<AdapterRow>, now: i64) -> Option<AdapterRow> {
    match adapter {
        Some(a) => Some(AdapterRow { last_seen_at: now, updated_at: now, ..a }),
        None => None,
    }
}

/// What comes of handing the adapter the commands that wait.
pub open spec fn poll_outcome(
    a: Database,
    b: Database,
    adapter: Seq<char>,
    instance: Seq<char>,
    lease_seconds: u64,
    now: i64,
    r: Result<Vec<AhpAdapterCommand>, Failure>,
) -> bool {
    match r {
        Err(f) => b == a && if lease_seconds > i64::MAX {
            f.message@ == "AHP command lease exceeds supported range"@
        } else {
            f.message@ == not_registered() && !a.is_registered(
                adapter,
                instance,
            )
        },
        Ok(commands) => {
            &&& lease_seconds <= i64::MAX
            &&& a.is_registered(adapter, instance)
            &&& b == (Database {
                commands: b.commands,
                adapter: heard(a.adapter, now),
                ..a
            })
            &&& exists|m: Seq<CommandRow>|
                {
                    &&& #[trigger] all_release_command(a.commands@, m, now)
                    &&& leased(
                        m,
                        b.commands@,
                        instance,
                        (now + lease_seconds) as i64,
                        now,
                    )
                    &&& commands@.len() == batch(m).len()
                    &&& forall|k: int|
                        0 <= k < commands@.len() ==> hands_out(
                            batch(m)[k],
                            #[trigger] commands@[k],
                        )
                }
        },
    }
}

impl Database {
    /// Takes note that the adapter was heard of.
    pub(crate) fn hear_adapter(&mut self, now: i64)
        requires
            old(self).wf(),
        ensures
            final(self).wf(),
            *final(self) == (Database { adapter: heard(old(self).adapter, now), ..*old(self) }),
    {
        match self.adapter.take() {
            Some(mut a) => {
                a.last_seen_at = now;
                a.updated_at = now;
                self.adapter = Some(a);
            },
            None => {},
        }
    }

    /// Hands the adapter the commands that wait, and leases them to it. Leases
    /// that have run out are given up first.
    pub fn ahp_poll_commands(
        &mut self,
        adapter_id: &str,
        adapter_instance_id: &str,
        lease_seconds: u64,
        now: i64,
    ) -> (r: Result<Vec<AhpAdapterCommand>, Failure>)
        requires
            old(self).wf(),
            lease_seconds <= i64::MAX ==> now + lease_seconds <= i64::MAX,
        ensures
            final(self).wf(),
            poll_outcome(
                *old(self),
                *final(self),
                adapter_id@,
                adapter_instance_id@,
                lease_seconds,
                now,
                r,
            ),
    {
        if lease_seconds > i64::MAX as u64 {
            return Err(failure("AHP command lease exceeds supported range"));
        }
        let until: i64 = now + lease_seconds as i64;
        if !self.adapter_is_registered(adapter_id, adapter_instance_id) {
            return Err(failure("AHP adapter identity is not registered"));
        }
        apply_release_command(&mut self.commands, now);
        let ghost m = self.commands@;
        let ghost start = *self;
        proof {
            lemma_same_commands(old(self).commands@, m, self.next_command_id);
        }
        let mut commands: Vec<AhpAdapterCommand> = Vec::new();
        let mut i: usize = 0;
        proof {
            reveal(Seq::filter);
            assert(m.take(0).filter(waiting()).len() == 0);
        }
        while i < self.commands.len()
            invariant
                i <= self.commands@.len(),
                *self == (Database { commands: self.commands, ..start }),
                self.commands@.len() == m.len(),
                forall|j: int|
                    #![trigger self.commands@[j]]
                    0 <= j < i ==> if is_handed_out(m, j) {
                        self.commands@[j] == (CommandRow {
                            state: CommandState::Leased,
                            lease_owner: self.commands@[j].lease_owner,
                            lease_expires_at: Some(until),
                            updated_at: now,
                            ..m[j]
                        }) && opt_view(self.commands@[j].lease_owner) == Some(adapter_instance_id@)
                    } else {
                        self.commands@[j] == m[j]
                    },
                forall|j: int| i <= j < m.len() ==> #[trigger] self.commands@[j] == m[j],
                commands@.len() == (if m.take(i as int).filter(waiting()).len()
                    <= MAX_COMMAND_BATCH {
                    m.take(i as int).filter(waiting()).len()
                } else {
                    MAX_COMMAND_BATCH as nat
                }),
                forall|k: int|
                    0 <= k < commands@.len() ==> hands_out(
                        m.take(i as int).filter(waiting())[k],
                        #[trigger] commands@[k],
                    ),
            decreases self.commands@.len() - i,
        {
            proof {
                assert(m.take(i + 1) =~= m.take(i as int).push(m[i as int]));
                lemma_filter_push(m.take(i as int), m[i as int], waiting());
            }
            if self.commands[i].state == CommandState::Pending && commands.len()
                < MAX_COMMAND_BATCH {
                let row = &self.commands[i];
                commands.push(
                    AhpAdapterCommand {
                        command_id: row.command_id,
                        command_key: row.command_key.clone(),
                        binding_id: row.binding_id.clone(),
                        binding_generation: row.binding_generation,
                        kind: row.kind,
                        data: row.data.duplicate(),
                    },
                );
                self.commands[i].state = CommandState::Leased;
                self.commands[i].lease_owner = Some(adapter_instance_id.to_owned());
                self.commands[i].lease_expires_at = Some(until);
                self.commands[i].updated_at = now;
            }
            i += 1;
        }
        proof {
            assert(m.take(i as int) =~= m);
            lemma_same_commands(m, self.commands@, self.next_command_id);
            assert(leased(m, self.commands@, adapter_instance_id@, until, now));
            assert(all_release_command(old(self).commands@, m, now));
            assert forall|k: int| 0 <= k < commands@.len() implies hands_out(
                batch(m)[k],
                #[trigger] commands@[k],
            ) by {}
        }
        self.hear_adapter(now);
        Ok(commands)
    }
}

// ---------------------------------------------------------------------------
// Disposing of a command

/// Whether the command is leased to that instance of the adapter.
pub open spec fn is_held(row: CommandRow, id: i64, instance: Seq<char>) -> bool {
    row.command_id == id && row.state == CommandState::Leased && opt_view(row.lease_owner) == Some(
        instance,
    )
}

/// The state of a command with that outcome.
pub open spec fn outcome_state(outcome: AhpCommandOutcome) -> CommandState {
    match outcome {
        AhpCommandOutcome::Applied => CommandState::Acked,
        AhpCommandOutcome::Rejected => CommandState::Rejected,
        AhpCommandOutcome::Failed => CommandState::Failed,
    }
}

/// The data of an optional value in its canonical form.
pub open spec fn opt_canonical(value: Option<&Json>) -> Option<Tree> {
    match value {
        Some(j) => Some(canonical(j@)),
        None => None,
    }
}

/// The data of an optional value.
pub open spec fn opt_data(value: Option<Json>) -> Option<Tree> {
    match value {
        Some(j) => Some(j@),
        None => None,
    }
}

/// Whether `b` is `a` with the command disposed of.
pub open spec fn disposed(
    a: Seq<CommandRow>,
    b: Seq<CommandRow>,
    id: i64,
    instance: Seq<char>,
    outcome: AhpCommandOutcome,
    error: Option<Seq<char>>,
    result: Option<Tree>,
    now: i64,
) -> bool {
    a.len() == b.len() && forall|i: int|
        #![trigger b[i]]
        0 <= i < a.len() ==> if is_held(a[i], id, instance) {
            b[i] == (CommandRow {
                state: outcome_state(outcome),
                error_code: b[i].error_code,
                result: b[i].result,
                lease_expires_at: None,
                progress: None,
                updated_at: now,
                ..a[i]
            }) && opt_view(b[i].error_code) == error && opt_data(b[i].result) == result
        } else {
            b[i] == a[i]
        }
}

/// Whether the row is the tracked session with that identifier, about to be
/// let go.
pub open spec fn is_leaving(row: BindingRow, id: Seq<char>) -> bool {
    row.binding_id@ == id && row.state == BindingState::Detaching
}

/// The condition of staying when the tracked session with that identifier is
/// let go.
pub open spec fn stays(id: Seq<char>) -> spec_fn(BindingRow) -> bool {
    |r: BindingRow| !is_leaving(r, id)
}

/// Whether `b` is `a` without the tracked session that was about to be let go.
pub open spec fn binding_removed(a: Database, b: Database, id: Seq<char>) -> bool {
    &&& b == (Database { bindings: b.bindings, foreground: b.foreground, ..a })
    &&& b.bindings@ == a.bindings@.filter(stays(id))
    &&& b.foreground == (if a.in_foreground(id) && exists|i: int|
        0 <= i < a.bindings@.len() && is_leaving(#[trigger] a.bindings@[i], id) {
        None
    } else {
        a.foreground
    })
}

/// Whether `b` is `a` after the command to let a tracked session go was
/// disposed of: it is gone, or has failed where the command failed.
pub open spec fn unbound(
    a: Database,
    b: Database,
    id: Seq<char>,
    outcome: AhpCommandOutcome,
    error: Option<Seq<char>>,
    now: i64,
) -> bool {
    if outcome == AhpCommandOutcome::Failed {
        &&& b == (Database { bindings: b.bindings, ..a })
        &&& changed(
            a.bindings@,
            b.bindings@,
            |p: BindingRow, q: BindingRow|
                if is_leaving(p, id) {
                    q == (BindingRow {
                        state: BindingState::Failed,
                        error_code: q.error_code,
                        updated_at: now,
                        ..p
                    }) && opt_view(q.error_code) == Some(
                        match error {
                            Some(e) => e,
                            None => "unbind_failed"@,
                        },
                    )
                } else {
                    q == p
                },
        )
    } else {
        exists|m: Database| #[trigger] binding_removed(a, m, id) && replaced(m, b, now)
    }
}

/// Whether `b` is `a` after what waited for the command has learnt its outcome:
/// nothing where it was applied, waiting again where it was rejected, failed
/// where it failed.
pub open spec fn settled(
    a: Database,
    b: Database,
    id: i64,
    outcome: AhpCommandOutcome,
    now: i64,
) -> bool {
    match outcome {
        AhpCommandOutcome::Applied => b == a,
        AhpCommandOutcome::Rejected => exists|m: Database|
            {
                &&& #[trigger] expired(a, m, now)
                &&& b == (Database { decisions: b.decisions, inputs: b.inputs, ..m })
                &&& all_reopen_decision(m.decisions@, b.decisions@, id, now)
                &&& all_reopen_input(m.inputs@, b.inputs@, id, now)
            },
        AhpCommandOutcome::Failed => {
            &&& b == (Database { decisions: b.decisions, inputs: b.inputs, ..a })
            &&& all_fail_decision(a.decisions@, b.decisions@, id, now)
            &&& all_fail_input(a.inputs@, b.inputs@, id, now)
        },
    }
}

/// Whether `b` is `a` with the approvals and inputs that waited too long
/// expired.
pub open spec fn expired(a: Database, b: Database, now: i64) -> bool {
    &&& b == (Database { decisions: b.decisions, inputs: b.inputs, ..a })
    &&& all_expire_decision(a.decisions@, b.decisions@, now)
    &&& all_expire_input(a.inputs@, b.inputs@, now)
}

/// What comes of word from the adapter that it disposed of a command.
pub open spec fn ack_outcome(
    a: Database,
    b: Database,
    adapter: Seq<char>,
    instance: Seq<char>,
    command_id: i64,
    outcome: AhpCommandOutcome,
    error: Option<Seq<char>>,
    result: Option<Tree>,
    now: i64,
    r: Result<(), Failure>,
) -> bool {
    match r {
        Err(f) => b == a && if !a.is_registered(
            adapter,
            instance,
        ) {
            f.message@ == not_registered()
        } else {
            f.message@ == "AHP command acknowledgement is stale or mismatched"@ && forall|
                i: int,
            |
                0 <= i < a.commands@.len() ==> !is_held(
                    #[trigger] a.commands@[i],
                    command_id,
                    instance,
                )
        },
        Ok(()) => {
            &&& a.is_registered(adapter, instance)
            &&& exists|i: int|
                0 <= i < a.commands@.len() && is_held(
                    #[trigger] a.commands@[i],
                    command_id,
                    instance,
                ) && acknowledged(
                    a,
                    b,
                    a.commands@[i],
                    instance,
                    outcome,
                    error,
                    result,
                    now,
                )
        },
    }
}

impl Database {
    /// The approvals and inputs that waited too long have expired.
    pub(crate) fn expire_ahp_interactions(&mut self, now: i64)
        requires
            old(self).wf(),
        ensures
            final(self).wf(),
            expired(*old(self), *final(self), now),
    {
        apply_expire_decision(&mut self.decisions, now);
        apply_expire_input(&mut self.inputs, now);
    }

    fn find_held(&self, id: i64, instance: &str) -> (r: Option<usize>)
        ensures
            match r {
                Some(i) => i < self.commands@.len() && is_held(
                    self.commands@[i as int],
                    id,
                    instance@,
                ),
                None => forall|j: int|
                    0 <= j < self.commands@.len() ==> !is_held(
                        #[trigger] self.commands@[j],
                        id,
                        instance@,
                    ),
            },
    {
        let test = |r: &CommandRow| -> (b: bool)
            ensures
                b == is_held(*r, id, instance@),
        {
            r.command_id == id && r.state == CommandState::Leased && opt_is(&r.lease_owner, instance)
        };
        find(&self.commands, test, Ghost(|r: CommandRow| is_held(r, id, instance@)))
    }

    /// The number of a command is its own.
    proof fn lemma_held_is_unique(self, i: int, id: i64, instance: Seq<char>)
        requires
            self.wf(),
            0 <= i < self.commands@.len(),
            is_held(self.commands@[i], id, instance),
        ensures
            forall|j: int|
                0 <= j < self.commands@.len() && is_held(
                    #[trigger] self.commands@[j],
                    id,
                    instance,
                ) ==> j == i,
    {
        assert forall|j: int|
            0 <= j < self.commands@.len() && is_held(
                #[trigger] self.commands@[j],
                id,
                instance,
            ) implies j == i by {
            if j < i {
                assert(self.commands@[j].command_id < self.commands@[i].command_id);
            } else if i < j {
                assert(self.commands@[i].command_id < self.commands@[j].command_id);
            }
        }
    }

    fn remove_leaving(&mut self, id: &str)
        requires
            old(self).wf(),
        ensures
            final(self).wf(),
            binding_removed(*old(self), *final(self), id@),
    {
        let ghost a = *self;
        let test = |r: &BindingRow| -> (b: bool)
            ensures
                b == is_leaving(*r, id@),
        { str_eq(r.binding_id.as_str(), id) && r.state == BindingState::Detaching };
        let gone = find(&self.bindings, test, Ghost(|r: BindingRow| is_leaving(r, id@))).is_some();
        let keep = |r: &BindingRow| -> (b: bool)
            ensures
                b == !is_leaving(*r, id@),
        { !(str_eq(r.binding_id.as_str(), id) && r.state == BindingState::Detaching) };
        retain(&mut self.bindings, keep, Ghost(stays(id@)));
        proof {
            lemma_filter_unique(a.bindings@, |r: BindingRow| r.binding_id@, stays(id@));
            lemma_filter_unique(a.bindings@, |r: BindingRow| r.session_uri@, stays(id@));
        }
        let in_front = match &self.foreground {
            Some(f) => str_eq(f.binding_id.as_str(), id),
            None => false,
        };
        if in_front && gone {
            self.foreground = None;
        }
        proof {
            if self.foreground is Some {
                let f = self.foreground->0;
                let k = choose|k: int|
                    0 <= k < a.bindings@.len() && (#[trigger] a.bindings@[k]).binding_id@
                        == f.binding_id@;
                assert(!is_leaving(a.bindings@[k], id@));
                lemma_filter_keeps(a.bindings@, stays(id@), k);
                let l = choose|l: int|
                    0 <= l < self.bindings@.len() && self.bindings@[l] == a.bindings@[k];
                assert(self.bindings@[l].binding_id@ == f.binding_id@);
            }
        }
    }

    fn fail_leaving(&mut self, id: &str, error: Option<&str>, now: i64)
        requires
            old(self).wf(),
        ensures
            final(self).wf(),
            unbound(
                *old(self),
                *final(self),
                id@,
                AhpCommandOutcome::Failed,
                opt_str_view(error),
                now,
            ),
    {
        let ghost a = *self;
        let code = match error {
            Some(e) => e,
            None => "unbind_failed",
        };
        let mut i: usize = 0;
        while i < self.bindings.len()
            invariant
                i <= self.bindings@.len(),
                *self == (Database { bindings: self.bindings, ..a }),
                self.bindings@.len() == a.bindings@.len(),
                forall|j: int|
                    #![trigger self.bindings@[j]]
                    0 <= j < i ==> if is_leaving(a.bindings@[j], id@) {
                        self.bindings@[j] == (BindingRow {
                            state: BindingState::Failed,
                            error_code: self.bindings@[j].error_code,
                            updated_at: now,
                            ..a.bindings@[j]
                        }) && opt_view(self.bindings@[j].error_code) == Some(code@)
                    } else {
                        self.bindings@[j] == a.bindings@[j]
                    },
                forall|j: int|
                    i <= j < a.bindings@.len() ==> #[trigger] self.bindings@[j] == a.bindings@[j],
            decreases self.bindings@.len() - i,
        {
            if str_eq(self.bindings[i].binding_id.as_str(), id) && self.bindings[i].state
                == BindingState::Detaching {
                self.bindings[i].state = BindingState::Failed;
                self.bindings[i].error_code = Some(code.to_owned());
                self.bindings[i].updated_at = now;
            }
            i += 1;
        }
        proof {
            self.lemma_same_bindings(a);
        }
    }

    /// Takes note of how the adapter disposed of a command that it holds.
    pub fn ahp_ack_command(
        &mut self,
        adapter_id: &str,
        adapter_instance_id: &str,
        command_id: i64,
        outcome: AhpCommandOutcome,
        error_code: Option<&str>,
        result: Option<&Json>,
        now: i64,
    ) -> (r: Result<(), Failure>)
        requires
            old(self).wf(),
        ensures
            final(self).wf(),
            ack_outcome(
                *old(self),
                *final(self),
                adapter_id@,
                adapter_instance_id@,
                command_id,
                outcome,
                opt_str_view(error_code),
                opt_canonical(result),
                now,
                r,
            ),
    {
        if !self.adapter_is_registered(adapter_id, adapter_instance_id) {
            return Err(failure("AHP adapter identity is not registered"));
        }
        let at = match self.find_held(command_id, adapter_instance_id) {
            None => {
                return Err(failure("AHP command acknowledgement is stale or mismatched"));
            },
            Some(i) => i,
        };
        let ghost a = *self;
        let ghost row = self.commands@[at as int];
        proof {
            self.lemma_held_is_unique(at as int, command_id, adapter_instance_id@);
        }
        let binding_id = self.commands[at].binding_id.clone();
        let kind = self.commands[at].kind;
        let stored = match result {
            Some(j) => Some(canonicalize(j)),
            None => None,
        };
        self.commands[at].state = match outcome {
            AhpCommandOutcome::Applied => CommandState::Acked,
            AhpCommandOutcome::Rejected => CommandState::Rejected,
            AhpCommandOutcome::Failed => CommandState::Failed,
        };
        self.commands[at].error_code = owned(error_code);
        self.commands[at].result = stored;
        self.commands[at].lease_expires_at = None;
        self.commands[at].progress = None;
        self.commands[at].updated_at = now;
        let ghost m1 = *self;
        proof {
            lemma_same_commands(a.commands@, self.commands@, self.next_command_id);
            assert(disposed(
                a.commands@,
                m1.commands@,
                command_id,
                adapter_instance_id@,
                outcome,
                opt_str_view(error_code),
                opt_canonical(result),
                now,
            ));
        }
        if kind == AhpCommandKind::UnbindSession {
            match outcome {
                AhpCommandOutcome::Failed => {
                    self.fail_leaving(binding_id.as_str(), error_code, now);
                },
                _ => {
                    self.remove_leaving(binding_id.as_str());
                    let ghost x = *self;
                    self.select_replacement_foreground(now);
                    assert(binding_removed(m1, x, binding_id@));
                },
            }
        }
        let ghost m2 = *self;
        assert(if kind == AhpCommandKind::UnbindSession {
            unbound(m1, m2, row.binding_id@, outcome, opt_str_view(error_code), now)
        } else {
            m2 == m1
        });
        match outcome {
            AhpCommandOutcome::Applied => {},
            AhpCommandOutcome::Rejected => {
                self.expire_ahp_interactions(now);
                let ghost x = *self;
                apply_reopen_decision(&mut self.decisions, command_id, now);
                apply_reopen_input(&mut self.inputs, command_id, now);
                assert(expired(m2, x, now));
            },
            AhpCommandOutcome::Failed => {
                apply_fail_decision(&mut self.decisions, command_id, now);
                apply_fail_input(&mut self.inputs, command_id, now);
            },
        }
        proof {
            assert(settled_after(m1, m2, *self, command_id, outcome, now));
            assert(is_held(a.commands@[at as int], command_id, adapter_instance_id@));
            assert(acknowledged(
                a,
                *self,
                row,
                adapter_instance_id@,
                outcome,
                opt_str_view(error_code),
                opt_canonical(result),
                now,
            ));
        }
        Ok(())
    }
}

/// Whether `b` is `a` after the adapter has disposed of the command: the
/// command has its outcome, a session that was to be let go is gone, and what
/// waited for the command has learnt its outcome.
pub open spec fn acknowledged(
    a: Database,
    b: Database,
    row: CommandRow,
    instance: Seq<char>,
    outcome: AhpCommandOutcome,
    error: Option<Seq<char>>,
    result: Option<Tree>,
    now: i64,
) -> bool {
    exists|m1: Database, m2: Database|
        {
            &&& m1 == (Database { commands: m1.commands, ..a })
            &&& disposed(
                a.commands@,
                m1.commands@,
                row.command_id,
                instance,
                outcome,
                error,
                result,
                now,
            )
            &&& if row.kind == AhpCommandKind::UnbindSession {
                unbound(m1, m2, row.binding_id@, outcome, error, now)
            } else {
                m2 == m1
            }
            &&& #[trigger] settled_after(m1, m2, b, row.command_id, outcome, now)
        }
}

pub open spec fn settled_after(
    m1: Database,
    m2: Database,
    b: Database,
    id: i64,
    outcome: AhpCommandOutcome,
    now: i64,
) -> bool {
    settled(m2, b, id, outcome, now)
}

// ---------------------------------------------------------------------------
// How far a command has come

/// How far a command has come.
#[derive(Debug)]
pub struct AhpCommandProgressRecord {
    pub progress: u64,
    pub total: Option<u64>,
    pub message: Option<String>,
    pub updated_at: i64,
}

/// What has become of a command.
#[derive(Debug)]
pub struct AhpCommandStatusRecord {
    pub command_id: i64,
    pub kind: AhpCommandKind,
    pub state: String,
    pub error_code: Option<String>,
    pub result: Option<Json>,
    pub progress: Option<AhpCommandProgressRecord>,
}

/// The command after word of its progress.
pub open spec fn progressed(
    p: CommandRow,
    q: CommandRow,
    progress: u64,
    total: Option<u64>,
    message: Option<Seq<char>>,
    now: i64,
) -> bool {
    &&& q == (CommandRow { progress: q.progress, updated_at: now, ..p })
    &&& q.progress matches Some(x) && x.progress == progress && x.total == total && opt_view(
        x.message,
    ) == message && x.updated_at == now
}

/// Whether `b` is `a` with word of the progress of the command that the
/// instance holds.
pub open spec fn all_progressed(
    a: Seq<CommandRow>,
    b: Seq<CommandRow>,
    id: i64,
    instance: Seq<char>,
    progress: u64,
    total: Option<u64>,
    message: Option<Seq<char>>,
    now: i64,
) -> bool {
    a.len() == b.len() && forall|i: int|
        #![trigger b[i]]
        0 <= i < a.len() ==> if is_held(a[i], id, instance) {
            progressed(a[i], b[i], progress, total, message, now)
        } else {
            b[i] == a[i]
        }
}

/// The condition of being the command with that number.
pub open spec fn with_command_id(id: i64) -> spec_fn(CommandRow) -> bool {
    |r: CommandRow| r.command_id == id
}

/// Whether the record shows how far the command has come.
pub open spec fn shows_progress(row: Option<ProgressRow>, r: Option<AhpCommandProgressRecord>) -> bool {
    match row {
        None => r is None,
        Some(p) => r matches Some(x) && x.progress == p.progress && x.total == p.total && x.message
            == p.message && x.updated_at == p.updated_at,
    }
}

/// Whether the record shows what has become of the command.
pub open spec fn shows_command(row: CommandRow, r: AhpCommandStatusRecord) -> bool {
    &&& r.command_id == row.command_id
    &&& r.kind == row.kind
    &&& r.state@ == row.state.label()
    &&& r.error_code == row.error_code
    &&& opt_data(r.result) == opt_data(row.result)
    &&& shows_progress(row.progress, r.progress)
}

/// What comes of word of how far a command has come.
pub open spec fn progress_outcome(
    a: Database,
    b: Database,
    adapter: Seq<char>,
    instance: Seq<char>,
    command_id: i64,
    progress: u64,
    total: Option<u64>,
    message: Option<Seq<char>>,
    now: i64,
    r: Result<(), Failure>,
) -> bool {
    match r {
        Err(f) => b == a && if !a.is_registered(
            adapter,
            instance,
        ) {
            f.message@ == not_registered()
        } else {
            f.message@ == "AHP command progress targets a stale or inactive lease"@
                && forall|i: int|
                0 <= i < a.commands@.len() ==> !is_held(
                    #[trigger] a.commands@[i],
                    command_id,
                    instance,
                )
        },
        Ok(()) => {
            &&& a.is_registered(adapter, instance)
            &&& exists|i: int|
                0 <= i < a.commands@.len() && is_held(
                    #[trigger] a.commands@[i],
                    command_id,
                    instance,
                )
            &&& b == (Database {
                commands: b.commands,
                ..a
            })
            &&& all_progressed(
                a.commands@,
                b.commands@,
                command_id,
                instance,
                progress,
                total,
                message,
                now,
            )
        },
    }
}

impl Database {
    /// Takes note of how far the adapter has come with a command that it holds.
    pub fn ahp_record_command_progress(
        &mut self,
        adapter_id: &str,
        adapter_instance_id: &str,
        command_id: i64,
        progress: u64,
        total: Option<u64>,
        message: Option<&str>,
        now: i64,
    ) -> (r: Result<(), Failure>)
        requires
            old(self).wf(),
        ensures
            final(self).wf(),
            progress_outcome(
                *old(self),
                *final(self),
                adapter_id@,
                adapter_instance_id@,
                command_id,
                progress,
                total,
                opt_str_view(message),
                now,
                r,
            ),
    {
        if !self.adapter_is_registered(adapter_id, adapter_instance_id) {
            return Err(failure("AHP adapter identity is not registered"));
        }
        let at = match self.find_held(command_id, adapter_instance_id) {
            None => {
                return Err(failure("AHP command progress targets a stale or inactive lease"));
            },
            Some(i) => i,
        };
        let ghost a = *self;
        proof {
            self.lemma_held_is_unique(at as int, command_id, adapter_instance_id@);
        }
        self.commands[at].progress = Some(
            ProgressRow { progress, total, message: owned(message), updated_at: now },
        );
        self.commands[at].updated_at = now;
        proof {
            lemma_same_commands(a.commands@, self.commands@, self.next_command_id);
            assert(is_held(a.commands@[at as int], command_id, adapter_instance_id@));
        }
        Ok(())
    }

    /// What has become of the command with that number.
    pub fn ahp_command_status(&self, command_id: i64) -> (r: Option<AhpCommandStatusRecord>)
        ensures
            match first(self.commands@, with_command_id(command_id)) {
                Some(row) => r matches Some(s) && shows_command(row, s),
                None => r is None,
            },
    {
        let test = |r: &CommandRow| -> (b: bool)
            ensures
                b == (with_command_id(command_id))(*r),
        { r.command_id == command_id };
        match find(&self.commands, test, Ghost(with_command_id(command_id))) {
            None => None,
            Some(i) => {
                let row = &self.commands[i];
                let progress = match &row.progress {
                    None => None,
                    Some(p) => Some(
                        AhpCommandProgressRecord {
                            progress: p.progress,
                            total: p.total,
                            message: p.message.clone(),
                            updated_at: p.updated_at,
                        },
                    ),
                };
                let result = match &row.result {
                    None => None,
                    Some(j) => Some(j.duplicate()),
                };
                Some(
                    AhpCommandStatusRecord {
                        command_id: row.command_id,
                        kind: row.kind,
                        state: row.state.as_str().to_owned(),
                        error_code: row.error_code.clone(),
                        result,
                        progress,
                    },
                )
            },
        }
    }
}

} // verus!
