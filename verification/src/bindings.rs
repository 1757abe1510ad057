//! The sessions that are tracked: which of them is in the foreground, how a
//! session comes to be tracked, and which one has to make room for it.
use vstd::prelude::*;
use vstd::string::*;

use crate::commands::{enqueued, opt_text_member, opt_text_tree, text_member};
use crate::config::{failure, Failure};
use crate::json::{lemma_members_are, Json, Member, Tree};
use crate::protocol::{AhpBindingRecord, AhpCommandKind};

use crate::store::{
    commands_wf, is_open_command, is_open_decision, is_open_input, is_tracked, new_uuid, tracking, uuid_text,
    BindingRow, BindingState, CatalogRow, CommandRow, CommandState, Database, DecisionRow,
    DecisionState, ForegroundRow, InputRow, InputState, MAX_TRACKED_AHP_SESSIONS,
};
use crate::tables::{
    changed, count, count_rows, find, first, is_selection, least, lemma_count_drops,
    lemma_count_same, lemma_filter_push, lemma_first, lemma_first_holds, lemma_first_none, opt_is,
    precedes, select, unique, SortKey,
};
use crate::text::{cat3, integer, integer_text, opt_view, str_eq};

verus! {

broadcast use vstd::string::group_string_axioms;

// ---------------------------------------------------------------------------
// Looking up

/// The condition of being the tracked session with that identifier.
pub open spec fn with_binding_id(id: Seq<char>) -> spec_fn(BindingRow) -> bool {
    |r: BindingRow| r.binding_id@ == id
}

/// The condition of being the tracked session at that address.
pub open spec fn with_session(uri: Seq<char>) -> spec_fn(BindingRow) -> bool {
    |r: BindingRow| r.session_uri@ == uri
}

/// The condition of being the catalogued session at that address.
pub open spec fn at_uri(uri: Seq<char>) -> spec_fn(CatalogRow) -> bool {
    |r: CatalogRow| r.session_uri@ == uri
}

/// The condition of being the command with that key.
pub open spec fn with_key(key: Seq<char>) -> spec_fn(CommandRow) -> bool {
    |r: CommandRow| r.command_key@ == key
}

impl Database {
    /// The session of the catalogue at that address.
    pub open spec fn catalog_row(self, uri: Seq<char>) -> Option<CatalogRow> {
        first(self.catalog@, at_uri(uri))
    }

    /// The tracked session at that address.
    pub open spec fn binding_of(self, uri: Seq<char>) -> Option<BindingRow> {
        first(self.bindings@, with_session(uri))
    }

    /// The tracked session with that identifier.
    pub open spec fn binding_with(self, id: Seq<char>) -> Option<BindingRow> {
        first(self.bindings@, with_binding_id(id))
    }

    /// The command with that key.
    pub open spec fn command_with(self, key: Seq<char>) -> Option<CommandRow> {
        first(self.commands@, with_key(key))
    }

    /// Whether the tracked session with that identifier is in the foreground.
    pub open spec fn in_foreground(self, id: Seq<char>) -> bool {
        self.foreground matches Some(f) && f.binding_id@ == id
    }

    /// How many sessions are tracked and not about to be let go.
    pub open spec fn tracked_count(self) -> nat {
        count(self.bindings@, tracking())
    }

    /// Whether command numbers and generations are left to be given out.
    pub open spec fn has_room(self) -> bool {
        self.next_command_id < i64::MAX - 4 && self.generations_left()
    }

    /// Whether generations are left to be given out.
    pub open spec fn generations_left(self) -> bool {
        forall|i: int|
            0 <= i < self.bindings@.len() ==> (#[trigger] self.bindings@[i]).generation < i64::MAX
    }

    /// Whether a command for that tracked session has not been disposed of.
    pub open spec fn has_open_commands(self, id: Seq<char>) -> bool {
        exists|i: int|
            0 <= i < self.commands@.len() && (#[trigger] self.commands@[i]).binding_id@ == id
                && is_open_command(self.commands@[i])
    }

    /// Whether the session waits for an approval.
    pub open spec fn has_open_decisions(self, uri: Seq<char>) -> bool {
        exists|i: int|
            0 <= i < self.decisions@.len() && (#[trigger] self.decisions@[i]).session_uri@ == uri
                && is_open_decision(self.decisions@[i])
    }

    /// Whether the session waits for an input.
    pub open spec fn has_open_inputs(self, uri: Seq<char>) -> bool {
        exists|i: int|
            0 <= i < self.inputs@.len() && (#[trigger] self.inputs@[i]).session_uri@ == uri
                && is_open_input(self.inputs@[i])
    }

    /// Whether anything is under way for the tracked session: a command, an
    /// approval or an input.
    pub open spec fn is_busy(self, row: BindingRow) -> bool {
        self.has_open_commands(row.binding_id@) || self.has_open_decisions(row.session_uri@)
            || self.has_open_inputs(row.session_uri@)
    }

    /// Whether the tracked session may be let go for another: it is in the
    /// background, it has arrived or is lost or failed, no turn is running, no
    /// message is queued, and nothing is under way for it.
    pub open spec fn is_evictable(self, row: BindingRow) -> bool {
        &&& !self.in_foreground(row.binding_id@)
        &&& row.state == BindingState::Bound || row.state == BindingState::Lost || row.state
            == BindingState::Failed
        &&& row.active_turn_id is None
        &&& row.queued_message_count == 0
        &&& !self.is_busy(row)
    }
}

/// Whether the number of queued messages can be shown.
pub open spec fn fits(row: BindingRow) -> bool {
    row.queued_message_count <= u32::MAX
}

/// What is said where a number cannot be shown.
pub open spec fn out_of_range() -> Seq<char> {
    "out of range integral type conversion attempted"@
}

/// A number that is not below zero.
pub open spec fn not_negative(n: i64) -> int {
    if n < 0 {
        0
    } else {
        n as int
    }
}

/// Whether the record shows the tracked session, with what the catalogue knows
/// of it.
pub open spec fn shows(db: Database, row: BindingRow, r: AhpBindingRecord) -> bool {
    let c = db.catalog_row(row.session_uri@);
    &&& r.binding_id == row.binding_id
    &&& r.generation == row.generation
    &&& r.endpoint_id == row.endpoint_id
    &&& r.host_instance_id == row.host_instance_id
    &&& r.session_uri == row.session_uri
    &&& r.chat_uri == row.chat_uri
    &&& r.state@ == row.state.label()
    &&& r.last_server_sequence == not_negative(row.last_server_sequence)
    &&& r.active_turn_id == row.active_turn_id
    &&& r.queued_message_count == not_negative(row.queued_message_count)
    &&& r.last_activity_at == row.last_activity_at
    &&& r.foreground == db.in_foreground(row.binding_id@)
    &&& match c {
        Some(c) => r.host_label == c.host_label && r.ssh_alias == c.ssh_alias && r.target_kind
            == c.target_kind && r.target_path == c.target_path && r.editor_client_tools_available
            == Some(c.editor_client_tools_available),
        None => r.host_label is None && r.ssh_alias is None && r.target_kind is None
            && r.target_path is None && r.editor_client_tools_available is None,
    }
}

impl Database {
    pub(crate) fn find_catalog(&self, uri: &str) -> (r: Option<usize>)
        ensures
            match r {
                Some(i) => i < self.catalog@.len() && self.catalog@[i as int].session_uri@ == uri@
                    && self.catalog_row(uri@) == Some(self.catalog@[i as int]),
                None => self.catalog_row(uri@) is None && forall|j: int|
                    0 <= j < self.catalog@.len() ==> (#[trigger] self.catalog@[j]).session_uri@
                        != uri@,
            },
    {
        let test = |r: &CatalogRow| -> (b: bool)
            ensures
                b == (r.session_uri@ == uri@),
        { str_eq(r.session_uri.as_str(), uri) };
        find(&self.catalog, test, Ghost(at_uri(uri@)))
    }

    pub(crate) fn find_binding_of(&self, uri: &str) -> (r: Option<usize>)
        ensures
            match r {
                Some(i) => i < self.bindings@.len() && self.bindings@[i as int].session_uri@ == uri@
                    && self.binding_of(uri@) == Some(self.bindings@[i as int]),
                None => self.binding_of(uri@) is None && forall|j: int|
                    0 <= j < self.bindings@.len() ==> (#[trigger] self.bindings@[j]).session_uri@
                        != uri@,
            },
    {
        let test = |r: &BindingRow| -> (b: bool)
            ensures
                b == (r.session_uri@ == uri@),
        { str_eq(r.session_uri.as_str(), uri) };
        find(&self.bindings, test, Ghost(with_session(uri@)))
    }

    pub(crate) fn find_binding(&self, id: &str) -> (r: Option<usize>)
        ensures
            match r {
                Some(i) => i < self.bindings@.len() && self.bindings@[i as int].binding_id@ == id@
                    && self.binding_with(id@) == Some(self.bindings@[i as int]),
                None => self.binding_with(id@) is None && forall|j: int|
                    0 <= j < self.bindings@.len() ==> (#[trigger] self.bindings@[j]).binding_id@
                        != id@,
            },
    {
        let test = |r: &BindingRow| -> (b: bool)
            ensures
                b == (r.binding_id@ == id@),
        { str_eq(r.binding_id.as_str(), id) };
        find(&self.bindings, test, Ghost(with_binding_id(id@)))
    }

    pub(crate) fn find_command(&self, key: &str) -> (r: Option<usize>)
        ensures
            match r {
                Some(i) => i < self.commands@.len() && self.commands@[i as int].command_key@ == key@
                    && self.command_with(key@) == Some(self.commands@[i as int]),
                None => self.command_with(key@) is None && forall|j: int|
                    0 <= j < self.commands@.len() ==> (#[trigger] self.commands@[j]).command_key@
                        != key@,
            },
    {
        let test = |r: &CommandRow| -> (b: bool)
            ensures
                b == (r.command_key@ == key@),
        { str_eq(r.command_key.as_str(), key) };
        find(&self.commands, test, Ghost(with_key(key@)))
    }

    fn is_in_foreground(&self, id: &str) -> (r: bool)
        ensures
            r == self.in_foreground(id@),
    {
        match &self.foreground {
            Some(f) => str_eq(f.binding_id.as_str(), id),
            None => false,
        }
    }

    fn any_open_commands(&self, id: &str) -> (r: bool)
        ensures
            r == self.has_open_commands(id@),
    {
        let test = |r: &CommandRow| -> (b: bool)
            ensures
                b == (r.binding_id@ == id@ && is_open_command(*r)),
        {
                    str_eq(r.binding_id.as_str(), id) && (r.state == CommandState::Pending
                        || r.state == CommandState::Leased)
                };
        match find(&self.commands, test, Ghost(|r: CommandRow| r.binding_id@ == id@ && is_open_command(r))) {
            Some(i) => {
                assert(is_open_command(self.commands@[i as int]));
                true
            },
            None => {
                assert forall|j: int| 0 <= j < self.commands@.len() implies !(
                (#[trigger] self.commands@[j]).binding_id@ == id@ && is_open_command(
                    self.commands@[j],
                )) by {}
                false
            },
        }
    }

    fn any_open_decisions(&self, uri: &str) -> (r: bool)
        ensures
            r == self.has_open_decisions(uri@),
    {
        let test = |r: &DecisionRow| -> (b: bool)
            ensures
                b == (r.session_uri@ == uri@ && is_open_decision(*r)),
        {
                    str_eq(r.session_uri.as_str(), uri) && (r.state == DecisionState::Pending
                        || r.state == DecisionState::Submitted)
                };
        match find(&self.decisions, test, Ghost(|r: DecisionRow| r.session_uri@ == uri@ && is_open_decision(r))) {
            Some(i) => {
                assert(is_open_decision(self.decisions@[i as int]));
                true
            },
            None => {
                assert forall|j: int| 0 <= j < self.decisions@.len() implies !(
                (#[trigger] self.decisions@[j]).session_uri@ == uri@ && is_open_decision(
                    self.decisions@[j],
                )) by {}
                false
            },
        }
    }

    fn any_open_inputs(&self, uri: &str) -> (r: bool)
        ensures
            r == self.has_open_inputs(uri@),
    {
        let test = |r: &InputRow| -> (b: bool)
            ensures
                b == (r.session_uri@ == uri@ && is_open_input(*r)),
        {
                    str_eq(r.session_uri.as_str(), uri) && (r.state == InputState::Pending
                        || r.state == InputState::Submitted)
                };
        match find(&self.inputs, test, Ghost(|r: InputRow| r.session_uri@ == uri@ && is_open_input(r))) {
            Some(i) => {
                assert(is_open_input(self.inputs@[i as int]));
                true
            },
            None => {
                assert forall|j: int| 0 <= j < self.inputs@.len() implies !(
                (#[trigger] self.inputs@[j]).session_uri@ == uri@ && is_open_input(
                    self.inputs@[j],
                )) by {}
                false
            },
        }
    }

    fn is_under_way(&self, i: usize) -> (r: bool)
        requires
            i < self.bindings@.len(),
        ensures
            r == self.is_busy(self.bindings@[i as int]),
    {
        let row = &self.bindings[i];
        self.any_open_commands(row.binding_id.as_str()) || self.any_open_decisions(
            row.session_uri.as_str(),
        ) || self.any_open_inputs(row.session_uri.as_str())
    }

    /// The record that shows a tracked session.
    pub(crate) fn binding_record(&self, i: usize) -> (r: Result<AhpBindingRecord, Failure>)
        requires
            i < self.bindings@.len(),
        ensures
            match r {
                Ok(record) => fits(self.bindings@[i as int]) && shows(
                    *self,
                    self.bindings@[i as int],
                    record,
                ),
                Err(f) => !fits(self.bindings@[i as int]) && f.message@ == out_of_range(),
            },
    {
        let row = &self.bindings[i];
        if row.queued_message_count > u32::MAX as i64 {
            return Err(failure("out of range integral type conversion attempted"));
        }
        let queued: u32 = if row.queued_message_count < 0 {
            0
        } else {
            row.queued_message_count as u32
        };
        let sequence: u64 = if row.last_server_sequence < 0 {
            0
        } else {
            row.last_server_sequence as u64
        };
        let foreground = self.is_in_foreground(row.binding_id.as_str());
        let c = self.find_catalog(row.session_uri.as_str());
        let (host_label, ssh_alias, target_kind, target_path, tools) = match c {
            Some(k) => {
                let s = &self.catalog[k];
                (
                    s.host_label.clone(),
                    s.ssh_alias.clone(),
                    s.target_kind,
                    s.target_path.clone(),
                    Some(s.editor_client_tools_available),
                )
            },
            None => (None, None, None, None, None),
        };
        Ok(
            AhpBindingRecord {
                binding_id: row.binding_id.clone(),
                generation: row.generation,
                endpoint_id: row.endpoint_id.clone(),
                host_instance_id: row.host_instance_id.clone(),
                session_uri: row.session_uri.clone(),
                chat_uri: row.chat_uri.clone(),
                state: row.state.as_str().to_owned(),
                last_server_sequence: sequence,
                active_turn_id: row.active_turn_id.clone(),
                queued_message_count: queued,
                last_activity_at: row.last_activity_at,
                foreground,
                host_label,
                ssh_alias,
                target_kind,
                target_path,
                editor_client_tools_available: tools,
            },
        )
    }

    /// What is shown of one tracked session, if there is one.
    pub open spec fn shown(
        self,
        row: Option<BindingRow>,
        r: Result<Option<AhpBindingRecord>, Failure>,
    ) -> bool {
        match row {
            None => r matches Ok(None),
            Some(row) => match r {
                Ok(Some(record)) => fits(row) && shows(self, row, record),
                Ok(None) => false,
                Err(f) => !fits(row) && f.message@ == out_of_range(),
            },
        }
    }

    /// The tracked session at that address.
    pub fn ahp_binding_for_session(&self, session_uri: &str) -> (r: Result<
        Option<AhpBindingRecord>,
        Failure,
    >)
        ensures
            self.shown(self.binding_of(session_uri@), r),
    {
        match self.find_binding_of(session_uri) {
            Some(i) => match self.binding_record(i) {
                Ok(record) => Ok(Some(record)),
                Err(f) => Err(f),
            },
            None => Ok(None),
        }
    }

    /// The tracked session in the foreground, unless it is about to be let go.
    pub open spec fn foreground_row(self) -> Option<BindingRow> {
        match self.foreground {
            Some(f) => match self.binding_with(f.binding_id@) {
                Some(row) => if is_tracked(row) {
                    Some(row)
                } else {
                    None
                },
                None => None,
            },
            None => None,
        }
    }

    /// The tracked session in the foreground, unless it is about to be let go.
    pub fn ahp_binding(&self) -> (r: Result<Option<AhpBindingRecord>, Failure>)
        ensures
            self.shown(self.foreground_row(), r),
    {
        match &self.foreground {
            Some(f) => match self.find_binding(f.binding_id.as_str()) {
                Some(i) => {
                    if self.bindings[i].state == BindingState::Detaching {
                        return Ok(None);
                    }
                    match self.binding_record(i) {
                        Ok(record) => Ok(Some(record)),
                        Err(f) => Err(f),
                    }
                },
                None => Ok(None),
            },
            None => Ok(None),
        }
    }

    /// What the tracked sessions are ordered by: the foreground first, then the
    /// latest activity, then the identifier.
    pub open spec fn shown_by(self) -> spec_fn(BindingRow) -> (int, int, Seq<char>) {
        |r: BindingRow|
            (
                if self.in_foreground(r.binding_id@) {
                    0int
                } else {
                    1int
                },
                -(r.last_activity_at as int),
                r.binding_id@,
            )
    }

    /// Whether the positions are those of the tracked sessions, each once, in
    /// the order in which they are shown.
    pub open spec fn is_listing(self, picks: Seq<usize>) -> bool {
        is_selection(
            self.bindings@,
            tracking(),
            self.shown_by(),
            false,
            picks,
        )
    }

    /// Whether the records show the tracked sessions at these positions.
    pub open spec fn lists(self, picks: Seq<usize>, records: Seq<AhpBindingRecord>) -> bool {
        &&& self.is_listing(picks)
        &&& records.len() == picks.len()
        &&& forall|k: int|
            #![trigger picks[k]]
            #![trigger records[k]]
            0 <= k < picks.len() ==> fits(self.bindings@[picks[k] as int]) && shows(
                self,
                self.bindings@[picks[k] as int],
                records[k],
            )
    }

    /// Whether some tracked session cannot be shown.
    pub open spec fn some_unfit(self) -> bool {
        exists|i: int|
            0 <= i < self.bindings@.len() && is_tracked(#[trigger] self.bindings@[i]) && !fits(
                self.bindings@[i],
            )
    }

    /// The positions of the tracked sessions in the order in which they are shown.
    pub(crate) fn listing(&self) -> (r: Vec<usize>)
        ensures
            self.is_listing(r@),
    {
        let test = |r: &BindingRow| -> (b: bool)
            ensures
                b == is_tracked(*r),
        { r.state != BindingState::Detaching };
        let key = |r: &BindingRow| -> (s: SortKey)
            ensures
                s@ == (self.shown_by())(*r),
        {
            SortKey {
                first: if self.is_in_foreground(r.binding_id.as_str()) {
                    0
                } else {
                    1
                },
                second: -(r.last_activity_at as i128),
                text: r.binding_id.clone(),
            }
        };
        select(
            &self.bindings,
            test,
            key,
            false,
            Ghost(tracking()),
            Ghost(self.shown_by()),
        )
    }

    /// The tracked sessions: the foreground first, then the latest activity.
    pub fn ahp_bindings(&self) -> (r: Result<Vec<AhpBindingRecord>, Failure>)
        ensures
            match r {
                Ok(records) => exists|picks: Seq<usize>| #[trigger] self.lists(picks, records@),
                Err(f) => self.some_unfit() && f.message@ == out_of_range(),
            },
            self.some_unfit() ==> r is Err,
    {
        let at = self.listing();
        let mut records: Vec<AhpBindingRecord> = Vec::new();
        let mut k: usize = 0;
        while k < at.len()
            invariant
                k <= at@.len(),
                self.is_listing(at@),
                records@.len() == k,
                forall|l: int|
                    #![trigger at@[l]]
                    #![trigger records@[l]]
                    0 <= l < k ==> fits(self.bindings@[at@[l] as int]) && shows(
                        *self,
                        self.bindings@[at@[l] as int],
                        records@[l],
                    ),
            decreases at@.len() - k,
        {
            let shown = self.binding_record(at[k]);
            match shown {
                Ok(record) => {
                    records.push(record);
                },
                Err(f) => {
                    assert(is_tracked(self.bindings@[at@[k as int] as int]));
                    return Err(f);
                },
            }
            k += 1;
        }
        proof {
            assert forall|i: int| 0 <= i < self.bindings@.len() && is_tracked(
                #[trigger] self.bindings@[i],
            ) implies fits(self.bindings@[i]) by {
                let l = choose|l: int| 0 <= l < at@.len() && #[trigger] at@[l] == i;
                assert(shows(*self, self.bindings@[at@[l] as int], records@[l]));
            }
        }
        let r: Result<Vec<AhpBindingRecord>, Failure> = Ok(records);
        assert(self.lists(at@, r->Ok_0@));
        r
    }
}

// ---------------------------------------------------------------------------
// Changing one tracked session

/// Whether `b` is `a` with the tracked session marked as just used.
pub open spec fn touched(a: Database, b: Database, id: Seq<char>, now: i64) -> bool {
    &&& b == (Database { bindings: b.bindings, ..a })
    &&& changed(
        a.bindings@,
        b.bindings@,
        |p: BindingRow, q: BindingRow|
            q == (if p.binding_id@ == id && is_tracked(p) {
                BindingRow { last_activity_at: now, updated_at: now, ..p }
            } else {
                p
            }),
    )
}

/// The key of the command that binds a session.
pub open spec fn bind_key(id: Seq<char>, generation: i64) -> Seq<char> {
    "bind:"@ + id + ":"@ + integer(generation as int)
}

/// The key of the command that lets a session go.
pub open spec fn unbind_key(id: Seq<char>, generation: i64) -> Seq<char> {
    "unbind:"@ + id + ":"@ + integer(generation as int)
}

/// What the command that binds a session says.
pub open spec fn bind_data(endpoint: Seq<char>, host: Seq<char>, uri: Seq<char>) -> Tree {
    Tree::Object(
        seq![
            ("endpoint_id"@, Tree::Text(endpoint)),
            ("host_instance_id"@, Tree::Text(host)),
            ("session_uri"@, Tree::Text(uri)),
        ],
    )
}

/// What the command that lets a session go says.
pub open spec fn unbind_data(row: BindingRow) -> Tree {
    Tree::Object(
        seq![
            ("session_uri"@, Tree::Text(row.session_uri@)),
            ("chat_uri"@, opt_text_tree(row.chat_uri)),
        ],
    )
}

/// Whether `b` is `a` with the command queued, and queued again where it had
/// failed before.
pub open spec fn requeued(
    a: Database,
    b: Database,
    key: Seq<char>,
    binding: Seq<char>,
    generation: i64,
    kind: AhpCommandKind,
    data: Tree,
    now: i64,
) -> bool {
    exists|m: Database, id: i64|
        {
            &&& #[trigger] enqueued(a, m, key, binding, generation, kind, data, now, id)
            &&& b == (Database { commands: b.commands, ..m })
            &&& changed(
                m.commands@,
                b.commands@,
                |p: CommandRow, q: CommandRow|
                    q == (if p.command_id == id && p.state == CommandState::Failed {
                        CommandRow {
                            state: CommandState::Pending,
                            lease_owner: None,
                            lease_expires_at: None,
                            error_code: None,
                            updated_at: now,
                            ..p
                        }
                    } else {
                        p
                    }),
            )
        }
}

/// Whether `b` is `a` with the tracked session about to be let go: it leaves
/// the foreground, and the adapter is asked to let it go.
pub open spec fn let_go(a: Database, b: Database, row: BindingRow, reason: Seq<char>, now: i64) -> bool {
    exists|m: Database|
        {
            &&& m == (Database { bindings: m.bindings, foreground: m.foreground, ..a })
            &&& changed(
                a.bindings@,
                m.bindings@,
                |p: BindingRow, q: BindingRow|
                    if p.binding_id@ == row.binding_id@ {
                        q == (BindingRow {
                            state: BindingState::Detaching,
                            error_code: q.error_code,
                            updated_at: now,
                            ..p
                        }) && opt_view(q.error_code) == Some(reason)
                    } else {
                        q == p
                    },
            )
            &&& m.foreground == (if a.in_foreground(row.binding_id@) {
                None
            } else {
                a.foreground
            })
            &&& #[trigger] requeued(
                m,
                b,
                unbind_key(row.binding_id@, row.generation),
                row.binding_id@,
                row.generation,
                AhpCommandKind::UnbindSession,
                unbind_data(row),
                now,
            )
        }
}

/// Why a tracked session cannot be let go.
pub open spec fn detach_fault(db: Database, row: BindingRow) -> Option<Seq<char>> {
    if row.state == BindingState::Detaching {
        None
    } else if row.active_turn_id is Some || row.queued_message_count > 0 {
        Some("cannot detach an AHP Session with an active Turn or queued message"@)
    } else if db.is_busy(row) {
        Some("cannot detach an AHP Session with pending commands or interactions"@)
    } else {
        None
    }
}

/// Whether the tracked session `a` is a better foreground than `b`: one with a
/// running turn, then the latest activity, then the identifier.
pub open spec fn foreground_by() -> spec_fn(BindingRow) -> (int, int, Seq<char>) {
    |r: BindingRow|
        (
            if r.active_turn_id is Some {
                0int
            } else {
                1int
            },
            -(r.last_activity_at as int),
            r.binding_id@,
        )
}

/// Whether `b` is `a` with a foreground, if any session is tracked: the one it
/// had, else the best one.
pub open spec fn replaced(a: Database, b: Database, now: i64) -> bool {
    if a.foreground is Some || forall|i: int|
        0 <= i < a.bindings@.len() ==> !is_tracked(#[trigger] a.bindings@[i]) {
        b == a
    } else {
        exists|i: int|
            {
                &&& 0 <= i < a.bindings@.len()
                &&& is_tracked(#[trigger] a.bindings@[i])
                &&& forall|j: int|
                    0 <= j < a.bindings@.len() && is_tracked(#[trigger] a.bindings@[j])
                        ==> !precedes(
                        foreground_by()(a.bindings@[j]),
                        foreground_by()(a.bindings@[i]),
                        false,
                    )
                &&& b == (Database { foreground: b.foreground, ..a })
                &&& b.foreground is Some
                &&& b.foreground->0.binding_id == a.bindings@[i].binding_id
                &&& b.foreground->0.updated_at == now
            }
    }
}

/// What tracked sessions are let go by: a failed one first, then a lost one,
/// then the one that has been idle longest.
pub open spec fn evicted_by() -> spec_fn(BindingRow) -> (int, int, Seq<char>) {
    |r: BindingRow|
        (
            if r.state == BindingState::Failed {
                0int
            } else if r.state == BindingState::Lost {
                1int
            } else {
                2int
            },
            r.last_activity_at as int,
            r.binding_id@,
        )
}

/// Whether the tracked session at that position is the one to be let go next.
pub open spec fn is_next_victim(db: Database, i: int) -> bool {
    &&& 0 <= i < db.bindings@.len()
    &&& db.is_evictable(db.bindings@[i])
    &&& forall|j: int|
        0 <= j < db.bindings@.len() && db.is_evictable(#[trigger] db.bindings@[j]) ==> !precedes(
            evicted_by()(db.bindings@[j]),
            evicted_by()(db.bindings@[i]),
            false,
        )
}

/// Whether `b` is `a` with room for one more tracked session: where too many
/// are tracked, the next victim is let go.
pub open spec fn room_made(a: Database, b: Database, max: nat, now: i64) -> bool {
    if a.tracked_count() < max {
        b == a
    } else {
        exists|i: int|
            #[trigger] is_next_victim(a, i) && let_go(
                a,
                b,
                a.bindings@[i],
                "lru_eviction"@,
                now,
            )
    }
}

/// Why there is no room for one more tracked session.
pub open spec fn room_fault(db: Database, max: nat) -> Option<Seq<char>> {
    if max == 0 {
        Some("AHP tracked Session limit must be non-zero"@)
    } else if db.tracked_count() >= max && forall|i: int|
        0 <= i < db.bindings@.len() ==> !db.is_evictable(#[trigger] db.bindings@[i]) {
        Some(
            "all five tracked AHP Sessions are active, foreground, queued, or awaiting interaction"@,
        )
    } else {
        None
    }
}

/// The generation that is given out next.
pub open spec fn is_next_generation(rows: Seq<BindingRow>, g: i64) -> bool {
    if rows.len() == 0 {
        g == 1
    } else {
        &&& forall|i: int| 0 <= i < rows.len() ==> (#[trigger] rows[i]).generation < g
        &&& exists|i: int| 0 <= i < rows.len() && (#[trigger] rows[i]).generation + 1 == g
    }
}

/// Whether the commands of a tracked session that were not disposed of have
/// failed for that reason, and no other command has changed.
pub open spec fn commands_failed(
    a: Seq<CommandRow>,
    b: Seq<CommandRow>,
    id: Seq<char>,
    reason: Seq<char>,
    now: i64,
) -> bool {
    changed(
        a,
        b,
        |p: CommandRow, q: CommandRow|
            if p.binding_id@ == id && is_open_command(p) {
                q == (CommandRow {
                    state: CommandState::Failed,
                    error_code: q.error_code,
                    updated_at: now,
                    ..p
                }) && opt_view(q.error_code) == Some(reason)
            } else {
                q == p
            },
    )
}

impl Database {
    pub(crate) fn touch_at(&mut self, i: usize, now: i64)
        requires
            old(self).wf(),
            i < old(self).bindings@.len(),
            is_tracked(old(self).bindings@[i as int]),
        ensures
            final(self).wf(),
            touched(*old(self), *final(self), old(self).bindings@[i as int].binding_id@, now),
            final(self).tracked_count() == old(self).tracked_count(),
            final(self).bindings@.len() == old(self).bindings@.len(),
            final(self).bindings@[i as int] == (BindingRow {
                last_activity_at: now,
                updated_at: now,
                ..old(self).bindings@[i as int]
            }),
    {
        self.bindings[i].last_activity_at = now;
        self.bindings[i].updated_at = now;
        proof {
            lemma_count_same(old(self).bindings@, self.bindings@, tracking());
            self.lemma_same_bindings(*old(self));
        }
    }

    /// Rows of tracked sessions whose identifiers, sessions and states are the
    /// same keep what holds of the tables.
    pub(crate) proof fn lemma_same_bindings(self, old: Database)
        requires
            old.wf(),
            self == (Database { bindings: self.bindings, ..old }),
            self.bindings@.len() == old.bindings@.len(),
            forall|i: int|
                0 <= i < old.bindings@.len() ==> (#[trigger] self.bindings@[i]).binding_id@
                    == old.bindings@[i].binding_id@ && self.bindings@[i].session_uri@
                    == old.bindings@[i].session_uri@,
        ensures
            self.wf(),
    {
        if let Some(f) = self.foreground {
            let i = choose|i: int|
                0 <= i < old.bindings@.len() && (#[trigger] old.bindings@[i]).binding_id@
                    == f.binding_id@;
            assert(self.bindings@[i].binding_id@ == f.binding_id@);
        }
    }

    fn requeue_command(
        &mut self,
        key: &str,
        binding_id: &str,
        generation: i64,
        kind: AhpCommandKind,
        data: &Json,
        now: i64,
    )
        requires
            old(self).wf(),
            old(self).next_command_id < i64::MAX,
        ensures
            final(self).wf(),
            final(self).bindings == old(self).bindings,
            requeued(
                *old(self),
                *final(self),
                key@,
                binding_id@,
                generation,
                kind,
                data@,
                now,
            ),
    {
        let id = self.enqueue_command(key, binding_id, generation, kind, data, now);
        let ghost m = *self;
        let mut i: usize = 0;
        while i < self.commands.len()
            invariant
                i <= self.commands@.len(),
                *self == (Database { commands: self.commands, ..m }),
                self.commands@.len() == m.commands@.len(),
                forall|j: int|
                    0 <= j < i ==> #[trigger] self.commands@[j] == (if m.commands@[j].command_id
                        == id && m.commands@[j].state == CommandState::Failed {
                        CommandRow {
                            state: CommandState::Pending,
                            lease_owner: None,
                            lease_expires_at: None,
                            error_code: None,
                            updated_at: now,
                            ..m.commands@[j]
                        }
                    } else {
                        m.commands@[j]
                    }),
                forall|j: int|
                    i <= j < self.commands@.len() ==> #[trigger] self.commands@[j]
                        == m.commands@[j],
            decreases self.commands@.len() - i,
        {
            if self.commands[i].command_id == id && self.commands[i].state == CommandState::Failed {
                self.commands[i].state = CommandState::Pending;
                self.commands[i].lease_owner = None;
                self.commands[i].lease_expires_at = None;
                self.commands[i].error_code = None;
                self.commands[i].updated_at = now;
            }
            i += 1;
        }
        assert(enqueued(
            *old(self),
            m,
            key@,
            binding_id@,
            generation,
            kind,
            data@,
            now,
            id,
        ));
    }

    /// Asks the adapter to let a tracked session go.
    fn detach_binding(&mut self, i: usize, now: i64, reason: &str) -> (r: Result<(), Failure>)
        requires
            old(self).wf(),
            old(self).has_room(),
            i < old(self).bindings@.len(),
            fits(old(self).bindings@[i as int]),
        ensures
            final(self).wf(),
            match r {
                Err(f) => *final(self) == *old(self) && detach_fault(
                    *old(self),
                    old(self).bindings@[i as int],
                ) == Some(f.message@),
                Ok(()) => {
                    &&& detach_fault(*old(self), old(self).bindings@[i as int]) is None
                    &&& if old(self).bindings@[i as int].state == BindingState::Detaching {
                        *final(self) == *old(self)
                    } else {
                        let_go(
                            *old(self),
                            *final(self),
                            old(self).bindings@[i as int],
                            reason@,
                            now,
                        )
                    }
                    &&& final(self).same_generations(*old(self))
                },
            },
            r is Ok && is_tracked(old(self).bindings@[i as int]) ==> final(self).tracked_count()
                == old(self).tracked_count() - 1,
    {
        let ghost row = self.bindings@[i as int];
        let ghost a = *self;
        if self.bindings[i].state == BindingState::Detaching {
            return Ok(());
        }
        if self.bindings[i].active_turn_id.is_some() || self.bindings[i].queued_message_count > 0 {
            return Err(
                failure("cannot detach an AHP Session with an active Turn or queued message"),
            );
        }
        if self.is_under_way(i) {
            return Err(
                failure("cannot detach an AHP Session with pending commands or interactions"),
            );
        }
        let id = self.bindings[i].binding_id.clone();
        let generation = self.bindings[i].generation;
        let number = integer_text(generation);
        let head = cat3("unbind:", id.as_str(), ":");
        let key = crate::text::cat(head.as_str(), number.as_str());
        let mut v: Vec<Member> = Vec::new();
        v.push(text_member("session_uri", self.bindings[i].session_uri.as_str()));
        v.push(opt_text_member("chat_uri", &self.bindings[i].chat_uri));
        proof {
            lemma_members_are(v, unbind_data(row)->Object_0);
        }
        let data = Json::Object(v);
        let in_front = self.is_in_foreground(id.as_str());
        self.bindings[i].state = BindingState::Detaching;
        self.bindings[i].error_code = Some(reason.to_owned());
        self.bindings[i].updated_at = now;
        if in_front {
            self.foreground = None;
        }
        proof {
            lemma_count_drops(
                a.bindings@,
                i as int,
                self.bindings@[i as int],
                tracking(),
            );
            assert(self.bindings@ =~= a.bindings@.update(i as int, self.bindings@[i as int]));
            let b = Database { foreground: None, ..a };
            assert(b.wf());
            let c = Database { foreground: None, ..*self };
            c.lemma_same_bindings(b);
            if self.foreground is Some {
                let f = self.foreground->0;
                let k = choose|k: int|
                    0 <= k < a.bindings@.len() && (#[trigger] a.bindings@[k]).binding_id@
                        == f.binding_id@;
                assert(self.bindings@[k].binding_id@ == f.binding_id@);
            }
        }
        let ghost m = *self;
        self.requeue_command(
            key.as_str(),
            id.as_str(),
            generation,
            AhpCommandKind::UnbindSession,
            &data,
            now,
        );
        proof {
            assert(key@ == unbind_key(row.binding_id@, row.generation));
            assert(requeued(
                m,
                *self,
                unbind_key(row.binding_id@, row.generation),
                row.binding_id@,
                row.generation,
                AhpCommandKind::UnbindSession,
                unbind_data(row),
                now,
            ));
        }
        Ok(())
    }

    /// Whether both give the tracked sessions the same generations.
    pub open spec fn same_generations(self, other: Database) -> bool {
        &&& self.bindings@.len() == other.bindings@.len()
        &&& forall|i: int|
            0 <= i < self.bindings@.len() ==> (#[trigger] self.bindings@[i]).generation
                == other.bindings@[i].generation
    }

    pub(crate) fn select_replacement_foreground(&mut self, now: i64)
        requires
            old(self).wf(),
        ensures
            final(self).wf(),
            replaced(*old(self), *final(self), now),
    {
        if self.foreground.is_some() {
            return;
        }
        let test = |r: &BindingRow| -> (b: bool)
            ensures
                b == is_tracked(*r),
        { r.state != BindingState::Detaching };
        let key = |r: &BindingRow| -> (s: SortKey)
            ensures
                s@ == (foreground_by())(*r),
        {
            SortKey {
                first: if r.active_turn_id.is_some() {
                    0
                } else {
                    1
                },
                second: -(r.last_activity_at as i128),
                text: r.binding_id.clone(),
            }
        };
        let best = least(
            &self.bindings,
            test,
            key,
            Ghost(tracking()),
            Ghost(foreground_by()),
        );
        match best {
            Some(i) => {
                let binding_id = self.bindings[i].binding_id.clone();
                assert(is_tracked(self.bindings@[i as int]));
                self.foreground = Some(ForegroundRow { binding_id, updated_at: now });
            },
            None => {
                assert forall|j: int| 0 <= j < self.bindings@.len() implies !is_tracked(
                    #[trigger] self.bindings@[j],
                ) by {}
            },
        }
    }

    fn make_binding_capacity(&mut self, max_bindings: usize, now: i64) -> (r: Result<(), Failure>)
        requires
            old(self).wf(),
            old(self).has_room(),
        ensures
            final(self).wf(),
            match r {
                Err(f) => *final(self) == *old(self) && room_fault(
                    *old(self),
                    max_bindings as nat,
                ) == Some(f.message@),
                Ok(()) => {
                    &&& room_fault(*old(self), max_bindings as nat) is None
                    &&& room_made(*old(self), *final(self), max_bindings as nat, now)
                    &&& final(self).same_generations(*old(self))
                    &&& final(self).tracked_count() < max_bindings
                        || final(self).tracked_count() + 1 == old(self).tracked_count()
                },
            },
    {
        if max_bindings == 0 {
            return Err(failure("AHP tracked Session limit must be non-zero"));
        }
        let tracked_test = |r: &BindingRow| -> (b: bool)
            ensures
                b == is_tracked(*r),
        { r.state != BindingState::Detaching };
        let n: usize = count_rows(
            &self.bindings,
            tracked_test,
            Ghost(tracking()),
        );
        assert(n == self.tracked_count());
        if n < max_bindings {
            return Ok(());
        }
        let victim = self.next_victim();
        match victim {
            Some(i) => {
                proof {
                    assert(self.is_evictable(self.bindings@[i as int]));
                }
                let r = self.detach_binding(i, now, "lru_eviction");
                assert(r is Ok);
                assert(is_next_victim(*old(self), i as int));
                Ok(())
            },
            None => Err(
                failure(
                    "all five tracked AHP Sessions are active, foreground, queued, or awaiting interaction",
                ),
            ),
        }
    }

    /// The tracked session that has to make room for another.
    fn next_victim(&self) -> (r: Option<usize>)
        ensures
            match r {
                Some(i) => is_next_victim(*self, i as int),
                None => forall|j: int|
                    0 <= j < self.bindings@.len() ==> !self.is_evictable(
                        #[trigger] self.bindings@[j],
                    ),
            },
    {
        let test = |r: &BindingRow| -> (b: bool)
            ensures
                b == self.is_evictable(*r),
        {
            !self.is_in_foreground(r.binding_id.as_str()) && (r.state == BindingState::Bound
                || r.state == BindingState::Lost || r.state == BindingState::Failed)
                && r.active_turn_id.is_none() && r.queued_message_count == 0
                && !self.any_open_commands(r.binding_id.as_str()) && !self.any_open_decisions(
                r.session_uri.as_str(),
            ) && !self.any_open_inputs(r.session_uri.as_str())
        };
        let key = |r: &BindingRow| -> (s: SortKey)
            ensures
                s@ == (evicted_by())(*r),
        {
            SortKey {
                first: if r.state == BindingState::Failed {
                    0
                } else if r.state == BindingState::Lost {
                    1
                } else {
                    2
                },
                second: r.last_activity_at as i128,
                text: r.binding_id.clone(),
            }
        };
        least(
            &self.bindings,
            test,
            key,
            Ghost(|r: BindingRow| self.is_evictable(r)),
            Ghost(evicted_by()),
        )
    }

    fn next_binding_generation(&self) -> (g: i64)
        requires
            self.generations_left(),
        ensures
            is_next_generation(self.bindings@, g),
    {
        if self.bindings.len() == 0 {
            return 1;
        }
        let mut max: i64 = self.bindings[0].generation;
        let mut i: usize = 1;
        while i < self.bindings.len()
            invariant
                1 <= i <= self.bindings@.len(),
                max < i64::MAX,
                self.generations_left(),
                forall|j: int| 0 <= j < i ==> (#[trigger] self.bindings@[j]).generation <= max,
                exists|j: int| 0 <= j < i && (#[trigger] self.bindings@[j]).generation == max,
            decreases self.bindings@.len() - i,
        {
            if self.bindings[i].generation > max {
                max = self.bindings[i].generation;
                assert(self.bindings@[i as int].generation == max);
            }
            i += 1;
        }
        max + 1
    }
}

// ---------------------------------------------------------------------------
// Tracking a session

/// The catalogued session that can be tracked on that host.
pub open spec fn available_on(db: Database, endpoint: Seq<char>, uri: Seq<char>) -> Option<
    CatalogRow,
> {
    match db.catalog_row(uri) {
        Some(c) => if c.endpoint_id@ == endpoint && c.available {
            Some(c)
        } else {
            None
        },
        None => None,
    }
}

/// Whether the tracked session is already on its way to that host.
pub open spec fn is_current(row: BindingRow, endpoint: Seq<char>, host: Seq<char>) -> bool {
    &&& row.endpoint_id@ == endpoint
    &&& opt_view(row.host_instance_id) == Some(host)
    &&& row.state == BindingState::Binding || row.state == BindingState::Bound
}

/// Why a session cannot be tracked. `id` is the identifier that a new tracked
/// session would get.
pub open spec fn ensure_fault(
    db: Database,
    endpoint: Seq<char>,
    uri: Seq<char>,
    max: nat,
    id: Seq<char>,
) -> Option<Seq<char>> {
    if available_on(db, endpoint, uri) is None {
        Some("AHP Session is not present in the current catalogue"@)
    } else {
        match db.binding_of(uri) {
            Some(row) => if !fits(row) {
                Some(out_of_range())
            } else if row.state == BindingState::Detaching {
                Some("AHP Session is currently detaching"@)
            } else {
                None
            },
            None => if room_fault(db, max) is Some {
                room_fault(db, max)
            } else if db.binding_with(id) is Some {
                Some("UNIQUE constraint failed: ahp_bindings.binding_id"@)
            } else {
                None
            },
        }
    }
}

/// Whether `b` is `a` with the tracked session bound to a host anew: its open
/// commands have failed, it starts over in a new generation, and the adapter
/// is asked to bind it.
pub open spec fn rebound(
    a: Database,
    b: Database,
    row: BindingRow,
    endpoint: Seq<char>,
    host: Seq<char>,
    now: i64,
) -> bool {
    exists|m: Database, g: i64, command: i64|
        {
            &&& is_next_generation(a.bindings@, g)
            &&& m == (Database { bindings: m.bindings, commands: m.commands, ..a })
            &&& commands_failed(
                a.commands@,
                m.commands@,
                row.binding_id@,
                "binding_replaced"@,
                now,
            )
            &&& changed(
                a.bindings@,
                m.bindings@,
                |p: BindingRow, q: BindingRow|
                    if p.binding_id@ == row.binding_id@ {
                        q == (BindingRow {
                            generation: g,
                            endpoint_id: q.endpoint_id,
                            host_instance_id: q.host_instance_id,
                            chat_uri: None,
                            state: BindingState::Binding,
                            last_server_sequence: 0,
                            active_turn_id: None,
                            queued_message_count: 0,
                            error_code: None,
                            last_activity_at: now,
                            updated_at: now,
                            ..p
                        }) && q.endpoint_id@ == endpoint && opt_view(q.host_instance_id) == Some(
                            host,
                        )
                    } else {
                        q == p
                    },
            )
            &&& #[trigger] enqueued(
                m,
                b,
                bind_key(row.binding_id@, g),
                row.binding_id@,
                g,
                AhpCommandKind::BindSession,
                bind_data(endpoint, host, row.session_uri@),
                now,
                command,
            )
        }
}

/// Whether the row is a session that has just come to be tracked.
pub open spec fn is_new_binding(
    r: BindingRow,
    id: Seq<char>,
    generation: i64,
    endpoint: Seq<char>,
    host: Seq<char>,
    uri: Seq<char>,
    now: i64,
) -> bool {
    &&& r.binding_id@ == id
    &&& r.generation == generation
    &&& r.endpoint_id@ == endpoint
    &&& opt_view(r.host_instance_id) == Some(host)
    &&& r.session_uri@ == uri
    &&& r.chat_uri is None
    &&& r.state == BindingState::Binding
    &&& r.last_server_sequence == 0
    &&& r.active_turn_id is None
    &&& r.queued_message_count == 0
    &&& r.error_code is None
    &&& r.last_activity_at == now
    &&& r.created_at == now
    &&& r.updated_at == now
}

/// Whether `b` is `a` with one more tracked session, which the adapter is asked
/// to bind.
pub open spec fn newly_bound(
    a: Database,
    b: Database,
    id: Seq<char>,
    endpoint: Seq<char>,
    host: Seq<char>,
    uri: Seq<char>,
    now: i64,
) -> bool {
    exists|m: Database, g: i64, command: i64|
        {
            &&& is_next_generation(a.bindings@, g)
            &&& m == (Database { bindings: m.bindings, ..a })
            &&& m.bindings@ == a.bindings@.push(m.bindings@.last())
            &&& is_new_binding(m.bindings@.last(), id, g, endpoint, host, uri, now)
            &&& #[trigger] enqueued(
                m,
                b,
                bind_key(id, g),
                id,
                g,
                AhpCommandKind::BindSession,
                bind_data(endpoint, host, uri),
                now,
                command,
            )
        }
}

/// Whether `b` is `a` with the session tracked on that host.
pub open spec fn ensured(
    a: Database,
    b: Database,
    endpoint: Seq<char>,
    uri: Seq<char>,
    max: nat,
    touch: bool,
    id: Seq<char>,
    now: i64,
) -> bool {
    match available_on(a, endpoint, uri) {
        None => false,
        Some(c) => match a.binding_of(uri) {
            Some(row) => if is_current(row, endpoint, c.host_instance_id@) {
                if touch {
                    touched(a, b, row.binding_id@, now)
                } else {
                    b == a
                }
            } else {
                rebound(a, b, row, endpoint, c.host_instance_id@, now)
            },
            None => exists|m: Database|
                #[trigger] room_made(a, m, max, now) && newly_bound(
                    m,
                    b,
                    id,
                    endpoint,
                    c.host_instance_id@,
                    uri,
                    now,
                ),
        },
    }
}

fn fail_commands(rows: &mut Vec<CommandRow>, id: &str, reason: &str, now: i64)
    ensures
        commands_failed(old(rows)@, final(rows)@, id@, reason@, now),
{
    let ghost a = rows@;
    let mut i: usize = 0;
    while i < rows.len()
        invariant
            i <= rows@.len(),
            rows@.len() == a.len(),
            forall|j: int|
                #![trigger rows@[j]]
                0 <= j < i ==> if a[j].binding_id@ == id@ && is_open_command(a[j]) {
                    rows@[j] == (CommandRow {
                        state: CommandState::Failed,
                        error_code: rows@[j].error_code,
                        updated_at: now,
                        ..a[j]
                    }) && opt_view(rows@[j].error_code) == Some(reason@)
                } else {
                    rows@[j] == a[j]
                },
            forall|j: int| i <= j < rows@.len() ==> #[trigger] rows@[j] == a[j],
        decreases rows@.len() - i,
    {
        if str_eq(rows[i].binding_id.as_str(), id) && (rows[i].state == CommandState::Pending
            || rows[i].state == CommandState::Leased) {
            rows[i].state = CommandState::Failed;
            rows[i].error_code = Some(reason.to_owned());
            rows[i].updated_at = now;
        }
        i += 1;
    }
}

/// Commands whose keys and numbers are the same keep what holds of them.
pub(crate) proof fn lemma_same_commands(a: Seq<CommandRow>, b: Seq<CommandRow>, next: i64)
    requires
        commands_wf(a, next),
        a.len() == b.len(),
        forall|i: int|
            0 <= i < a.len() ==> (#[trigger] b[i]).command_key@ == a[i].command_key@
                && b[i].command_id == a[i].command_id,
    ensures
        commands_wf(b, next),
{
}

fn bind_object(endpoint_id: &str, host_instance_id: &str, session_uri: &str) -> (r: Json)
    ensures
        r@ == bind_data(endpoint_id@, host_instance_id@, session_uri@),
{
    let mut v: Vec<Member> = Vec::new();
    v.push(text_member("endpoint_id", endpoint_id));
    v.push(text_member("host_instance_id", host_instance_id));
    v.push(text_member("session_uri", session_uri));
    proof {
        lemma_members_are(
            v,
            bind_data(endpoint_id@, host_instance_id@, session_uri@)->Object_0,
        );
    }
    Json::Object(v)
}

fn bind_key_text(id: &str, generation: i64) -> (r: String)
    ensures
        r@ == bind_key(id@, generation),
{
    let number = integer_text(generation);
    let head = cat3("bind:", id, ":");
    crate::text::cat(head.as_str(), number.as_str())
}

impl Database {
    fn rebind_at(&mut self, i: usize, endpoint_id: &str, host: &str, now: i64)
        requires
            old(self).wf(),
            old(self).has_room(),
            i < old(self).bindings@.len(),
            is_tracked(old(self).bindings@[i as int]),
        ensures
            final(self).wf(),
            rebound(
                *old(self),
                *final(self),
                old(self).bindings@[i as int],
                endpoint_id@,
                host@,
                now,
            ),
            final(self).bindings@.len() == old(self).bindings@.len(),
            final(self).bindings@[i as int].binding_id == old(self).bindings@[i as int].binding_id,
            fits(final(self).bindings@[i as int]),
            final(self).foreground == old(self).foreground,
            final(self).tracked_count() == old(self).tracked_count(),
    {
        let ghost a = *self;
        let ghost row = self.bindings@[i as int];
        let g = self.next_binding_generation();
        let id = self.bindings[i].binding_id.clone();
        let uri = self.bindings[i].session_uri.clone();
        fail_commands(&mut self.commands, id.as_str(), "binding_replaced", now);
        self.bindings[i].generation = g;
        self.bindings[i].endpoint_id = endpoint_id.to_owned();
        self.bindings[i].host_instance_id = Some(host.to_owned());
        self.bindings[i].chat_uri = None;
        self.bindings[i].state = BindingState::Binding;
        self.bindings[i].last_server_sequence = 0;
        self.bindings[i].active_turn_id = None;
        self.bindings[i].queued_message_count = 0;
        self.bindings[i].error_code = None;
        self.bindings[i].last_activity_at = now;
        self.bindings[i].updated_at = now;
        proof {
            lemma_same_commands(a.commands@, self.commands@, a.next_command_id);
            lemma_count_same(a.bindings@, self.bindings@, tracking());
            self.lemma_same_bindings(Database { commands: self.commands, ..a });
        }
        let key = bind_key_text(id.as_str(), g);
        let data = bind_object(endpoint_id, host, uri.as_str());
        let ghost m = *self;
        let command = self.enqueue_command(
            key.as_str(),
            id.as_str(),
            g,
            AhpCommandKind::BindSession,
            &data,
            now,
        );
        assert(enqueued(
            m,
            *self,
            bind_key(row.binding_id@, g),
            row.binding_id@,
            g,
            AhpCommandKind::BindSession,
            bind_data(endpoint_id@, host@, row.session_uri@),
            now,
            command,
        ));
    }

    fn bind_new(&mut self, id: String, endpoint_id: &str, host: &str, uri: &str, now: i64)
        requires
            old(self).wf(),
            old(self).generations_left(),
            old(self).next_command_id < i64::MAX,
            old(self).binding_with(id@) is None,
            old(self).binding_of(uri@) is None,
        ensures
            final(self).wf(),
            newly_bound(*old(self), *final(self), id@, endpoint_id@, host@, uri@, now),
            final(self).bindings@.len() == old(self).bindings@.len() + 1,
            final(self).bindings@.last().binding_id@ == id@,
            final(self).bindings@.last().session_uri@ == uri@,
            fits(final(self).bindings@.last()),
            final(self).foreground == old(self).foreground,
            final(self).tracked_count() == old(self).tracked_count() + 1,
    {
        let ghost a = *self;
        let g = self.next_binding_generation();
        let key = bind_key_text(id.as_str(), g);
        let data = bind_object(endpoint_id, host, uri);
        let copy = id.clone();
        let row = BindingRow {
            binding_id: id,
            generation: g,
            endpoint_id: endpoint_id.to_owned(),
            host_instance_id: Some(host.to_owned()),
            session_uri: uri.to_owned(),
            chat_uri: None,
            state: BindingState::Binding,
            last_server_sequence: 0,
            active_turn_id: None,
            queued_message_count: 0,
            error_code: None,
            last_activity_at: now,
            created_at: now,
            updated_at: now,
        };
        self.bindings.push(row);
        proof {
            lemma_first_holds(a.bindings@, with_binding_id(copy@));
            lemma_first_holds(a.bindings@, with_session(uri@));
            lemma_filter_push(a.bindings@, row, tracking());
            if self.foreground is Some {
                let f = self.foreground->0;
                let k = choose|k: int|
                    0 <= k < a.bindings@.len() && (#[trigger] a.bindings@[k]).binding_id@
                        == f.binding_id@;
                assert(self.bindings@[k].binding_id@ == f.binding_id@);
            }
        }
        let ghost m = *self;
        let command = self.enqueue_command(
            key.as_str(),
            copy.as_str(),
            g,
            AhpCommandKind::BindSession,
            &data,
            now,
        );
        assert(enqueued(
            m,
            *self,
            bind_key(copy@, g),
            copy@,
            g,
            AhpCommandKind::BindSession,
            bind_data(endpoint_id@, host@, uri@),
            now,
            command,
        ));
    }

    /// Sees to it that the session is tracked on that host. Returns the position
    /// of the tracked session.
    fn ensure_session_binding(
        &mut self,
        endpoint_id: &str,
        session_uri: &str,
        max_bindings: usize,
        touch_existing: bool,
        id: String,
        now: i64,
    ) -> (r: Result<usize, Failure>)
        requires
            old(self).wf(),
            old(self).has_room(),
        ensures
            final(self).wf(),
            final(self).tracked_count() <= max_bindings || final(self).tracked_count() <= old(self).tracked_count(),
            match r {
                Err(f) => *final(self) == *old(self) && ensure_fault(
                    *old(self),
                    endpoint_id@,
                    session_uri@,
                    max_bindings as nat,
                    id@,
                ) == Some(f.message@),
                Ok(i) => {
                    &&& ensure_fault(
                        *old(self),
                        endpoint_id@,
                        session_uri@,
                        max_bindings as nat,
                        id@,
                    ) is None
                    &&& ensured(
                        *old(self),
                        *final(self),
                        endpoint_id@,
                        session_uri@,
                        max_bindings as nat,
                        touch_existing,
                        id@,
                        now,
                    )
                    &&& i < final(self).bindings@.len()
                    &&& final(self).bindings@[i as int].session_uri@ == session_uri@
                    &&& fits(final(self).bindings@[i as int])
                },
            },
    {
        let host = match self.find_catalog(session_uri) {
            Some(k) => {
                if !str_eq(self.catalog[k].endpoint_id.as_str(), endpoint_id)
                    || !self.catalog[k].available {
                    return Err(failure("AHP Session is not present in the current catalogue"));
                }
                self.catalog[k].host_instance_id.clone()
            },
            None => {
                return Err(failure("AHP Session is not present in the current catalogue"));
            },
        };
        match self.find_binding_of(session_uri) {
            Some(i) => {
                if self.bindings[i].queued_message_count > u32::MAX as i64 {
                    return Err(failure("out of range integral type conversion attempted"));
                }
                if self.bindings[i].state == BindingState::Detaching {
                    return Err(failure("AHP Session is currently detaching"));
                }
                if str_eq(self.bindings[i].endpoint_id.as_str(), endpoint_id) && opt_is(
                    &self.bindings[i].host_instance_id,
                    host.as_str(),
                ) && (self.bindings[i].state == BindingState::Binding || self.bindings[i].state
                    == BindingState::Bound) {
                    if touch_existing {
                        self.touch_at(i, now);
                    }
                    return Ok(i);
                }
                self.rebind_at(i, endpoint_id, host.as_str(), now);
                Ok(i)
            },
            None => {
                let ghost a = *self;
                let taken = self.find_binding(id.as_str()).is_some();
                let made = if taken {
                    self.can_make_room(max_bindings)
                } else {
                    self.make_binding_capacity(max_bindings, now)
                };
                match made {
                    Err(f) => Err(f),
                    Ok(()) => {
                        if taken {
                            return Err(
                                failure("UNIQUE constraint failed: ahp_bindings.binding_id"),
                            );
                        }
                        proof {
                            self.lemma_room_keeps_ids(a, max_bindings as nat, now, id@, session_uri@);
                        }
                        let ghost m = *self;
                        self.bind_new(id, endpoint_id, host.as_str(), session_uri, now);
                        assert(room_made(a, m, max_bindings as nat, now));
                        Ok(self.bindings.len() - 1)
                    },
                }
            },
        }
    }

    /// Whether there is room for one more tracked session, or can be made.
    fn can_make_room(&self, max_bindings: usize) -> (r: Result<(), Failure>)
        ensures
            match r {
                Err(f) => room_fault(*self, max_bindings as nat) == Some(f.message@),
                Ok(()) => room_fault(*self, max_bindings as nat) is None,
            },
    {
        if max_bindings == 0 {
            return Err(failure("AHP tracked Session limit must be non-zero"));
        }
        let test = |r: &BindingRow| -> (b: bool)
            ensures
                b == is_tracked(*r),
        { r.state != BindingState::Detaching };
        let n: usize = count_rows(&self.bindings, test, Ghost(tracking()));
        if n < max_bindings {
            return Ok(());
        }
        match self.next_victim() {
            Some(i) => {
                assert(self.is_evictable(self.bindings@[i as int]));
                Ok(())
            },
            None => Err(
                failure(
                    "all five tracked AHP Sessions are active, foreground, queued, or awaiting interaction",
                ),
            ),
        }
    }

    /// Making room changes neither identifiers nor sessions nor generations of
    /// what is tracked.
    proof fn lemma_room_keeps_ids(self, a: Database, max: nat, now: i64, id: Seq<char>, uri: Seq<char>)
        requires
            room_made(a, self, max, now),
            a.has_room(),
        ensures
            a.binding_with(id) is None ==> self.binding_with(id) is None,
            a.binding_of(uri) is None ==> self.binding_of(uri) is None,
            self.generations_left(),
            self.next_command_id < i64::MAX,
            self.foreground is Some ==> a.foreground == self.foreground,
            self.bindings@.len() == a.bindings@.len(),
    {
        if a.tracked_count() >= max {
            let i = choose|i: int|
                #[trigger] is_next_victim(a, i) && let_go(
                    a,
                    self,
                    a.bindings@[i],
                    "lru_eviction"@,
                    now,
                );
            lemma_let_go_keeps_ids(a, self, a.bindings@[i], "lru_eviction"@, now);
            if a.binding_with(id) is None {
                lemma_first_holds(a.bindings@, with_binding_id(id));
                assert forall|j: int| 0 <= j < self.bindings@.len() implies (
                #[trigger] self.bindings@[j]).binding_id@ != id by {
                    assert(a.bindings@[j].binding_id@ != id);
                }
                lemma_first_none(self.bindings@, with_binding_id(id));
            }
            if a.binding_of(uri) is None {
                lemma_first_holds(a.bindings@, with_session(uri));
                assert forall|j: int| 0 <= j < self.bindings@.len() implies (
                #[trigger] self.bindings@[j]).session_uri@ != uri by {
                    assert(a.bindings@[j].session_uri@ != uri);
                }
                lemma_first_none(self.bindings@, with_session(uri));
            }
        }
    }
}

/// Letting a session go changes neither identifiers nor sessions nor
/// generations, and gives out at most one command number.
pub proof fn lemma_let_go_keeps_ids(
    a: Database,
    b: Database,
    row: BindingRow,
    reason: Seq<char>,
    now: i64,
)
    requires
        let_go(a, b, row, reason, now),
    ensures
        b.bindings@.len() == a.bindings@.len(),
        forall|j: int|
            0 <= j < a.bindings@.len() ==> (#[trigger] b.bindings@[j]).binding_id
                == a.bindings@[j].binding_id && b.bindings@[j].session_uri
                == a.bindings@[j].session_uri && b.bindings@[j].generation
                == a.bindings@[j].generation,
        forall|j: int|
            0 <= j < a.bindings@.len() && a.bindings@[j].binding_id@ != row.binding_id@
                ==> #[trigger] b.bindings@[j] == a.bindings@[j],
        a.next_command_id < i64::MAX ==> a.next_command_id <= b.next_command_id
            <= a.next_command_id + 1,
        b.foreground is Some ==> b.foreground == a.foreground && !a.in_foreground(row.binding_id@),
        b.catalog == a.catalog,
        b.decisions == a.decisions,
        b.inputs == a.inputs,
{
    let m = choose|m: Database|
        {
            &&& m == (Database { bindings: m.bindings, foreground: m.foreground, ..a })
            &&& changed(
                a.bindings@,
                m.bindings@,
                |p: BindingRow, q: BindingRow|
                    if p.binding_id@ == row.binding_id@ {
                        q == (BindingRow {
                            state: BindingState::Detaching,
                            error_code: q.error_code,
                            updated_at: now,
                            ..p
                        }) && opt_view(q.error_code) == Some(reason)
                    } else {
                        q == p
                    },
            )
            &&& m.foreground == (if a.in_foreground(row.binding_id@) {
                None
            } else {
                a.foreground
            })
            &&& #[trigger] requeued(
                m,
                b,
                unbind_key(row.binding_id@, row.generation),
                row.binding_id@,
                row.generation,
                AhpCommandKind::UnbindSession,
                unbind_data(row),
                now,
            )
        };
    assert(b.bindings == m.bindings);
}

// ---------------------------------------------------------------------------
// The adapter

impl Database {
    /// Whether that instance of the adapter is registered.
    pub open spec fn is_registered(self, adapter: Seq<char>, instance: Seq<char>) -> bool {
        self.adapter matches Some(a) && a.adapter_id@ == adapter && a.adapter_instance_id@
            == instance
    }

    /// Whether that instance of the adapter is registered.
    pub(crate) fn adapter_is_registered(&self, adapter_id: &str, adapter_instance_id: &str) -> (r:
        bool)
        ensures
            r == self.is_registered(adapter_id@, adapter_instance_id@),
    {
        match &self.adapter {
            Some(a) => str_eq(a.adapter_id.as_str(), adapter_id) && str_eq(
                a.adapter_instance_id.as_str(),
                adapter_instance_id,
            ),
            None => false,
        }
    }
}

/// What is said to an adapter that is not registered.
pub open spec fn not_registered() -> Seq<char> {
    "AHP adapter identity is not registered"@
}

// ---------------------------------------------------------------------------
// Operations

/// Whether the session at that address is in the foreground since `now`.
pub open spec fn focused_on(db: Database, uri: Seq<char>, now: i64) -> bool {
    &&& db.foreground is Some
    &&& db.foreground->0.updated_at == now
    &&& db.binding_of(uri) is Some
    &&& db.foreground->0.binding_id@ == db.binding_of(uri)->0.binding_id@
}

/// Whether `b` is `a` with the session tracked and in the foreground. `id` is
/// the identifier that it gets where it was not tracked.
pub open spec fn focused(
    a: Database,
    b: Database,
    endpoint: Seq<char>,
    uri: Seq<char>,
    id: Seq<char>,
    now: i64,
) -> bool {
    exists|m: Database|
        {
            &&& #[trigger] ensured(
                a,
                m,
                endpoint,
                uri,
                MAX_TRACKED_AHP_SESSIONS as nat,
                true,
                id,
                now,
            )
            &&& b == (Database { foreground: b.foreground, ..m })
            &&& focused_on(b, uri, now)
        }
}

/// What comes of bringing a session to the foreground.
pub open spec fn focus_outcome(
    a: Database,
    b: Database,
    endpoint: Seq<char>,
    uri: Seq<char>,
    id: Seq<char>,
    now: i64,
    r: Result<AhpBindingRecord, Failure>,
) -> bool {
    let fault = ensure_fault(a, endpoint, uri, MAX_TRACKED_AHP_SESSIONS as nat, id);
    match r {
        Err(f) => b == a && fault == Some(f.message@),
        Ok(record) => {
            &&& fault is None
            &&& focused(a, b, endpoint, uri, id, now)
            &&& shows(b, b.binding_of(uri)->0, record)
        },
    }
}

/// Whether `b` is `a` with the session tracked, and in the foreground where
/// none was. `m` is what was remembered before the foreground was seen to.
pub open spec fn tracked_from(a: Database, m: Database, b: Database, uri: Seq<char>, now: i64) -> bool {
    &&& m.binding_of(uri) is Some
    &&& if m.foreground is Some {
        b == m
    } else {
        b == (Database { foreground: b.foreground, ..m }) && focused_on(b, uri, now)
    }
}

/// What comes of tracking a session.
pub open spec fn track_outcome(
    a: Database,
    b: Database,
    endpoint: Seq<char>,
    uri: Seq<char>,
    id: Seq<char>,
    now: i64,
    r: Result<AhpBindingRecord, Failure>,
) -> bool {
    let fault = ensure_fault(a, endpoint, uri, MAX_TRACKED_AHP_SESSIONS as nat, id);
    match r {
        Err(f) => b == a && fault == Some(f.message@),
        Ok(record) => {
            &&& fault is None
            &&& exists|m: Database|
                {
                    &&& #[trigger] ensured(
                        a,
                        m,
                        endpoint,
                        uri,
                        MAX_TRACKED_AHP_SESSIONS as nat,
                        false,
                        id,
                        now,
                    )
                    &&& tracked_from(a, m, b, uri, now)
                    &&& shows(m, m.binding_of(uri)->0, record)
                }
        },
    }
}

/// What comes of letting a tracked session go.
pub open spec fn detach_outcome(
    a: Database,
    b: Database,
    row: Option<BindingRow>,
    reason: Seq<char>,
    now: i64,
    r: Result<bool, Failure>,
) -> bool {
    match row {
        None => b == a && r == Ok::<bool, Failure>(false),
        Some(row) => match r {
            Err(f) => b == a && f.message@ == (if !fits(row) {
                out_of_range()
            } else {
                detach_fault(a, row)->0
            }) && (!fits(row) || detach_fault(a, row) is Some),
            Ok(done) => {
                &&& done && fits(row) && detach_fault(a, row) is None
                &&& exists|m: Database|
                    {
                        &&& if row.state == BindingState::Detaching {
                            m == a
                        } else {
                            let_go(a, m, row, reason, now)
                        }
                        &&& #[trigger] replaced(m, b, now)
                    }
            },
        },
    }
}

/// Whether the acknowledgement is for that tracked session as it stands.
pub open spec fn ready_for(
    row: BindingRow,
    id: Seq<char>,
    generation: i64,
    endpoint: Seq<char>,
    host: Seq<char>,
    uri: Seq<char>,
) -> bool {
    &&& row.binding_id@ == id
    &&& row.generation == generation
    &&& row.endpoint_id@ == endpoint
    &&& opt_view(row.host_instance_id) == Some(host)
    &&& row.session_uri@ == uri
    &&& row.state == BindingState::Binding || row.state == BindingState::Bound
}

/// What comes of word that a session was bound.
pub open spec fn ready_outcome(
    a: Database,
    b: Database,
    adapter: Seq<char>,
    instance: Seq<char>,
    id: Seq<char>,
    endpoint: Seq<char>,
    host: Seq<char>,
    binding_generation: i64,
    uri: Seq<char>,
    chat: Seq<char>,
    last_server_sequence: u64,
    now: i64,
    r: Result<(), Failure>,
) -> bool {
    match r {
        Err(f) => b == a && if last_server_sequence > i64::MAX {
            f.message@ == "AHP server sequence exceeds SQLite"@
        } else if !a.is_registered(adapter, instance) {
            f.message@ == not_registered()
        } else {
            f.message@ == "AHP binding acknowledgement is stale or mismatched"@ && forall|
                i: int,
            |
                0 <= i < a.bindings@.len() ==> !ready_for(
                    #[trigger] a.bindings@[i],
                    id,
                    binding_generation,
                    endpoint,
                    host,
                    uri,
                )
        },
        Ok(()) => {
            &&& last_server_sequence <= i64::MAX
            &&& a.is_registered(adapter, instance)
            &&& exists|i: int|
                0 <= i < a.bindings@.len() && ready_for(
                    #[trigger] a.bindings@[i],
                    id,
                    binding_generation,
                    endpoint,
                    host,
                    uri,
                )
            &&& b == (Database { bindings: b.bindings, ..a })
            &&& changed(
                a.bindings@,
                b.bindings@,
                |p: BindingRow, q: BindingRow|
                    if ready_for(
                        p,
                        id,
                        binding_generation,
                        endpoint,
                        host,
                        uri,
                    ) {
                        q == (BindingRow {
                            state: BindingState::Bound,
                            chat_uri: q.chat_uri,
                            last_server_sequence: if p.last_server_sequence
                                >= last_server_sequence {
                                p.last_server_sequence
                            } else {
                                last_server_sequence as i64
                            },
                            error_code: None,
                            updated_at: now,
                            ..p
                        }) && opt_view(q.chat_uri) == Some(chat)
                    } else {
                        q == p
                    },
            )
        },
    }
}

/// What comes of word that a session could not be bound.
pub open spec fn unready_outcome(
    a: Database,
    b: Database,
    adapter: Seq<char>,
    instance: Seq<char>,
    id: Seq<char>,
    binding_generation: i64,
    reason: Seq<char>,
    now: i64,
    r: Result<(), Failure>,
) -> bool {
    match r {
        Err(f) => b == a && if !a.is_registered(
            adapter,
            instance,
        ) {
            f.message@ == not_registered()
        } else {
            f.message@ == "AHP binding failure is stale"@ && forall|i: int|
                0 <= i < a.bindings@.len() ==> (
                #[trigger] a.bindings@[i]).binding_id@ != id || a.bindings@[i].generation != binding_generation
        },
        Ok(()) => {
            &&& a.is_registered(adapter, instance)
            &&& exists|i: int|
                0 <= i < a.bindings@.len() && (
                #[trigger] a.bindings@[i]).binding_id@ == id && a.bindings@[i].generation == binding_generation
            &&& b == (Database { bindings: b.bindings, ..a })
            &&& changed(
                a.bindings@,
                b.bindings@,
                |p: BindingRow, q: BindingRow|
                    if p.binding_id@ == id && p.generation == binding_generation {
                        q == (BindingRow {
                            state: BindingState::Failed,
                            error_code: q.error_code,
                            updated_at: now,
                            ..p
                        }) && opt_view(q.error_code) == Some(reason)
                    } else {
                        q == p
                    },
            )
        },
    }
}

impl Database {
    /// Brings a session to the foreground, tracking it where it is not tracked.
    pub fn ahp_bind_session(&mut self, endpoint_id: &str, session_uri: &str, now: i64) -> (r: Result<
        AhpBindingRecord,
        Failure,
    >)
        requires
            old(self).wf(),
            old(self).has_room(),
        ensures
            final(self).wf(),
            exists|n: u128| #[trigger]
                focus_outcome(
                    *old(self),
                    *final(self),
                    endpoint_id@,
                    session_uri@,
                    uuid_text(n),
                    now,
                    r,
                ),
    {
        let (_, id) = new_uuid();
        self.focus_session(endpoint_id, session_uri, id, now)
    }

    /// Brings a session to the foreground; where it is not tracked it comes to
    /// be tracked under that identifier.
    pub fn focus_session(
        &mut self,
        endpoint_id: &str,
        session_uri: &str,
        id: String,
        now: i64,
    ) -> (r: Result<AhpBindingRecord, Failure>)
        requires
            old(self).wf(),
            old(self).has_room(),
        ensures
            final(self).wf(),
            focus_outcome(
                *old(self),
                *final(self),
                endpoint_id@,
                session_uri@,
                id@,
                now,
                r,
            ),
    {
        let ghost name = id@;
        let done = self.ensure_session_binding(
            endpoint_id,
            session_uri,
            MAX_TRACKED_AHP_SESSIONS,
            true,
            id,
            now,
        );
        match done {
            Err(f) => Err(f),
            Ok(i) => {
                let ghost m = *self;
                let binding_id = self.bindings[i].binding_id.clone();
                self.foreground = Some(ForegroundRow { binding_id, updated_at: now });
                proof {
                    self.lemma_binding_of(i as int, session_uri@);
                    assert(self.bindings@[i as int].binding_id@ == binding_id@);
                    assert(ensured(
                        *old(self),
                        m,
                        endpoint_id@,
                        session_uri@,
                        MAX_TRACKED_AHP_SESSIONS as nat,
                        true,
                        name,
                        now,
                    ));
                }
                self.binding_record(i)
            },
        }
    }

    /// The tracked session at an address is the only one there.
    pub(crate) proof fn lemma_binding_of(self, i: int, uri: Seq<char>)
        requires
            unique(self.bindings@, |r: BindingRow| r.session_uri@),
            0 <= i < self.bindings@.len(),
            self.bindings@[i].session_uri@ == uri,
        ensures
            self.binding_of(uri) == Some(self.bindings@[i]),
    {
        assert forall|j: int| 0 <= j < i implies !with_session(uri)(#[trigger] self.bindings@[j]) by {
            assert(self.bindings@[j].session_uri@ != self.bindings@[i].session_uri@);
        }
        lemma_first(self.bindings@, with_session(uri), i);
    }

    /// Tracks a session in the background, or in the foreground where none is.
    pub fn ahp_track_session(&mut self, endpoint_id: &str, session_uri: &str, now: i64) -> (r:
        Result<AhpBindingRecord, Failure>)
        requires
            old(self).wf(),
            old(self).has_room(),
        ensures
            final(self).wf(),
            exists|n: u128| #[trigger]
                track_outcome(
                    *old(self),
                    *final(self),
                    endpoint_id@,
                    session_uri@,
                    uuid_text(n),
                    now,
                    r,
                ),
    {
        let (_, id) = new_uuid();
        self.track_session(endpoint_id, session_uri, id, now)
    }

    /// Tracks a session; where it is not tracked it comes to be tracked under
    /// that identifier.
    pub fn track_session(
        &mut self,
        endpoint_id: &str,
        session_uri: &str,
        id: String,
        now: i64,
    ) -> (r: Result<AhpBindingRecord, Failure>)
        requires
            old(self).wf(),
            old(self).has_room(),
        ensures
            final(self).wf(),
            track_outcome(
                *old(self),
                *final(self),
                endpoint_id@,
                session_uri@,
                id@,
                now,
                r,
            ),
    {
        let ghost name = id@;
        let done = self.ensure_session_binding(
            endpoint_id,
            session_uri,
            MAX_TRACKED_AHP_SESSIONS,
            false,
            id,
            now,
        );
        match done {
            Err(f) => Err(f),
            Ok(i) => {
                let ghost m = *self;
                let record = self.binding_record(i);
                proof {
                    self.lemma_binding_of(i as int, session_uri@);
                }
                if self.foreground.is_none() {
                    let binding_id = self.bindings[i].binding_id.clone();
                    self.foreground = Some(ForegroundRow { binding_id, updated_at: now });
                    proof {
                        self.lemma_binding_of(i as int, session_uri@);
                        assert(self.bindings@[i as int].binding_id@ == binding_id@);
                    }
                }
                assert(ensured(
                    *old(self),
                    m,
                    endpoint_id@,
                    session_uri@,
                    MAX_TRACKED_AHP_SESSIONS as nat,
                    false,
                    name,
                    now,
                ));
                record
            },
        }
    }

    fn detach_and_replace(&mut self, i: usize, reason: &str, now: i64) -> (r: Result<bool, Failure>)
        requires
            old(self).wf(),
            old(self).has_room(),
            i < old(self).bindings@.len(),
        ensures
            final(self).wf(),
            detach_outcome(
                *old(self),
                *final(self),
                Some(old(self).bindings@[i as int]),
                reason@,
                now,
                r,
            ),
    {
        if self.bindings[i].queued_message_count > u32::MAX as i64 {
            return Err(failure("out of range integral type conversion attempted"));
        }
        match self.detach_binding(i, now, reason) {
            Err(f) => Err(f),
            Ok(()) => {
                let ghost m = *self;
                self.select_replacement_foreground(now);
                assert(replaced(m, *self, now));
                Ok(true)
            },
        }
    }

    /// Lets the session at that address go.
    pub fn ahp_detach_session(&mut self, session_uri: &str, now: i64) -> (r: Result<bool, Failure>)
        requires
            old(self).wf(),
            old(self).has_room(),
        ensures
            final(self).wf(),
            detach_outcome(
                *old(self),
                *final(self),
                old(self).binding_of(session_uri@),
                "manual_detach"@,
                now,
                r,
            ),
    {
        match self.find_binding_of(session_uri) {
            Some(i) => self.detach_and_replace(i, "manual_detach", now),
            None => Ok(false),
        }
    }

    /// Lets the session in the foreground go.
    pub fn ahp_unbind_session(&mut self, now: i64) -> (r: Result<bool, Failure>)
        requires
            old(self).wf(),
            old(self).has_room(),
        ensures
            final(self).wf(),
            detach_outcome(
                *old(self),
                *final(self),
                old(self).foreground_row(),
                "manual_unbind"@,
                now,
                r,
            ),
    {
        let at = match &self.foreground {
            Some(f) => self.find_binding(f.binding_id.as_str()),
            None => None,
        };
        match at {
            Some(i) => {
                if self.bindings[i].state == BindingState::Detaching {
                    return Ok(false);
                }
                self.detach_and_replace(i, "manual_unbind", now)
            },
            None => Ok(false),
        }
    }

    /// Takes note that the adapter has bound a session.
    pub fn ahp_binding_ready(
        &mut self,
        adapter_id: &str,
        adapter_instance_id: &str,
        binding_id: &str,
        endpoint_id: &str,
        host_instance_id: &str,
        binding_generation: i64,
        session_uri: &str,
        chat_uri: &str,
        last_server_sequence: u64,
        now: i64,
    ) -> (r: Result<(), Failure>)
        requires
            old(self).wf(),
        ensures
            final(self).wf(),
            ready_outcome(
                *old(self),
                *final(self),
                adapter_id@,
                adapter_instance_id@,
                binding_id@,
                endpoint_id@,
                host_instance_id@,
                binding_generation,
                session_uri@,
                chat_uri@,
                last_server_sequence,
                now,
                r,
            ),
    {
        if last_server_sequence > i64::MAX as u64 {
            return Err(failure("AHP server sequence exceeds SQLite"));
        }
        let sequence: i64 = last_server_sequence as i64;
        if !self.adapter_is_registered(adapter_id, adapter_instance_id) {
            return Err(failure("AHP adapter identity is not registered"));
        }
        let at = match self.find_binding(binding_id) {
            Some(i) => {
                let row = &self.bindings[i];
                if row.generation == binding_generation && str_eq(
                    row.endpoint_id.as_str(),
                    endpoint_id,
                ) && opt_is(&row.host_instance_id, host_instance_id) && str_eq(
                    row.session_uri.as_str(),
                    session_uri,
                ) && (row.state == BindingState::Binding || row.state == BindingState::Bound) {
                    Some(i)
                } else {
                    None
                }
            },
            None => None,
        };
        match at {
            None => {
                proof {
                    self.lemma_id_is_unique(binding_id@);
                }
                Err(failure("AHP binding acknowledgement is stale or mismatched"))
            },
            Some(i) => {
                let ghost a = *self;
                proof {
                    self.lemma_id_is_unique(binding_id@);
                    assert(ready_for(
                        self.bindings@[i as int],
                        binding_id@,
                        binding_generation,
                        endpoint_id@,
                        host_instance_id@,
                        session_uri@,
                    ));
                }
                self.bindings[i].state = BindingState::Bound;
                self.bindings[i].chat_uri = Some(chat_uri.to_owned());
                if sequence > self.bindings[i].last_server_sequence {
                    self.bindings[i].last_server_sequence = sequence;
                }
                self.bindings[i].error_code = None;
                self.bindings[i].updated_at = now;
                proof {
                    self.lemma_same_bindings(a);
                }
                Ok(())
            },
        }
    }

    /// No two tracked sessions have that identifier.
    pub(crate) proof fn lemma_id_is_unique(self, id: Seq<char>)
        requires
            self.wf(),
        ensures
            forall|i: int, j: int|
                #![trigger self.bindings@[i], self.bindings@[j]]
                0 <= i < self.bindings@.len() && 0 <= j < self.bindings@.len()
                    && self.bindings@[i].binding_id@ == id && self.bindings@[j].binding_id@ == id
                    ==> i == j,
    {
        assert forall|i: int, j: int|
            #![trigger self.bindings@[i], self.bindings@[j]]
            0 <= i < self.bindings@.len() && 0 <= j < self.bindings@.len()
                && self.bindings@[i].binding_id@ == id && self.bindings@[j].binding_id@
                == id implies i == j by {
            if i < j {
                assert(self.bindings@[i].binding_id@ != self.bindings@[j].binding_id@);
            } else if j < i {
                assert(self.bindings@[j].binding_id@ != self.bindings@[i].binding_id@);
            }
        }
    }

    /// Takes note that the adapter could not bind a session.
    pub fn ahp_binding_failed(
        &mut self,
        adapter_id: &str,
        adapter_instance_id: &str,
        binding_id: &str,
        binding_generation: i64,
        reason_code: &str,
        now: i64,
    ) -> (r: Result<(), Failure>)
        requires
            old(self).wf(),
        ensures
            final(self).wf(),
            unready_outcome(
                *old(self),
                *final(self),
                adapter_id@,
                adapter_instance_id@,
                binding_id@,
                binding_generation,
                reason_code@,
                now,
                r,
            ),
    {
        if !self.adapter_is_registered(adapter_id, adapter_instance_id) {
            return Err(failure("AHP adapter identity is not registered"));
        }
        proof {
            self.lemma_id_is_unique(binding_id@);
        }
        match self.find_binding(binding_id) {
            None => Err(failure("AHP binding failure is stale")),
            Some(i) => {
                if self.bindings[i].generation != binding_generation {
                    return Err(failure("AHP binding failure is stale"));
                }
                let ghost a = *self;
                assert(self.bindings@[i as int].binding_id@ == binding_id@);
                self.bindings[i].state = BindingState::Failed;
                self.bindings[i].error_code = Some(reason_code.to_owned());
                self.bindings[i].updated_at = now;
                proof {
                    self.lemma_same_bindings(a);
                }
                Ok(())
            },
        }
    }

    /// Why nothing can be sent to the session at that address.
    pub open spec fn route_fault(self, uri: Seq<char>) -> Option<Seq<char>> {
        match self.binding_of(uri) {
            None => Some("the target AHP session is not tracked"@),
            Some(row) => if !fits(row) {
                Some(out_of_range())
            } else if row.state != BindingState::Binding && row.state != BindingState::Bound {
                Some("AHP session binding is not ready"@)
            } else {
                None
            },
        }
    }

    /// Why nothing that needs a chat can be sent to the session at that address.
    pub open spec fn bound_fault(self, uri: Seq<char>) -> Option<Seq<char>> {
        if self.route_fault(uri) is Some {
            self.route_fault(uri)
        } else if self.binding_of(uri)->0.state != BindingState::Bound || self.binding_of(
            uri,
        )->0.chat_uri is None {
            Some("AHP session binding is not ready"@)
        } else {
            None
        }
    }

    /// The tracked session at that address, if something can be sent to it.
    pub(crate) fn require_routable_binding_for_session(&self, session_uri: &str) -> (r: Result<
        usize,
        Failure,
    >)
        ensures
            match r {
                Err(f) => self.route_fault(session_uri@) == Some(f.message@),
                Ok(i) => self.route_fault(session_uri@) is None && i < self.bindings@.len()
                    && self.binding_of(session_uri@) == Some(self.bindings@[i as int])
                    && self.bindings@[i as int].session_uri@ == session_uri@,
            },
    {
        match self.find_binding_of(session_uri) {
            None => Err(failure("the target AHP session is not tracked")),
            Some(i) => {
                if self.bindings[i].queued_message_count > u32::MAX as i64 {
                    return Err(failure("out of range integral type conversion attempted"));
                }
                if self.bindings[i].state != BindingState::Binding && self.bindings[i].state
                    != BindingState::Bound {
                    return Err(failure("AHP session binding is not ready"));
                }
                Ok(i)
            },
        }
    }

    /// The tracked session at that address, if it is bound to a chat.
    pub(crate) fn require_bound_binding_for_session(&self, session_uri: &str) -> (r: Result<
        usize,
        Failure,
    >)
        ensures
            match r {
                Err(f) => self.bound_fault(session_uri@) == Some(f.message@),
                Ok(i) => self.bound_fault(session_uri@) is None && i < self.bindings@.len()
                    && self.binding_of(session_uri@) == Some(self.bindings@[i as int])
                    && self.bindings@[i as int].session_uri@ == session_uri@,
            },
    {
        match self.require_routable_binding_for_session(session_uri) {
            Err(f) => Err(f),
            Ok(i) => {
                if self.bindings[i].state != BindingState::Bound
                    || self.bindings[i].chat_uri.is_none() {
                    return Err(failure("AHP session binding is not ready"));
                }
                Ok(i)
            },
        }
    }
}

} // verus!
