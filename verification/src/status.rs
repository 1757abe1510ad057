//! What the bridge tells of the adapter, its hosts and the tracked sessions.
use vstd::prelude::*;
use vstd::string::*;

use crate::bindings::{out_of_range, with_binding_id};
use crate::catalog::lists_sessions;
use crate::config::{failure, Failure};
use crate::events::replayable;
use crate::protocol::{AhpBindingRecord, AhpHostDescriptor, AhpHostState, AhpSessionDescriptor};
use crate::store::{
    is_open_command, is_open_decision, is_open_input, is_tracked, AdapterRow, CommandRow, CommandState,
    Database, DecisionRow, DecisionState, HostRow, InputRow, InputState,
    WizardRow,
};
use crate::tables::{count, count_rows, is_selection, lemma_first_holds, select, SortKey};
use crate::text::{cat3, decimal, decimal_text};
use crate::wizard::{tells_wizard, tidied, AhpCreationWizardStatus};

verus! {

broadcast use vstd::string::group_string_axioms;

/// What is told of the adapter.
#[derive(Debug)]
pub struct AhpAdapterStatus {
    pub adapter_id: String,
    pub adapter_instance_id: String,
    pub version: String,
    pub state: String,
    pub last_seen_at: i64,
}

/// What is told of the adapter, its hosts and the tracked sessions.
#[derive(Debug)]
pub struct AhpStatus {
    pub adapter: Option<AhpAdapterStatus>,
    pub binding: Option<AhpBindingRecord>,
    pub bindings: Vec<AhpBindingRecord>,
    pub foreground_binding_id: Option<String>,
    pub hosts: Vec<AhpHostDescriptor>,
    pub sessions: Vec<AhpSessionDescriptor>,
    pub pending_commands: u32,
    pub pending_approvals: u32,
    pub pending_inputs: u32,
    pub pending_projections: u32,
    pub creation: Option<AhpCreationWizardStatus>,
}

/// Whether what is told of the adapter is so: it is stale where it was not
/// heard of since the cutoff, and else in the state that it was left in.
pub open spec fn tells_adapter(row: Option<AdapterRow>, cutoff: int, r: Option<AhpAdapterStatus>) -> bool {
    match row {
        None => r is None,
        Some(a) => {
            &&& r matches Some(s)
            &&& s.adapter_id == a.adapter_id
            &&& s.adapter_instance_id == a.adapter_instance_id
            &&& s.version == a.version
            &&& s.state@ == (if a.last_seen_at < cutoff {
                "stale"@
            } else {
                a.state.label()
            })
            &&& s.last_seen_at == a.last_seen_at
        },
    }
}

/// The state that a host is told to be in: one that could be used, but was not
/// heard of since the cutoff, cannot be reached.
pub open spec fn told_state(row: HostRow, cutoff: int) -> AhpHostState {
    if row.last_seen_at < cutoff && (row.state == AhpHostState::Connected || row.state
        == AhpHostState::ReadOnly) {
        AhpHostState::Unreachable
    } else {
        row.state
    }
}

/// Whether what is told of the host is so.
pub open spec fn tells_host(row: HostRow, cutoff: int, r: AhpHostDescriptor) -> bool {
    &&& r.endpoint_id == row.endpoint_id
    &&& r.host_instance_id == row.host_instance_id
    &&& r.pid == row.pid
    &&& r.advertised_protocol == row.advertised_protocol
    &&& r.selected_protocol == row.selected_protocol
    &&& r.state == told_state(row, cutoff)
    &&& r.host_label == row.host_label
    &&& r.ssh_alias == row.ssh_alias
    &&& r.target_kind == row.target_kind
    &&& r.target_path == row.target_path
    &&& r.endpoint_type == row.endpoint_type
    &&& r.editor_client_tools_available == Some(row.editor_client_tools_available)
    &&& r.last_seen_at == Some(row.last_seen_at)
}

/// The condition of being a host.
pub open spec fn any_host() -> spec_fn(HostRow) -> bool {
    |r: HostRow| true
}

/// What hosts are ordered by: their endpoints.
pub open spec fn by_endpoint() -> spec_fn(HostRow) -> (int, int, Seq<char>) {
    |r: HostRow| (0int, 0int, r.endpoint_id@)
}

/// Whether the records tell of the hosts, in the order of their endpoints.
pub open spec fn lists_hosts(
    db: Database,
    picks: Seq<usize>,
    cutoff: int,
    list: Seq<AhpHostDescriptor>,
) -> bool {
    &&& is_selection(db.hosts@, any_host(), by_endpoint(), false, picks)
    &&& list.len() == picks.len()
    &&& forall|k: int|
        #![trigger picks[k]]
        #![trigger list[k]]
        0 <= k < picks.len() ==> tells_host(db.hosts@[picks[k] as int], cutoff, list[k])
}

/// The condition of being a command that has not been disposed of.
pub open spec fn open_command() -> spec_fn(CommandRow) -> bool {
    |r: CommandRow| is_open_command(r)
}

/// The condition of being an approval that waits for its outcome.
pub open spec fn open_decision() -> spec_fn(DecisionRow) -> bool {
    |r: DecisionRow| is_open_decision(r)
}

/// The condition of being an input that waits for its outcome.
pub open spec fn open_input() -> spec_fn(InputRow) -> bool {
    |r: InputRow| is_open_input(r)
}

/// What is said where a count cannot be told.
pub open spec fn too_many(n: nat) -> Seq<char> {
    "Integer "@ + decimal(n) + " out of range at index 0"@
}

/// Why nothing can be told.
pub open spec fn status_fault(db: Database, stale_seconds: u64) -> Option<Seq<char>> {
    let commands = count(db.commands@, open_command());
    let decisions = count(db.decisions@, open_decision());
    let inputs = count(db.inputs@, open_input());
    let projections = count(db.projections@, replayable(db));
    if stale_seconds > i64::MAX {
        Some("AHP stale interval exceeds supported range"@)
    } else if commands > u32::MAX {
        Some(too_many(commands))
    } else if decisions > u32::MAX {
        Some(too_many(decisions))
    } else if inputs > u32::MAX {
        Some(too_many(inputs))
    } else if projections > u32::MAX {
        Some(too_many(projections))
    } else if db.some_unfit() {
        Some(out_of_range())
    } else {
        None
    }
}

/// Whether what is told is so.
pub open spec fn tells(db: Database, cutoff: int, s: AhpStatus) -> bool {
    &&& tells_adapter(db.adapter, cutoff, s.adapter)
    &&& db.shown(db.foreground_row(), Ok(s.binding))
    &&& exists|picks: Seq<usize>| #[trigger] db.lists(picks, s.bindings@)
    &&& match s.binding {
        Some(b) => s.foreground_binding_id == Some(b.binding_id),
        None => s.foreground_binding_id is None,
    }
    &&& exists|picks: Seq<usize>| #[trigger] lists_hosts(db, picks, cutoff, s.hosts@)
    &&& exists|picks: Seq<usize>| #[trigger] lists_sessions(db, picks, s.sessions@)
    &&& s.pending_commands == count(db.commands@, open_command())
    &&& s.pending_approvals == count(db.decisions@, open_decision())
    &&& s.pending_inputs == count(db.inputs@, open_input())
    &&& s.pending_projections == count(db.projections@, replayable(db))
}

/// Whether what is told of the dialogue in which a session is made is so.
pub open spec fn tells_creation(row: Option<WizardRow>, r: Option<AhpCreationWizardStatus>) -> bool {
    match row {
        Some(row) => r matches Some(w) && tells_wizard(row, w),
        None => r is None,
    }
}

fn told_count(n: usize) -> (r: Result<u32, Failure>)
    ensures
        match r {
            Ok(m) => m == n,
            Err(f) => n > u32::MAX && f.message@ == too_many(n as nat),
        },
{
    if n as u64 > u32::MAX as u64 {
        let number = decimal_text(n as u64);
        let message = cat3("Integer ", number.as_str(), " out of range at index 0");
        return Err(failure(message.as_str()));
    }
    Ok(n as u32)
}

fn host_record(row: &HostRow, cutoff: i64) -> (r: AhpHostDescriptor)
    ensures
        tells_host(*row, cutoff as int, r),
{
    let state = if row.last_seen_at < cutoff && (row.state == AhpHostState::Connected || row.state
        == AhpHostState::ReadOnly) {
        AhpHostState::Unreachable
    } else {
        row.state
    };
    AhpHostDescriptor {
        endpoint_id: row.endpoint_id.clone(),
        host_instance_id: row.host_instance_id.clone(),
        pid: row.pid,
        advertised_protocol: row.advertised_protocol.clone(),
        selected_protocol: row.selected_protocol.clone(),
        state,
        host_label: row.host_label.clone(),
        ssh_alias: row.ssh_alias.clone(),
        target_kind: row.target_kind,
        target_path: row.target_path.clone(),
        endpoint_type: row.endpoint_type.clone(),
        editor_client_tools_available: Some(row.editor_client_tools_available),
        last_seen_at: Some(row.last_seen_at),
    }
}

impl Database {
    fn host_records(&self, cutoff: i64) -> (r: Vec<AhpHostDescriptor>)
        ensures
            exists|picks: Seq<usize>| #[trigger] lists_hosts(*self, picks, cutoff as int, r@),
    {
        let test = |r: &HostRow| -> (b: bool)
            ensures
                b == (any_host())(*r),
        { true };
        let key = |r: &HostRow| -> (s: SortKey)
            ensures
                s@ == (by_endpoint())(*r),
        { SortKey { first: 0, second: 0, text: r.endpoint_id.clone() } };
        let picks = select(&self.hosts, test, key, false, Ghost(any_host()), Ghost(by_endpoint()));
        let mut r: Vec<AhpHostDescriptor> = Vec::new();
        let mut k: usize = 0;
        while k < picks.len()
            invariant
                k <= picks@.len(),
                is_selection(self.hosts@, any_host(), by_endpoint(), false, picks@),
                r@.len() == k,
                forall|l: int|
                    #![trigger picks@[l]]
                    #![trigger r@[l]]
                    0 <= l < k ==> tells_host(
                        self.hosts@[picks@[l] as int],
                        cutoff as int,
                        r@[l],
                    ),
            decreases picks@.len() - k,
        {
            r.push(host_record(&self.hosts[picks[k]], cutoff));
            k += 1;
        }
        assert(lists_hosts(*self, picks@, cutoff as int, r@));
        r
    }

    fn adapter_record(&self, cutoff: i64) -> (r: Option<AhpAdapterStatus>)
        ensures
            tells_adapter(self.adapter, cutoff as int, r),
    {
        match &self.adapter {
            None => None,
            Some(a) => Some(
                AhpAdapterStatus {
                    adapter_id: a.adapter_id.clone(),
                    adapter_instance_id: a.adapter_instance_id.clone(),
                    version: a.version.clone(),
                    state: if a.last_seen_at < cutoff {
                        "stale".to_owned()
                    } else {
                        a.state.as_str().to_owned()
                    },
                    last_seen_at: a.last_seen_at,
                },
            ),
        }
    }

    fn pending_counts(&self) -> (r: Result<(u32, u32, u32, u32), Failure>)
        ensures
            match r {
                Ok((commands, decisions, inputs, projections)) => {
                    &&& commands == count(self.commands@, open_command())
                    &&& decisions == count(self.decisions@, open_decision())
                    &&& inputs == count(self.inputs@, open_input())
                    &&& projections == count(self.projections@, replayable(*self))
                },
                Err(f) => status_fault(*self, 0) == Some(f.message@) && (count(
                    self.commands@,
                    open_command(),
                ) > u32::MAX || count(self.decisions@, open_decision()) > u32::MAX || count(
                    self.inputs@,
                    open_input(),
                ) > u32::MAX || count(self.projections@, replayable(*self)) > u32::MAX),
            },
    {
        let test = |r: &CommandRow| -> (b: bool)
            ensures
                b == (open_command())(*r),
        { r.state == CommandState::Pending || r.state == CommandState::Leased };
        let commands = match told_count(
            count_rows(&self.commands, test, Ghost(open_command())),
        ) {
            Err(f) => {
                return Err(f);
            },
            Ok(n) => n,
        };
        let test = |r: &DecisionRow| -> (b: bool)
            ensures
                b == (open_decision())(*r),
        { r.state == DecisionState::Pending || r.state == DecisionState::Submitted };
        let decisions = match told_count(
            count_rows(&self.decisions, test, Ghost(open_decision())),
        ) {
            Err(f) => {
                return Err(f);
            },
            Ok(n) => n,
        };
        let test = |r: &InputRow| -> (b: bool)
            ensures
                b == (open_input())(*r),
        { r.state == InputState::Pending || r.state == InputState::Submitted };
        let inputs = match told_count(count_rows(&self.inputs, test, Ghost(open_input()))) {
            Err(f) => {
                return Err(f);
            },
            Ok(n) => n,
        };
        let projections = match told_count(self.count_replayable()) {
            Err(f) => {
                return Err(f);
            },
            Ok(n) => n,
        };
        Ok((commands, decisions, inputs, projections))
    }

    /// What is told of the adapter, its hosts and the tracked sessions. What was
    /// not heard of for that many seconds is stale.
    pub fn ahp_status(&mut self, stale_seconds: u64, now: i64) -> (r: Result<AhpStatus, Failure>)
        requires
            old(self).wf(),
            stale_seconds <= i64::MAX ==> now - stale_seconds >= i64::MIN,
        ensures
            final(self).wf(),
            match status_fault(*old(self), stale_seconds) {
                Some(message) => *final(self) == *old(self) && (r matches Err(f) && f.message@
                    == message),
                None => {
                    &&& tidied(*old(self), *final(self), now)
                    &&& r matches Ok(s) && tells(*old(self), now - stale_seconds, s)
                        && tells_creation(final(self).wizard, s.creation)
                },
            },
    {
        if stale_seconds > i64::MAX as u64 {
            return Err(failure("AHP stale interval exceeds supported range"));
        }
        let cutoff: i64 = now - stale_seconds as i64;
        let adapter = self.adapter_record(cutoff);
        let hosts = self.host_records(cutoff);
        let (pending_commands, pending_approvals, pending_inputs, pending_projections) =
            match self.pending_counts() {
            Err(f) => {
                return Err(f);
            },
            Ok(counts) => counts,
        };
        let bindings = match self.ahp_bindings() {
            Err(f) => {
                return Err(f);
            },
            Ok(bindings) => bindings,
        };
        let binding = match self.ahp_binding() {
            Err(f) => {
                proof {
                    let row = self.foreground_row()->0;
                    self.lemma_foreground_row();
                    assert(self.some_unfit());
                }
                return Err(f);
            },
            Ok(binding) => binding,
        };
        let foreground_binding_id = match &binding {
            Some(b) => Some(b.binding_id.clone()),
            None => None,
        };
        let sessions = self.ahp_list_sessions();
        let ghost a = *self;
        let creation = self.ahp_creation_wizard_status(now);
        let s = AhpStatus {
            adapter,
            binding,
            bindings,
            foreground_binding_id,
            hosts,
            sessions,
            pending_commands,
            pending_approvals,
            pending_inputs,
            pending_projections,
            creation,
        };
        proof {
            let picks = choose|picks: Seq<usize>| #[trigger] a.lists(picks, bindings@);
            assert(a.lists(picks, s.bindings@));
            let picks = choose|picks: Seq<usize>| #[trigger]
                lists_hosts(a, picks, cutoff as int, hosts@);
            assert(lists_hosts(a, picks, cutoff as int, s.hosts@));
            let picks = choose|picks: Seq<usize>| #[trigger] lists_sessions(a, picks, sessions@);
            assert(lists_sessions(a, picks, s.sessions@));
            assert(tells(a, now - stale_seconds, s));
        }
        Ok(s)
    }

    proof fn lemma_foreground_row(self)
        requires
            self.foreground_row() is Some,
        ensures
            exists|i: int|
                0 <= i < self.bindings@.len() && #[trigger] self.bindings@[i]
                    == self.foreground_row()->0 && is_tracked(self.bindings@[i]),
    {
        let id = self.foreground->0.binding_id@;
        lemma_first_holds(self.bindings@, with_binding_id(id));
    }
}

} // verus!
