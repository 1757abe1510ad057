//! The catalogue of hosts and sessions, and the buttons that bring a session to
//! the foreground.
use vstd::prelude::*;
use vstd::string::*;

use crate::bindings::{focus_outcome, lemma_same_commands, not_registered, out_of_range, shows};
use crate::codes::{
    are_codes, are_token_lists, draw_codes, draw_token_lists, pick_each, picks, picks_are_free,
};
use crate::commands::{all_reclaim_command, apply_reclaim_command};
use crate::config::{copy_texts, failure, same_texts, Failure};
use crate::protocol::{
    AhpAdapterRegistration, AhpBindingRecord, AhpHostDescriptor, AhpHostState, AhpSessionDescriptor,
};
use crate::store::{
    has_host, is_open_command, is_open_decision, is_open_input, is_tracked, new_uuid, uuid_text,
    AdapterRow, AdapterState, BindingRow, BindingState, CatalogRow, CommandRow, CommandState, Database, DecisionRow,
    DecisionState, HostRow, InputRow, InputState, SwitchButtonRow,
};
use crate::tables::{
    changed, find, first, is_selection, lead, lemma_filter_push, lemma_filter_unique, lemma_first,
    lemma_first_holds, lemma_first_none, lemma_lead, opt_is, retain, select, unique, SortKey,
};
use crate::text::{is_listed, lists_text, opt_view, str_eq, to_upper, upper, views};

verus! {

broadcast use vstd::string::group_string_axioms;

// ---------------------------------------------------------------------------
// The adapter

/// The tracked sessions that a newly registered adapter has to see to.
#[derive(Debug)]
pub struct AhpRegisterResult {
    pub bindings: Vec<AhpBindingRecord>,
    pub foreground_binding_id: Option<String>,
}

/// Whether the row is the adapter that has just registered.
pub open spec fn is_adapter(r: AdapterRow, reg: AhpAdapterRegistration, now: i64) -> bool {
    &&& r.adapter_id == reg.adapter_id
    &&& r.adapter_instance_id == reg.adapter_instance_id
    &&& r.version == reg.version
    &&& views(r.supported_protocols@) == views(reg.supported_protocols@)
    &&& r.state == AdapterState::Connected
    &&& r.last_seen_at == now
    &&& r.updated_at == now
}

/// Whether another instance of the adapter is registered.
pub open spec fn other_adapter(db: Database, reg: AhpAdapterRegistration) -> bool {
    db.adapter is Some && !db.is_registered(reg.adapter_id@, reg.adapter_instance_id@)
}

impl Database {
    /// Registers an adapter. Where it takes the place of another instance, the
    /// commands that were leased wait again.
    pub fn ahp_register_adapter(&mut self, registration: &AhpAdapterRegistration, now: i64) -> (r:
        Result<AhpRegisterResult, Failure>)
        requires
            old(self).wf(),
        ensures
            final(self).wf(),
            *final(self) == (Database {
                adapter: final(self).adapter,
                commands: final(self).commands,
                ..*old(self)
            }),
            final(self).adapter is Some,
            is_adapter(final(self).adapter->0, *registration, now),
            if other_adapter(*old(self), *registration) {
                all_reclaim_command(old(self).commands@, final(self).commands@, now)
            } else {
                final(self).commands == old(self).commands
            },
            match r {
                Err(f) => final(self).some_unfit() && f.message@ == out_of_range(),
                Ok(result) => {
                    &&& !final(self).some_unfit()
                    &&& exists|picks: Seq<usize>| #[trigger]
                        final(self).lists(picks, result.bindings@)
                    &&& match final(self).foreground_row() {
                        Some(row) => result.foreground_binding_id == Some(row.binding_id),
                        None => result.foreground_binding_id is None,
                    }
                },
            },
    {
        let ghost a = *self;
        let other = self.adapter.is_some() && !self.adapter_is_registered(
            registration.adapter_id.as_str(),
            registration.adapter_instance_id.as_str(),
        );
        if other {
            apply_reclaim_command(&mut self.commands, now);
            proof {
                lemma_same_commands(a.commands@, self.commands@, self.next_command_id);
            }
        }
        self.adapter = Some(
            AdapterRow {
                adapter_id: registration.adapter_id.clone(),
                adapter_instance_id: registration.adapter_instance_id.clone(),
                version: registration.version.clone(),
                supported_protocols: copy_texts(&registration.supported_protocols),
                state: AdapterState::Connected,
                last_seen_at: now,
                updated_at: now,
            },
        );
        match self.ahp_bindings() {
            Err(f) => Err(f),
            Ok(bindings) => {
                let ghost picks = choose|picks: Seq<usize>| #[trigger] self.lists(picks, bindings@);
                match self.ahp_binding() {
                    Err(f) => {
                        proof {
                            let row = self.foreground_row()->0;
                            lemma_first_holds(
                                self.bindings@,
                                crate::bindings::with_binding_id(self.foreground->0.binding_id@),
                            );
                            let i = choose|i: int|
                                0 <= i < self.bindings@.len() && #[trigger] self.bindings@[i]
                                    == row;
                            assert(is_tracked(self.bindings@[i]));
                        }
                        Err(f)
                    },
                    Ok(front) => {
                        let foreground_binding_id = match front {
                            Some(record) => Some(record.binding_id),
                            None => None,
                        };
                        let result = AhpRegisterResult { bindings, foreground_binding_id };
                        let r: Result<AhpRegisterResult, Failure> = Ok(result);
                        assert(self.lists(picks, r->Ok_0.bindings@));
                        r
                    },
                }
            },
        }
    }
}

// ---------------------------------------------------------------------------
// Replacing the catalogue

/// The host as the adapter describes it.
pub open spec fn host_row(h: AhpHostDescriptor, now: i64) -> HostRow {
    HostRow {
        endpoint_id: h.endpoint_id,
        host_instance_id: h.host_instance_id,
        pid: h.pid,
        advertised_protocol: h.advertised_protocol,
        selected_protocol: h.selected_protocol,
        state: h.state,
        host_label: h.host_label,
        ssh_alias: h.ssh_alias,
        target_kind: h.target_kind,
        target_path: h.target_path,
        endpoint_type: h.endpoint_type,
        editor_client_tools_available: match h.editor_client_tools_available {
            Some(b) => b,
            None => true,
        },
        last_seen_at: now,
    }
}

/// Whether `b` is `a` with the host in the place of the one with its endpoint,
/// or behind the others.
pub open spec fn host_put(a: Seq<HostRow>, b: Seq<HostRow>, h: AhpHostDescriptor, now: i64) -> bool {
    if has_host(a, h.endpoint_id@) {
        a.len() == b.len() && forall|i: int|
            0 <= i < a.len() ==> #[trigger] b[i] == (if a[i].endpoint_id@ == h.endpoint_id@ {
                host_row(h, now)
            } else {
                a[i]
            })
    } else {
        b == a.push(host_row(h, now))
    }
}

/// Whether `b` is `a` with all these hosts put in, one after the other.
pub open spec fn hosts_put(
    a: Seq<HostRow>,
    b: Seq<HostRow>,
    hosts: Seq<AhpHostDescriptor>,
    now: i64,
) -> bool
    decreases hosts.len(),
{
    if hosts.len() == 0 {
        b == a
    } else {
        exists|m: Seq<HostRow>|
            hosts_put(a, m, hosts.drop_last(), now) && #[trigger] host_put(m, b, hosts.last(), now)
    }
}

/// Whether the row is the session as the adapter describes it, with that code.
pub open spec fn is_session_row(
    r: CatalogRow,
    s: AhpSessionDescriptor,
    code: Seq<char>,
    now: i64,
) -> bool {
    &&& r.session_uri@ == s.session_uri@
    &&& r.short_code@ == code
    &&& r.endpoint_id == s.endpoint_id
    &&& r.host_instance_id == s.host_instance_id
    &&& r.provider == s.provider
    &&& r.title == s.title
    &&& r.status == s.status
    &&& views(r.workspace_uris@) == views(s.workspace_uris@)
    &&& r.created_at == s.created_at
    &&& r.modified_at == s.modified_at
    &&& r.host_label == s.host_label
    &&& r.ssh_alias == s.ssh_alias
    &&& r.target_kind == s.target_kind
    &&& r.target_path == s.target_path
    &&& r.editor_client_tools_available == (match s.editor_client_tools_available {
        Some(b) => b,
        None => true,
    })
    &&& r.available
    &&& r.last_seen_at == now
}

/// Whether the catalogue has a session at that address.
pub open spec fn has_uri(rows: Seq<CatalogRow>, uri: Seq<char>) -> bool {
    exists|i: int| 0 <= i < rows.len() && (#[trigger] rows[i]).session_uri@ == uri
}

/// Whether a session has that code.
pub open spec fn is_code_taken(rows: Seq<CatalogRow>, code: Seq<char>) -> bool {
    exists|i: int| 0 <= i < rows.len() && (#[trigger] rows[i]).short_code@ == code
}

/// Whether the session at that address has that code.
pub open spec fn has_code(rows: Seq<CatalogRow>, uri: Seq<char>, code: Seq<char>) -> bool {
    exists|i: int|
        0 <= i < rows.len() && (#[trigger] rows[i]).session_uri@ == uri && rows[i].short_code@ == code
}

/// Whether an earlier description has the address of that one.
pub open spec fn is_repeated(sessions: Seq<AhpSessionDescriptor>, k: int) -> bool {
    exists|j: int|
        0 <= j < k && (#[trigger] sessions[j]).session_uri@ == sessions[k].session_uri@
}

/// Whether a session is described for the first time.
pub open spec fn is_new(rows: Seq<CatalogRow>, sessions: Seq<AhpSessionDescriptor>, k: int) -> bool {
    !has_uri(rows, sessions[k].session_uri@) && !is_repeated(sessions, k)
}

/// The condition of being a code that neither a session has nor an earlier one of the
/// new ones gets.
pub open spec fn free_code(rows: Seq<CatalogRow>, codes: Seq<Option<Seq<char>>>) -> spec_fn(
    String,
) -> bool {
    |s: String| !is_code_taken(rows, s@) && !codes.contains(Some(s@))
}

/// The codes that the first `k` of the sessions get, where these were drawn for them:
/// each new one gets the first of its codes that is free, the others none. Nothing
/// where a new session gets none.
pub open spec fn new_codes(
    rows: Seq<CatalogRow>,
    sessions: Seq<AhpSessionDescriptor>,
    drawn: Seq<Vec<String>>,
    k: nat,
) -> Option<Seq<Option<Seq<char>>>>
    decreases k,
{
    if k == 0 {
        Some(Seq::empty())
    } else {
        match new_codes(rows, sessions, drawn, (k - 1) as nat) {
            None => None,
            Some(earlier) => if !is_new(rows, sessions, k - 1) {
                Some(earlier.push(None))
            } else {
                match first(drawn[k - 1]@, free_code(rows, earlier)) {
                    None => None,
                    Some(s) => Some(earlier.push(Some(s@))),
                }
            },
        }
    }
}

/// Whether the sessions have the codes.
pub open spec fn codes_given(
    rows: Seq<CatalogRow>,
    sessions: Seq<AhpSessionDescriptor>,
    codes: Seq<Option<Seq<char>>>,
) -> bool {
    forall|k: int|
        0 <= k < codes.len() && (#[trigger] codes[k]) is Some ==> has_code(
            rows,
            sessions[k].session_uri@,
            codes[k]->0,
        )
}

/// Whether codes were drawn for each of the new sessions.
pub open spec fn are_new_draws(
    rows: Seq<CatalogRow>,
    sessions: Seq<AhpSessionDescriptor>,
    drawn: Seq<Vec<String>>,
) -> bool {
    &&& drawn.len() == sessions.len()
    &&& forall|k: int|
        0 <= k < drawn.len() && is_new(rows, sessions, k) ==> are_codes(
            (#[trigger] drawn[k])@,
            Some('A'),
            4,
        )
}

/// The characters of each code.
pub open spec fn code_views(codes: Seq<Option<String>>) -> Seq<Option<Seq<char>>> {
    codes.map_values(|c: Option<String>| opt_view(c))
}

proof fn lemma_no_new_codes(
    rows: Seq<CatalogRow>,
    sessions: Seq<AhpSessionDescriptor>,
    drawn: Seq<Vec<String>>,
    k: nat,
    n: nat,
)
    requires
        k <= n,
        new_codes(rows, sessions, drawn, k) is None,
    ensures
        new_codes(rows, sessions, drawn, n) is None,
    decreases n - k,
{
    if k < n {
        lemma_no_new_codes(rows, sessions, drawn, k + 1, n);
    }
}

/// Whether the codes can be given to the sessions: just the new ones get one, none of
/// them is a session's, and no two are equal.
pub open spec fn codes_fit(
    rows: Seq<CatalogRow>,
    sessions: Seq<AhpSessionDescriptor>,
    codes: Seq<Option<Seq<char>>>,
) -> bool {
    &&& forall|j: int|
        0 <= j < codes.len() ==> ((#[trigger] codes[j]) is Some <==> is_new(rows, sessions, j))
    &&& forall|j: int|
        0 <= j < codes.len() && (#[trigger] codes[j]) is Some ==> !is_code_taken(rows, codes[j]->0)
    &&& forall|i: int, j: int|
        0 <= i < j < codes.len() && (#[trigger] codes[i]) is Some && (#[trigger] codes[j]) is Some
            ==> codes[i]->0 != codes[j]->0
}

proof fn lemma_new_codes(
    rows: Seq<CatalogRow>,
    sessions: Seq<AhpSessionDescriptor>,
    drawn: Seq<Vec<String>>,
    k: nat,
)
    requires
        k <= drawn.len(),
        new_codes(rows, sessions, drawn, k) is Some,
    ensures
        new_codes(rows, sessions, drawn, k)->0.len() == k,
        codes_fit(rows, sessions, new_codes(rows, sessions, drawn, k)->0),
    decreases k,
{
    if k > 0 {
        let earlier = new_codes(rows, sessions, drawn, (k - 1) as nat)->0;
        lemma_new_codes(rows, sessions, drawn, (k - 1) as nat);
        let codes = new_codes(rows, sessions, drawn, k)->0;
        if is_new(rows, sessions, k - 1) {
            lemma_first_holds(drawn[k - 1]@, free_code(rows, earlier));
            let s = first(drawn[k - 1]@, free_code(rows, earlier))->0;
            assert(codes == earlier.push(Some(s@)));
            assert forall|i: int| 0 <= i < earlier.len() && (#[trigger] earlier[i]) is Some implies
                earlier[i]->0 != s@ by {
                assert(earlier[i] == Some(earlier[i]->0));
            }
            assert forall|i: int, j: int|
                0 <= i < j < codes.len() && (#[trigger] codes[i]) is Some && (
                #[trigger] codes[j]) is Some implies codes[i]->0 != codes[j]->0 by {
                assert(codes[i] == earlier[i]);
                if j < k - 1 {
                    assert(codes[j] == earlier[j]);
                }
            }
        } else {
            assert(codes == earlier.push(None));
        }
    }
}

/// Whether `b` is `a` with the session in its place: a known session keeps its
/// place and its code, a new one comes behind the others.
pub open spec fn session_put(
    a: Seq<CatalogRow>,
    b: Seq<CatalogRow>,
    s: AhpSessionDescriptor,
    now: i64,
) -> bool {
    if has_uri(a, s.session_uri@) {
        a.len() == b.len() && forall|i: int|
            #![trigger b[i]]
            0 <= i < a.len() ==> if a[i].session_uri@ == s.session_uri@ {
                is_session_row(b[i], s, a[i].short_code@, now)
            } else {
                b[i] == a[i]
            }
    } else {
        &&& b == a.push(b.last())
        &&& is_session_row(b.last(), s, b.last().short_code@, now)
    }
}

/// Whether `b` is `a` with all these sessions put in, one after the other.
pub open spec fn sessions_put(
    a: Seq<CatalogRow>,
    b: Seq<CatalogRow>,
    sessions: Seq<AhpSessionDescriptor>,
    now: i64,
) -> bool
    decreases sessions.len(),
{
    if sessions.len() == 0 {
        b == a
    } else {
        exists|m: Seq<CatalogRow>|
            sessions_put(a, m, sessions.drop_last(), now) && #[trigger] session_put(
                m,
                b,
                sessions.last(),
                now,
            )
    }
}

/// Whether one of the hosts has that endpoint.
pub open spec fn describes(hosts: Seq<AhpHostDescriptor>, endpoint: Seq<char>) -> bool {
    exists|i: int| 0 <= i < hosts.len() && (#[trigger] hosts[i]).endpoint_id@ == endpoint
}

/// Whether one of the hosts is the one that the session runs on.
pub open spec fn is_hosted(hosts: Seq<AhpHostDescriptor>, s: AhpSessionDescriptor) -> bool {
    exists|i: int|
        0 <= i < hosts.len() && (#[trigger] hosts[i]).endpoint_id@ == s.endpoint_id@
            && hosts[i].host_instance_id@ == s.host_instance_id@
}

/// The adapter as connected, and last heard of, at that time.
pub open spec fn connected(adapter: Option<AdapterRow>, now: i64) -> Option<AdapterRow> {
    match adapter {
        Some(a) => Some(
            AdapterRow {
                state: AdapterState::Connected,
                last_seen_at: now,
                updated_at: now,
                ..a
            },
        ),
        None => None,
    }
}

/// How many of the sessions come before the first one that runs on none of the hosts.
pub open spec fn hosted_lead(
    hosts: Seq<AhpHostDescriptor>,
    sessions: Seq<AhpSessionDescriptor>,
) -> nat {
    lead(sessions.len(), |k: int| is_hosted(hosts, sessions[k]))
}

/// The session after the catalogue was opened for a new description: a full one
/// takes all sessions off, another one those of the hosts that it describes.
pub open spec fn taken_off(r: CatalogRow, hosts: Seq<AhpHostDescriptor>, full: bool) -> CatalogRow {
    if full || describes(hosts, r.endpoint_id@) {
        CatalogRow { available: false, ..r }
    } else {
        r
    }
}

/// The condition of being the host with that endpoint.
pub open spec fn host_at(endpoint: Seq<char>) -> spec_fn(AhpHostDescriptor) -> bool {
    |h: AhpHostDescriptor| h.endpoint_id@ == endpoint
}

/// Whether the host that a tracked session was bound on is gone: another
/// instance stands in its place, or a full description does not name it.
pub open spec fn is_lost(row: BindingRow, hosts: Seq<AhpHostDescriptor>, full: bool) -> bool {
    &&& is_tracked(row)
    &&& match first(hosts, host_at(row.endpoint_id@)) {
        Some(h) => opt_view(row.host_instance_id) != Some(h.host_instance_id@),
        None => full && row.host_instance_id is Some,
    }
}

/// Whether the tracked session with that identifier has lost its host.
pub open spec fn lost_id(
    rows: Seq<BindingRow>,
    id: Seq<char>,
    hosts: Seq<AhpHostDescriptor>,
    full: bool,
) -> bool {
    exists|i: int|
        0 <= i < rows.len() && is_lost(#[trigger] rows[i], hosts, full) && rows[i].binding_id@ == id
}

/// Whether the tracked session at that address has lost its host.
pub open spec fn lost_uri(
    rows: Seq<BindingRow>,
    uri: Seq<char>,
    hosts: Seq<AhpHostDescriptor>,
    full: bool,
) -> bool {
    exists|i: int|
        0 <= i < rows.len() && is_lost(#[trigger] rows[i], hosts, full) && rows[i].session_uri@
            == uri
}

/// Whether `b` is `a` after the tracked sessions whose hosts are gone were
/// given up: they are lost, and all that was under way for them has failed.
pub open spec fn hosts_changed(
    a: Database,
    b: Database,
    hosts: Seq<AhpHostDescriptor>,
    full: bool,
    now: i64,
) -> bool {
    &&& b == (Database {
        bindings: b.bindings,
        commands: b.commands,
        decisions: b.decisions,
        inputs: b.inputs,
        ..a
    })
    &&& changed(
        a.bindings@,
        b.bindings@,
        |p: BindingRow, q: BindingRow|
            if is_lost(p, hosts, full) {
                q == (BindingRow {
                    state: BindingState::Lost,
                    chat_uri: None,
                    active_turn_id: None,
                    queued_message_count: 0,
                    error_code: q.error_code,
                    updated_at: now,
                    ..p
                }) && opt_view(q.error_code) == Some("host_restarted"@)
            } else {
                q == p
            },
    )
    &&& changed(
        a.commands@,
        b.commands@,
        |p: CommandRow, q: CommandRow|
            if is_open_command(p) && lost_id(a.bindings@, p.binding_id@, hosts, full) {
                q == (CommandRow {
                    state: CommandState::Failed,
                    error_code: q.error_code,
                    updated_at: now,
                    ..p
                }) && opt_view(q.error_code) == Some("host_restarted"@)
            } else {
                q == p
            },
    )
    &&& changed(
        a.decisions@,
        b.decisions@,
        |p: DecisionRow, q: DecisionRow|
            q == (if is_open_decision(p) && lost_uri(a.bindings@, p.session_uri@, hosts, full) {
                DecisionRow { state: DecisionState::Failed, updated_at: now, ..p }
            } else {
                p
            }),
    )
    &&& changed(
        a.inputs@,
        b.inputs@,
        |p: InputRow, q: InputRow|
            q == (if is_open_input(p) && lost_uri(a.bindings@, p.session_uri@, hosts, full) {
                InputRow { state: InputState::Failed, updated_at: now, ..p }
            } else {
                p
            }),
    )
}

/// Whether `b` is `a` with the catalogue as the adapter describes it.
pub open spec fn catalog_replaced(
    a: Database,
    b: Database,
    hosts: Seq<AhpHostDescriptor>,
    sessions: Seq<AhpSessionDescriptor>,
    full: bool,
    now: i64,
) -> bool {
    exists|m: Database, off: Seq<CatalogRow>, cut: Seq<HostRow>|
        {
            &&& m == (Database { hosts: m.hosts, catalog: m.catalog, ..a })
            &&& off.len() == a.catalog@.len()
            &&& forall|i: int|
                0 <= i < off.len() ==> #[trigger] off[i] == taken_off(a.catalog@[i], hosts, full)
            &&& cut.len() == a.hosts@.len()
            &&& forall|i: int|
                0 <= i < cut.len() ==> #[trigger] cut[i] == (if full {
                    HostRow { state: AhpHostState::Unreachable, ..a.hosts@[i] }
                } else {
                    a.hosts@[i]
                })
            &&& #[trigger] hosts_put(cut, m.hosts@, hosts, now)
            &&& #[trigger] sessions_put(off, m.catalog@, sessions, now)
            &&& exists|x: Database|
                #[trigger] hosts_changed(m, x, hosts, full, now) && b == (Database {
                    adapter: connected(a.adapter, now),
                    ..x
                })
        }
}

proof fn lemma_hosts_put(
    a: Seq<HostRow>,
    m: Seq<HostRow>,
    b: Seq<HostRow>,
    hosts: Seq<AhpHostDescriptor>,
    now: i64,
)
    requires
        hosts.len() > 0,
        hosts_put(a, m, hosts.drop_last(), now),
        host_put(m, b, hosts.last(), now),
    ensures
        hosts_put(a, b, hosts, now),
{
}

proof fn lemma_sessions_put(
    a: Seq<CatalogRow>,
    m: Seq<CatalogRow>,
    b: Seq<CatalogRow>,
    sessions: Seq<AhpSessionDescriptor>,
    now: i64,
)
    requires
        sessions.len() > 0,
        sessions_put(a, m, sessions.drop_last(), now),
        session_put(m, b, sessions.last(), now),
    ensures
        sessions_put(a, b, sessions, now),
{
}

fn describes_endpoint(hosts: &[AhpHostDescriptor], endpoint: &str) -> (r: bool)
    ensures
        r == describes(hosts@, endpoint@),
{
    let mut i: usize = 0;
    while i < hosts.len()
        invariant
            i <= hosts@.len(),
            forall|j: int| 0 <= j < i ==> (#[trigger] hosts@[j]).endpoint_id@ != endpoint@,
        decreases hosts@.len() - i,
    {
        if str_eq(hosts[i].endpoint_id.as_str(), endpoint) {
            assert(hosts@[i as int].endpoint_id@ == endpoint@);
            return true;
        }
        i += 1;
    }
    false
}

fn count_hosted(hosts: &[AhpHostDescriptor], sessions: &[AhpSessionDescriptor]) -> (r: usize)
    ensures
        r <= sessions@.len(),
        r == hosted_lead(hosts@, sessions@),
        forall|j: int| 0 <= j < r ==> is_hosted(hosts@, #[trigger] sessions@[j]),
{
    let mut k: usize = 0;
    while k < sessions.len() && hosts_session(hosts, &sessions[k])
        invariant
            k <= sessions@.len(),
            forall|j: int| 0 <= j < k ==> is_hosted(hosts@, #[trigger] sessions@[j]),
        decreases sessions@.len() - k,
    {
        k += 1;
    }
    proof {
        lemma_lead(sessions@.len(), |k: int| is_hosted(hosts@, sessions@[k]), k as nat);
    }
    k
}

fn hosts_session(hosts: &[AhpHostDescriptor], s: &AhpSessionDescriptor) -> (r: bool)
    ensures
        r == is_hosted(hosts@, *s),
{
    let mut i: usize = 0;
    while i < hosts.len()
        invariant
            i <= hosts@.len(),
            forall|j: int|
                0 <= j < i ==> !((#[trigger] hosts@[j]).endpoint_id@ == s.endpoint_id@
                    && hosts@[j].host_instance_id@ == s.host_instance_id@),
        decreases hosts@.len() - i,
    {
        if str_eq(hosts[i].endpoint_id.as_str(), s.endpoint_id.as_str()) && str_eq(
            hosts[i].host_instance_id.as_str(),
            s.host_instance_id.as_str(),
        ) {
            assert(hosts@[i as int].endpoint_id@ == s.endpoint_id@);
            return true;
        }
        i += 1;
    }
    false
}

fn find_host<'a>(hosts: &'a [AhpHostDescriptor], endpoint: &str) -> (r: Option<&'a AhpHostDescriptor>)
    ensures
        match r {
            Some(h) => first(hosts@, host_at(endpoint@)) == Some(*h),
            None => first(hosts@, host_at(endpoint@)) is None,
        },
{
    let mut i: usize = 0;
    while i < hosts.len()
        invariant
            i <= hosts@.len(),
            forall|j: int| 0 <= j < i ==> !host_at(endpoint@)(#[trigger] hosts@[j]),
        decreases hosts@.len() - i,
    {
        if str_eq(hosts[i].endpoint_id.as_str(), endpoint) {
            proof {
                lemma_first(hosts@, host_at(endpoint@), i as int);
            }
            return Some(&hosts[i]);
        }
        i += 1;
    }
    proof {
        lemma_first_none(hosts@, host_at(endpoint@));
    }
    None
}

fn has_lost_host(row: &BindingRow, hosts: &[AhpHostDescriptor], full: bool) -> (r: bool)
    ensures
        r == is_lost(*row, hosts@, full),
{
    if row.state == BindingState::Detaching {
        return false;
    }
    match find_host(hosts, row.endpoint_id.as_str()) {
        Some(h) => !opt_is(&row.host_instance_id, h.host_instance_id.as_str()),
        None => full && row.host_instance_id.is_some(),
    }
}

fn some_lost_id(rows: &Vec<BindingRow>, id: &str, hosts: &[AhpHostDescriptor], full: bool) -> (r: bool)
    ensures
        r == lost_id(rows@, id@, hosts@, full),
{
    let mut i: usize = 0;
    while i < rows.len()
        invariant
            i <= rows@.len(),
            forall|j: int|
                0 <= j < i ==> !(is_lost(#[trigger] rows@[j], hosts@, full) && rows@[j].binding_id@
                    == id@),
        decreases rows@.len() - i,
    {
        if has_lost_host(&rows[i], hosts, full) && str_eq(rows[i].binding_id.as_str(), id) {
            assert(is_lost(rows@[i as int], hosts@, full));
            return true;
        }
        i += 1;
    }
    false
}

fn some_lost_uri(rows: &Vec<BindingRow>, uri: &str, hosts: &[AhpHostDescriptor], full: bool) -> (r:
    bool)
    ensures
        r == lost_uri(rows@, uri@, hosts@, full),
{
    let mut i: usize = 0;
    while i < rows.len()
        invariant
            i <= rows@.len(),
            forall|j: int|
                0 <= j < i ==> !(is_lost(#[trigger] rows@[j], hosts@, full) && rows@[j].session_uri@
                    == uri@),
        decreases rows@.len() - i,
    {
        if has_lost_host(&rows[i], hosts, full) && str_eq(rows[i].session_uri.as_str(), uri) {
            assert(is_lost(rows@[i as int], hosts@, full));
            return true;
        }
        i += 1;
    }
    false
}

fn put_host(rows: &mut Vec<HostRow>, h: &AhpHostDescriptor, now: i64)
    requires
        unique(old(rows)@, |r: HostRow| r.endpoint_id@),
    ensures
        unique(final(rows)@, |r: HostRow| r.endpoint_id@),
        host_put(old(rows)@, final(rows)@, *h, now),
        has_host(final(rows)@, h.endpoint_id@),
        forall|e: Seq<char>| has_host(old(rows)@, e) ==> #[trigger] has_host(final(rows)@, e),
{
    let ghost a = rows@;
    let row = HostRow {
        endpoint_id: h.endpoint_id.clone(),
        host_instance_id: h.host_instance_id.clone(),
        pid: h.pid,
        advertised_protocol: h.advertised_protocol.clone(),
        selected_protocol: h.selected_protocol.clone(),
        state: h.state,
        host_label: h.host_label.clone(),
        ssh_alias: h.ssh_alias.clone(),
        target_kind: h.target_kind,
        target_path: h.target_path.clone(),
        endpoint_type: h.endpoint_type.clone(),
        editor_client_tools_available: match h.editor_client_tools_available {
            Some(b) => b,
            None => true,
        },
        last_seen_at: now,
    };
    assert(row == host_row(*h, now));
    let mut i: usize = 0;
    while i < rows.len() && !str_eq(rows[i].endpoint_id.as_str(), h.endpoint_id.as_str())
        invariant
            rows@ == a,
            i <= a.len(),
            forall|j: int| 0 <= j < i ==> (#[trigger] a[j]).endpoint_id@ != h.endpoint_id@,
        decreases rows@.len() - i,
    {
        i += 1;
    }
    if i < rows.len() {
        assert(a[i as int].endpoint_id@ == h.endpoint_id@);
        rows.set(i, row);
        proof {
            assert forall|j: int| 0 <= j < a.len() && j != i implies (#[trigger] a[j]).endpoint_id@
                != h.endpoint_id@ by {
                if j > i {
                    assert(a[i as int].endpoint_id@ != a[j].endpoint_id@);
                }
            }
            assert(rows@[i as int].endpoint_id@ == h.endpoint_id@);
            assert forall|e: Seq<char>| has_host(a, e) implies #[trigger] has_host(rows@, e) by {
                let k = choose|k: int| 0 <= k < a.len() && (#[trigger] a[k]).endpoint_id@ == e;
                assert(rows@[k].endpoint_id@ == e);
            }
        }
    } else {
        rows.push(row);
        proof {
            assert(rows@[a.len() as int].endpoint_id@ == h.endpoint_id@);
            assert forall|e: Seq<char>| has_host(a, e) implies #[trigger] has_host(rows@, e) by {
                let k = choose|k: int| 0 <= k < a.len() && (#[trigger] a[k]).endpoint_id@ == e;
                assert(rows@[k].endpoint_id@ == e);
            }
        }
    }
}

fn session_row(s: &AhpSessionDescriptor, code: String, now: i64) -> (r: CatalogRow)
    ensures
        is_session_row(r, *s, code@, now),
        r.session_uri == s.session_uri,
{
    CatalogRow {
        session_uri: s.session_uri.clone(),
        short_code: code,
        endpoint_id: s.endpoint_id.clone(),
        host_instance_id: s.host_instance_id.clone(),
        provider: s.provider.clone(),
        title: s.title.clone(),
        status: s.status,
        workspace_uris: copy_texts(&s.workspace_uris),
        created_at: s.created_at.clone(),
        modified_at: s.modified_at.clone(),
        host_label: s.host_label.clone(),
        ssh_alias: s.ssh_alias.clone(),
        target_kind: s.target_kind,
        target_path: s.target_path.clone(),
        editor_client_tools_available: match s.editor_client_tools_available {
            Some(b) => b,
            None => true,
        },
        available: true,
        last_seen_at: now,
    }
}

/// Puts the session in its place; a new one gets the code.
fn put_session(
    rows: &mut Vec<CatalogRow>,
    s: &AhpSessionDescriptor,
    code: &Option<String>,
    now: i64,
)
    requires
        unique(old(rows)@, |r: CatalogRow| r.session_uri@),
        unique(old(rows)@, |r: CatalogRow| r.short_code@),
        has_uri(old(rows)@, s.session_uri@) || (code is Some && !is_code_taken(
            old(rows)@,
            code->0@,
        )),
    ensures
        unique(final(rows)@, |r: CatalogRow| r.session_uri@),
        unique(final(rows)@, |r: CatalogRow| r.short_code@),
        session_put(old(rows)@, final(rows)@, *s, now),
        forall|u: Seq<char>| #[trigger] has_uri(final(rows)@, u) <==> has_uri(old(rows)@, u) || u == s.session_uri@,
        forall|c: Seq<char>| #[trigger]
            is_code_taken(final(rows)@, c) ==> is_code_taken(old(rows)@, c) || (!has_uri(
                old(rows)@,
                s.session_uri@,
            ) && c == code->0@),
        forall|u: Seq<char>, c: Seq<char>|
            has_code(old(rows)@, u, c) ==> #[trigger] has_code(final(rows)@, u, c),
        !has_uri(old(rows)@, s.session_uri@) ==> has_code(
            final(rows)@,
            s.session_uri@,
            code->0@,
        ),
        forall|i: int|
            0 <= i < final(rows)@.len() ==> (#[trigger] final(rows)@[i]).endpoint_id@
                == s.endpoint_id@ || exists|j: int|
                0 <= j < old(rows)@.len() && (#[trigger] old(rows)@[j]).endpoint_id@ == final(rows)@[i].endpoint_id@,
{
    let ghost a = rows@;
    let mut i: usize = 0;
    while i < rows.len() && !str_eq(rows[i].session_uri.as_str(), s.session_uri.as_str())
        invariant
            rows@ == a,
            i <= a.len(),
            forall|j: int| 0 <= j < i ==> (#[trigger] a[j]).session_uri@ != s.session_uri@,
        decreases rows@.len() - i,
    {
        i += 1;
    }
    if i < rows.len() {
        assert(a[i as int].session_uri@ == s.session_uri@);
        let kept = rows[i].short_code.clone();
        let row = session_row(s, kept, now);
        rows.set(i, row);
        proof {
            assert forall|j: int| 0 <= j < a.len() && j != i implies (#[trigger] a[j]).session_uri@
                != s.session_uri@ by {
                if j > i {
                    assert(a[i as int].session_uri@ != a[j].session_uri@);
                }
            }
            assert forall|j: int| 0 <= j < a.len() implies (#[trigger] rows@[j]).short_code@
                == a[j].short_code@ && rows@[j].session_uri@ == a[j].session_uri@ by {}
        }
    } else {
        let given = match code {
            Some(c) => c.clone(),
            None => String::new(),
        };
        let row = session_row(s, given, now);
        rows.push(row);
        proof {
            assert(!has_uri(a, s.session_uri@));
            assert(rows@[a.len() as int].short_code@ == code->0@);
            assert forall|j: int| 0 <= j < a.len() implies (#[trigger] a[j]).short_code@
                != code->0@ by {}
        }
    }
    proof {
        let b = rows@;
        assert forall|j: int| 0 <= j < a.len() implies (#[trigger] a[j]).short_code@
            == b[j].short_code@ && a[j].session_uri@ == b[j].session_uri@ by {}
        assert forall|u: Seq<char>| #[trigger] has_uri(b, u) <==> has_uri(a, u) || u
            == s.session_uri@ by {
            if has_uri(b, u) && u != s.session_uri@ {
                let x = choose|x: int| 0 <= x < b.len() && (#[trigger] b[x]).session_uri@ == u;
                assert(a[x].session_uri@ == u);
            }
            if has_uri(a, u) {
                let x = choose|x: int| 0 <= x < a.len() && (#[trigger] a[x]).session_uri@ == u;
                assert(b[x].session_uri@ == u);
            }
            assert(b[i as int].session_uri@ == s.session_uri@);
        }
        assert forall|c: Seq<char>| #[trigger] is_code_taken(b, c) implies is_code_taken(a, c) || (
        !has_uri(a, s.session_uri@) && c == code->0@) by {
            let x = choose|x: int| 0 <= x < b.len() && (#[trigger] b[x]).short_code@ == c;
            if x < a.len() {
                assert(a[x].short_code@ == c);
            }
        }
        assert forall|u: Seq<char>, c: Seq<char>| has_code(a, u, c) implies #[trigger] has_code(
            b,
            u,
            c,
        ) by {
            let x = choose|x: int|
                0 <= x < a.len() && (#[trigger] a[x]).session_uri@ == u && a[x].short_code@ == c;
            assert(b[x].session_uri@ == u);
        }
        assert forall|x: int| 0 <= x < b.len() implies (#[trigger] b[x]).endpoint_id@
            == s.endpoint_id@ || exists|j: int|
            0 <= j < a.len() && (#[trigger] a[j]).endpoint_id@ == b[x].endpoint_id@ by {
            if x < a.len() && b[x] == a[x] {
                assert(a[x].endpoint_id@ == b[x].endpoint_id@);
            }
        }
    }
}

fn repeats(sessions: &[AhpSessionDescriptor], k: usize) -> (r: bool)
    requires
        k < sessions@.len(),
    ensures
        r == is_repeated(sessions@, k as int),
{
    let mut j: usize = 0;
    while j < k
        invariant
            j <= k < sessions@.len(),
            forall|x: int|
                0 <= x < j ==> (#[trigger] sessions@[x]).session_uri@
                    != sessions@[k as int].session_uri@,
        decreases k - j,
    {
        if str_eq(sessions[j].session_uri.as_str(), sessions[k].session_uri.as_str()) {
            assert(sessions@[j as int].session_uri@ == sessions@[k as int].session_uri@);
            return true;
        }
        j += 1;
    }
    false
}

fn lists_code(codes: &Vec<Option<String>>, code: &str) -> (r: bool)
    ensures
        r == code_views(codes@).contains(Some(code@)),
{
    let mut i: usize = 0;
    while i < codes.len()
        invariant
            i <= codes@.len(),
            forall|j: int| 0 <= j < i ==> opt_view(#[trigger] codes@[j]) != Some(code@),
        decreases codes@.len() - i,
    {
        if let Some(c) = &codes[i] {
            if str_eq(c.as_str(), code) {
                assert(code_views(codes@)[i as int] == Some(code@));
                return true;
            }
        }
        i += 1;
    }
    assert forall|j: int| 0 <= j < code_views(codes@).len() implies code_views(codes@)[j] != Some(
        code@,
    ) by {
        assert(opt_view(codes@[j]) != Some(code@));
    }
    false
}

impl Database {
    fn is_code_free(&self, code: &str) -> (r: bool)
        ensures
            r == !is_code_taken(self.catalog@, code@),
    {
        let mut i: usize = 0;
        while i < self.catalog.len()
            invariant
                i <= self.catalog@.len(),
                forall|j: int| 0 <= j < i ==> (#[trigger] self.catalog@[j]).short_code@ != code@,
            decreases self.catalog@.len() - i,
        {
            if str_eq(self.catalog[i].short_code.as_str(), code) {
                return false;
            }
            i += 1;
        }
        true
    }

    fn is_session_new(&self, sessions: &[AhpSessionDescriptor], k: usize) -> (r: bool)
        requires
            k < sessions@.len(),
        ensures
            r == is_new(self.catalog@, sessions@, k as int),
    {
        match self.find_catalog(sessions[k].session_uri.as_str()) {
            Some(i) => {
                assert(self.catalog@[i as int].session_uri@ == sessions@[k as int].session_uri@);
                false
            },
            None => {
                assert(!has_uri(self.catalog@, sessions@[k as int].session_uri@));
                !repeats(sessions, k)
            },
        }
    }

    /// Draws codes for the new ones of the sessions.
    fn draw_new_codes(&self, sessions: &[AhpSessionDescriptor]) -> (r: Vec<Vec<String>>)
        ensures
            are_new_draws(self.catalog@, sessions@, r@),
    {
        let mut r: Vec<Vec<String>> = Vec::new();
        let mut k: usize = 0;
        while k < sessions.len()
            invariant
                k <= sessions@.len(),
                r@.len() == k,
                forall|j: int|
                    0 <= j < k && is_new(self.catalog@, sessions@, j) ==> are_codes(
                        (#[trigger] r@[j])@,
                        Some('A'),
                        4,
                    ),
            decreases sessions@.len() - k,
        {
            if self.is_session_new(sessions, k) {
                r.push(draw_codes(Some('A'), 4));
            } else {
                r.push(Vec::new());
            }
            k += 1;
        }
        r
    }

    /// Takes note that the adapter is connected.
    fn connect_adapter(&mut self, now: i64)
        requires
            old(self).wf(),
        ensures
            final(self).wf(),
            *final(self) == (Database { adapter: connected(old(self).adapter, now), ..*old(self) }),
    {
        match self.adapter.take() {
            Some(mut a) => {
                a.state = AdapterState::Connected;
                a.last_seen_at = now;
                a.updated_at = now;
                self.adapter = Some(a);
            },
            None => {},
        }
    }

    /// The codes that the first `n` of the sessions get.
    fn choose_codes(
        &self,
        sessions: &[AhpSessionDescriptor],
        drawn: &Vec<Vec<String>>,
        n: usize,
    ) -> (r: Option<Vec<Option<String>>>)
        requires
            n <= sessions@.len() <= drawn@.len(),
        ensures
            match r {
                Some(codes) => new_codes(self.catalog@, sessions@, drawn@, n as nat) == Some(
                    code_views(codes@),
                ),
                None => new_codes(self.catalog@, sessions@, drawn@, n as nat) is None,
            },
    {
        let mut r: Vec<Option<String>> = Vec::new();
        let mut k: usize = 0;
        assert(code_views(r@) =~= Seq::<Option<Seq<char>>>::empty());
        while k < n
            invariant
                k <= n <= sessions@.len() <= drawn@.len(),
                r@.len() == k,
                new_codes(self.catalog@, sessions@, drawn@, k as nat) == Some(code_views(r@)),
            decreases n - k,
        {
            let ghost before = r@;
            if self.is_session_new(sessions, k) {
                let test = |s: &String| -> (b: bool)
                    ensures
                        b == (free_code(self.catalog@, code_views(r@)))(*s),
                { self.is_code_free(s.as_str()) && !lists_code(&r, s.as_str()) };
                let found = find(
                    &drawn[k],
                    test,
                    Ghost(free_code(self.catalog@, code_views(r@))),
                );
                match found {
                    None => {
                        proof {
                            lemma_no_new_codes(
                                self.catalog@,
                                sessions@,
                                drawn@,
                                (k + 1) as nat,
                                n as nat,
                            );
                        }
                        return None;
                    },
                    Some(i) => {
                        let code = drawn[k][i].clone();
                        r.push(Some(code));
                        assert(code_views(r@) =~= code_views(before).push(
                            Some(drawn@[k as int]@[i as int]@),
                        ));
                    },
                }
            } else {
                r.push(None);
                assert(code_views(r@) =~= code_views(before).push(None));
            }
            k += 1;
        }
        Some(r)
    }

    /// Replaces the whole catalogue.
    pub fn ahp_replace_catalog(
        &mut self,
        adapter_id: &str,
        adapter_instance_id: &str,
        hosts: &[AhpHostDescriptor],
        sessions: &[AhpSessionDescriptor],
        now: i64,
    ) -> (r: Result<(), Failure>)
        requires
            old(self).wf(),
        ensures
            final(self).wf(),
            exists|drawn: Seq<Vec<String>>|
                are_new_draws(old(self).catalog@, sessions@, drawn) && #[trigger] replace_outcome(
                    *old(self),
                    *final(self),
                    adapter_id@,
                    adapter_instance_id@,
                    hosts@,
                    sessions@,
                    true,
                    drawn,
                    now,
                    r,
                ),
    {
        self.ahp_replace_catalog_scoped(
            adapter_id,
            adapter_instance_id,
            hosts,
            sessions,
            true,
            now,
        )
    }

    /// Replaces the catalogue, as a whole or for the hosts that are described.
    pub fn ahp_replace_catalog_scoped(
        &mut self,
        adapter_id: &str,
        adapter_instance_id: &str,
        hosts: &[AhpHostDescriptor],
        sessions: &[AhpSessionDescriptor],
        full_snapshot: bool,
        now: i64,
    ) -> (r: Result<(), Failure>)
        requires
            old(self).wf(),
        ensures
            final(self).wf(),
            exists|drawn: Seq<Vec<String>>|
                are_new_draws(old(self).catalog@, sessions@, drawn) && #[trigger] replace_outcome(
                    *old(self),
                    *final(self),
                    adapter_id@,
                    adapter_instance_id@,
                    hosts@,
                    sessions@,
                    full_snapshot,
                    drawn,
                    now,
                    r,
                ),
    {
        let drawn = self.draw_new_codes(sessions);
        self.replace_catalog_with_codes(
            adapter_id,
            adapter_instance_id,
            hosts,
            sessions,
            full_snapshot,
            &drawn,
            now,
        )
    }

    /// Replaces the catalogue, as a whole or for the hosts that are described; each
    /// new session gets the first of the codes drawn for it that is free.
    pub fn replace_catalog_with_codes(
        &mut self,
        adapter_id: &str,
        adapter_instance_id: &str,
        hosts: &[AhpHostDescriptor],
        sessions: &[AhpSessionDescriptor],
        full_snapshot: bool,
        drawn: &Vec<Vec<String>>,
        now: i64,
    ) -> (r: Result<(), Failure>)
        requires
            old(self).wf(),
            sessions@.len() <= drawn@.len(),
        ensures
            final(self).wf(),
            replace_outcome(
                *old(self),
                *final(self),
                adapter_id@,
                adapter_instance_id@,
                hosts@,
                sessions@,
                full_snapshot,
                drawn@,
                now,
                r,
            ),
    {
        if !self.adapter_is_registered(adapter_id, adapter_instance_id) {
            return Err(failure("AHP adapter identity is not registered"));
        }
        let n: usize = count_hosted(hosts, sessions);
        let codes = match self.choose_codes(sessions, drawn, n) {
            None => {
                return Err(failure("failed to allocate a unique AHP Session code"));
            },
            Some(codes) => codes,
        };
        if n < sessions.len() {
            return Err(failure("AHP session references an unknown host"));
        }
        if self.any_unfit() {
            return Err(failure("out of range integral type conversion attempted"));
        }
        proof {
            lemma_new_codes(self.catalog@, sessions@, drawn@, sessions@.len());
        }
        self.put_catalog(hosts, sessions, &codes, full_snapshot, now);
        Ok(())
    }

    fn any_unfit(&self) -> (r: bool)
        ensures
            r == self.some_unfit(),
    {
        let mut i: usize = 0;
        while i < self.bindings.len()
            invariant
                i <= self.bindings@.len(),
                forall|j: int|
                    0 <= j < i && is_tracked(#[trigger] self.bindings@[j])
                        ==> crate::bindings::fits(self.bindings@[j]),
            decreases self.bindings@.len() - i,
        {
            if self.bindings[i].state != BindingState::Detaching
                && self.bindings[i].queued_message_count > u32::MAX as i64 {
                assert(is_tracked(self.bindings@[i as int]));
                return true;
            }
            i += 1;
        }
        false
    }

    fn take_off(&mut self, hosts: &[AhpHostDescriptor], full: bool)
        requires
            old(self).wf(),
        ensures
            final(self).wf(),
            *final(self) == (Database {
                hosts: final(self).hosts,
                catalog: final(self).catalog,
                ..*old(self)
            }),
            final(self).catalog@.len() == old(self).catalog@.len(),
            forall|i: int|
                0 <= i < old(self).catalog@.len() ==> #[trigger] final(self).catalog@[i]
                    == taken_off(old(self).catalog@[i], hosts@, full),
            final(self).hosts@.len() == old(self).hosts@.len(),
            forall|i: int|
                0 <= i < old(self).hosts@.len() ==> #[trigger] final(self).hosts@[i] == (if full {
                    HostRow { state: AhpHostState::Unreachable, ..old(self).hosts@[i] }
                } else {
                    old(self).hosts@[i]
                }),
    {
        let ghost a = *self;
        let mut i: usize = 0;
        while i < self.catalog.len()
            invariant
                i <= self.catalog@.len(),
                *self == (Database { catalog: self.catalog, ..a }),
                self.catalog@.len() == a.catalog@.len(),
                forall|j: int|
                    0 <= j < i ==> #[trigger] self.catalog@[j] == taken_off(
                        a.catalog@[j],
                        hosts@,
                        full,
                    ),
                forall|j: int|
                    i <= j < a.catalog@.len() ==> #[trigger] self.catalog@[j] == a.catalog@[j],
            decreases self.catalog@.len() - i,
        {
            if full || describes_endpoint(hosts, self.catalog[i].endpoint_id.as_str()) {
                self.catalog[i].available = false;
            }
            i += 1;
        }
        let ghost b = *self;
        let mut i: usize = 0;
        while i < self.hosts.len()
            invariant
                i <= self.hosts@.len(),
                *self == (Database { hosts: self.hosts, ..b }),
                b.hosts == a.hosts,
                self.hosts@.len() == a.hosts@.len(),
                forall|j: int|
                    0 <= j < i ==> #[trigger] self.hosts@[j] == (if full {
                        HostRow { state: AhpHostState::Unreachable, ..a.hosts@[j] }
                    } else {
                        a.hosts@[j]
                    }),
                forall|j: int|
                    i <= j < a.hosts@.len() ==> #[trigger] self.hosts@[j] == a.hosts@[j],
            decreases self.hosts@.len() - i,
        {
            if full {
                self.hosts[i].state = AhpHostState::Unreachable;
            }
            i += 1;
        }
        proof {
            assert forall|x: int| 0 <= x < self.catalog@.len() implies has_host(
                self.hosts@,
                (#[trigger] self.catalog@[x]).endpoint_id@,
            ) by {
                assert(has_host(a.hosts@, a.catalog@[x].endpoint_id@));
                let y = choose|y: int|
                    0 <= y < a.hosts@.len() && (#[trigger] a.hosts@[y]).endpoint_id@
                        == a.catalog@[x].endpoint_id@;
                assert(self.hosts@[y].endpoint_id@ == a.catalog@[x].endpoint_id@);
            }
        }
    }

    fn put_catalog(
        &mut self,
        hosts: &[AhpHostDescriptor],
        sessions: &[AhpSessionDescriptor],
        codes: &Vec<Option<String>>,
        full: bool,
        now: i64,
    )
        requires
            old(self).wf(),
            codes@.len() == sessions@.len(),
            codes_fit(old(self).catalog@, sessions@, code_views(codes@)),
            forall|j: int| 0 <= j < sessions@.len() ==> is_hosted(hosts@, #[trigger] sessions@[j]),
        ensures
            final(self).wf(),
            catalog_replaced(*old(self), *final(self), hosts@, sessions@, full, now),
            codes_given(final(self).catalog@, sessions@, code_views(codes@)),
    {
        let ghost a = *self;
        self.take_off(hosts, full);
        let ghost off = self.catalog@;
        let ghost cut = self.hosts@;
        let ghost start = *self;
        let mut i: usize = 0;
        assert(hosts@.take(0) =~= Seq::<AhpHostDescriptor>::empty());
        while i < hosts.len()
            invariant
                i <= hosts@.len(),
                *self == (Database { hosts: self.hosts, ..start }),
                unique(self.hosts@, |r: HostRow| r.endpoint_id@),
                hosts_put(cut, self.hosts@, hosts@.take(i as int), now),
                forall|e: Seq<char>| has_host(cut, e) ==> #[trigger] has_host(self.hosts@, e),
                forall|j: int|
                    0 <= j < i ==> has_host(self.hosts@, (#[trigger] hosts@[j]).endpoint_id@),
            decreases hosts@.len() - i,
        {
            let ghost m = self.hosts@;
            put_host(&mut self.hosts, &hosts[i], now);
            proof {
                assert(hosts@.take(i + 1).drop_last() =~= hosts@.take(i as int));
                assert(hosts@.take(i + 1).last() == hosts@[i as int]);
                lemma_hosts_put(cut, m, self.hosts@, hosts@.take(i + 1), now);
            }
            i += 1;
        }
        assert(hosts@.take(i as int) =~= hosts@);
        let ghost mid = *self;
        let ghost given = code_views(codes@);
        let mut i: usize = 0;
        assert(sessions@.take(0) =~= Seq::<AhpSessionDescriptor>::empty());
        proof {
            assert forall|x: int| 0 <= x < off.len() implies has_host(
                mid.hosts@,
                (#[trigger] off[x]).endpoint_id@,
            ) by {
                assert(has_host(cut, off[x].endpoint_id@));
            }
            assert forall|u: Seq<char>| #[trigger] has_uri(off, u) == has_uri(a.catalog@, u) by {
                if has_uri(off, u) {
                    let x = choose|x: int| 0 <= x < off.len() && (#[trigger] off[x]).session_uri@ == u;
                    assert(a.catalog@[x].session_uri@ == u);
                }
                if has_uri(a.catalog@, u) {
                    let x = choose|x: int|
                        0 <= x < a.catalog@.len() && (#[trigger] a.catalog@[x]).session_uri@ == u;
                    assert(off[x].session_uri@ == u);
                }
            }
            assert forall|c: Seq<char>| #[trigger] is_code_taken(off, c) implies is_code_taken(
                a.catalog@,
                c,
            ) by {
                let x = choose|x: int| 0 <= x < off.len() && (#[trigger] off[x]).short_code@ == c;
                assert(a.catalog@[x].short_code@ == c);
            }
        }
        while i < sessions.len()
            invariant
                i <= sessions@.len(),
                *self == (Database { catalog: self.catalog, ..mid }),
                unique(self.catalog@, |r: CatalogRow| r.session_uri@),
                unique(self.catalog@, |r: CatalogRow| r.short_code@),
                given == code_views(codes@),
                codes@.len() == sessions@.len(),
                codes_fit(a.catalog@, sessions@, given),
                forall|u: Seq<char>|
                    has_uri(a.catalog@, u) ==> #[trigger] has_uri(self.catalog@, u),
                forall|j: int|
                    0 <= j < i ==> has_uri(self.catalog@, (#[trigger] sessions@[j]).session_uri@),
                forall|k: int|
                    i <= k < given.len() && (#[trigger] given[k]) is Some ==> !has_uri(
                        self.catalog@,
                        sessions@[k].session_uri@,
                    ) && !is_code_taken(self.catalog@, given[k]->0),
                codes_given(self.catalog@, sessions@, given.take(i as int)),
                sessions_put(off, self.catalog@, sessions@.take(i as int), now),
                forall|j: int|
                    0 <= j < sessions@.len() ==> is_hosted(hosts@, #[trigger] sessions@[j]),
                forall|j: int|
                    0 <= j < hosts@.len() ==> has_host(mid.hosts@, (
                    #[trigger] hosts@[j]).endpoint_id@),
                forall|x: int|
                    0 <= x < self.catalog@.len() ==> has_host(
                        mid.hosts@,
                        (#[trigger] self.catalog@[x]).endpoint_id@,
                    ),
            decreases sessions@.len() - i,
        {
            let ghost m = self.catalog@;
            proof {
                assert(given[i as int] == opt_view(codes@[i as int]));
                if given[i as int] is None {
                    assert(!is_new(a.catalog@, sessions@, i as int));
                    if is_repeated(sessions@, i as int) {
                        let j = choose|j: int|
                            0 <= j < i && (#[trigger] sessions@[j]).session_uri@
                                == sessions@[i as int].session_uri@;
                        assert(has_uri(m, sessions@[j].session_uri@));
                    }
                    assert(has_uri(m, sessions@[i as int].session_uri@));
                }
            }
            put_session(&mut self.catalog, &sessions[i], &codes[i], now);
            proof {
                assert(sessions@.take(i + 1).drop_last() =~= sessions@.take(i as int));
                assert(sessions@.take(i + 1).last() == sessions@[i as int]);
                lemma_sessions_put(off, m, self.catalog@, sessions@.take(i + 1), now);
                assert(is_hosted(hosts@, sessions@[i as int]));
                let h = choose|h: int|
                    0 <= h < hosts@.len() && (#[trigger] hosts@[h]).endpoint_id@
                        == sessions@[i as int].endpoint_id@ && hosts@[h].host_instance_id@
                        == sessions@[i as int].host_instance_id@;
                assert(has_host(mid.hosts@, hosts@[h].endpoint_id@));
                assert forall|x: int| 0 <= x < self.catalog@.len() implies has_host(
                    mid.hosts@,
                    (#[trigger] self.catalog@[x]).endpoint_id@,
                ) by {
                    if self.catalog@[x].endpoint_id@ != sessions@[i as int].endpoint_id@ {
                        let y = choose|y: int|
                            0 <= y < m.len() && (#[trigger] m[y]).endpoint_id@
                                == self.catalog@[x].endpoint_id@;
                        assert(has_host(mid.hosts@, m[y].endpoint_id@));
                    }
                }
                assert forall|k: int| i + 1 <= k < given.len() && (#[trigger] given[k]) is Some implies
                    !has_uri(self.catalog@, sessions@[k].session_uri@) && !is_code_taken(
                    self.catalog@,
                    given[k]->0,
                ) by {
                    assert(is_new(a.catalog@, sessions@, k));
                    assert(sessions@[i as int].session_uri@ != sessions@[k].session_uri@);
                    if given[i as int] is Some {
                        assert(given[i as int]->0 != given[k]->0);
                    }
                }
                assert forall|k: int|
                    0 <= k < given.take(i + 1).len() && (#[trigger] given.take(i + 1)[k]) is Some implies
                    has_code(
                    self.catalog@,
                    sessions@[k].session_uri@,
                    given.take(i + 1)[k]->0,
                ) by {
                    if k < i {
                        assert(given.take(i as int)[k] == given[k]);
                        assert(has_code(m, sessions@[k].session_uri@, given[k]->0));
                    } else {
                        assert(given[k] is Some);
                        assert(!has_uri(m, sessions@[k].session_uri@));
                    }
                }
            }
            i += 1;
        }
        assert(sessions@.take(i as int) =~= sessions@);
        assert(given.take(i as int) =~= given);
        let ghost m = *self;
        self.lose_hosts(hosts, full, now);
        let ghost x = *self;
        self.connect_adapter(now);
        proof {
            assert(hosts_changed(m, x, hosts@, full, now));
            assert(hosts_put(cut, m.hosts@, hosts@, now));
            assert(sessions_put(off, m.catalog@, sessions@, now));
        }
    }

    /// Gives up the tracked sessions whose hosts are gone.
    fn lose_hosts(&mut self, hosts: &[AhpHostDescriptor], full: bool, now: i64)
        requires
            old(self).wf(),
        ensures
            final(self).wf(),
            hosts_changed(*old(self), *final(self), hosts@, full, now),
    {
        let ghost a = *self;
        let mut i: usize = 0;
        while i < self.commands.len()
            invariant
                i <= self.commands@.len(),
                *self == (Database { commands: self.commands, ..a }),
                self.commands@.len() == a.commands@.len(),
                forall|j: int|
                    #![trigger self.commands@[j]]
                    0 <= j < i ==> if is_open_command(a.commands@[j]) && lost_id(
                        a.bindings@,
                        a.commands@[j].binding_id@,
                        hosts@,
                        full,
                    ) {
                        self.commands@[j] == (CommandRow {
                            state: CommandState::Failed,
                            error_code: self.commands@[j].error_code,
                            updated_at: now,
                            ..a.commands@[j]
                        }) && opt_view(self.commands@[j].error_code) == Some("host_restarted"@)
                    } else {
                        self.commands@[j] == a.commands@[j]
                    },
                forall|j: int|
                    i <= j < a.commands@.len() ==> #[trigger] self.commands@[j] == a.commands@[j],
            decreases self.commands@.len() - i,
        {
            if (self.commands[i].state == CommandState::Pending || self.commands[i].state
                == CommandState::Leased) && some_lost_id(
                &self.bindings,
                self.commands[i].binding_id.as_str(),
                hosts,
                full,
            ) {
                self.commands[i].state = CommandState::Failed;
                self.commands[i].error_code = Some("host_restarted".to_owned());
                self.commands[i].updated_at = now;
            }
            i += 1;
        }
        let ghost b = *self;
        proof {
            lemma_same_commands(a.commands@, b.commands@, b.next_command_id);
        }
        let mut i: usize = 0;
        while i < self.decisions.len()
            invariant
                i <= self.decisions@.len(),
                *self == (Database { decisions: self.decisions, ..b }),
                b.decisions == a.decisions,
                b.bindings == a.bindings,
                self.decisions@.len() == a.decisions@.len(),
                forall|j: int|
                    #![trigger self.decisions@[j]]
                    0 <= j < i ==> self.decisions@[j] == (if is_open_decision(a.decisions@[j])
                        && lost_uri(a.bindings@, a.decisions@[j].session_uri@, hosts@, full) {
                        DecisionRow {
                            state: DecisionState::Failed,
                            updated_at: now,
                            ..a.decisions@[j]
                        }
                    } else {
                        a.decisions@[j]
                    }),
                forall|j: int|
                    i <= j < a.decisions@.len() ==> #[trigger] self.decisions@[j]
                        == a.decisions@[j],
            decreases self.decisions@.len() - i,
        {
            if (self.decisions[i].state == DecisionState::Pending || self.decisions[i].state
                == DecisionState::Submitted) && some_lost_uri(
                &self.bindings,
                self.decisions[i].session_uri.as_str(),
                hosts,
                full,
            ) {
                self.decisions[i].state = DecisionState::Failed;
                self.decisions[i].updated_at = now;
            }
            i += 1;
        }
        let ghost c = *self;
        let mut i: usize = 0;
        while i < self.inputs.len()
            invariant
                i <= self.inputs@.len(),
                *self == (Database { inputs: self.inputs, ..c }),
                c.inputs == a.inputs,
                c.bindings == a.bindings,
                self.inputs@.len() == a.inputs@.len(),
                forall|j: int|
                    #![trigger self.inputs@[j]]
                    0 <= j < i ==> self.inputs@[j] == (if is_open_input(a.inputs@[j]) && lost_uri(
                        a.bindings@,
                        a.inputs@[j].session_uri@,
                        hosts@,
                        full,
                    ) {
                        InputRow { state: InputState::Failed, updated_at: now, ..a.inputs@[j] }
                    } else {
                        a.inputs@[j]
                    }),
                forall|j: int|
                    i <= j < a.inputs@.len() ==> #[trigger] self.inputs@[j] == a.inputs@[j],
            decreases self.inputs@.len() - i,
        {
            if (self.inputs[i].state == InputState::Pending || self.inputs[i].state
                == InputState::Submitted) && some_lost_uri(
                &self.bindings,
                self.inputs[i].session_uri.as_str(),
                hosts,
                full,
            ) {
                self.inputs[i].state = InputState::Failed;
                self.inputs[i].updated_at = now;
            }
            i += 1;
        }
        let ghost d = *self;
        assert(d.wf());
        let mut i: usize = 0;
        while i < self.bindings.len()
            invariant
                i <= self.bindings@.len(),
                *self == (Database { bindings: self.bindings, ..d }),
                d.bindings == a.bindings,
                self.bindings@.len() == a.bindings@.len(),
                forall|j: int|
                    #![trigger self.bindings@[j]]
                    0 <= j < i ==> if is_lost(a.bindings@[j], hosts@, full) {
                        self.bindings@[j] == (BindingRow {
                            state: BindingState::Lost,
                            chat_uri: None,
                            active_turn_id: None,
                            queued_message_count: 0,
                            error_code: self.bindings@[j].error_code,
                            updated_at: now,
                            ..a.bindings@[j]
                        }) && opt_view(self.bindings@[j].error_code) == Some("host_restarted"@)
                    } else {
                        self.bindings@[j] == a.bindings@[j]
                    },
                forall|j: int|
                    i <= j < a.bindings@.len() ==> #[trigger] self.bindings@[j] == a.bindings@[j],
            decreases self.bindings@.len() - i,
        {
            if has_lost_host(&self.bindings[i], hosts, full) {
                self.bindings[i].state = BindingState::Lost;
                self.bindings[i].chat_uri = None;
                self.bindings[i].active_turn_id = None;
                self.bindings[i].queued_message_count = 0;
                self.bindings[i].error_code = Some("host_restarted".to_owned());
                self.bindings[i].updated_at = now;
            }
            i += 1;
        }
        proof {
            self.lemma_same_bindings(d);
        }
    }
}

/// What comes of replacing the catalogue, where these codes were drawn for each of the
/// sessions: new sessions get codes, and where one gets none or runs on no host that
/// is described, nothing happens. The first session with such a fault decides what is
/// said.
pub open spec fn replace_outcome(
    a: Database,
    b: Database,
    adapter: Seq<char>,
    instance: Seq<char>,
    hosts: Seq<AhpHostDescriptor>,
    sessions: Seq<AhpSessionDescriptor>,
    full: bool,
    drawn: Seq<Vec<String>>,
    now: i64,
    r: Result<(), Failure>,
) -> bool {
    if !a.is_registered(adapter, instance) {
        b == a && (r matches Err(f) && f.message@ == not_registered())
    } else {
        let n = hosted_lead(hosts, sessions);
        match new_codes(a.catalog@, sessions, drawn, n) {
            None => b == a && (r matches Err(f) && f.message@
                == "failed to allocate a unique AHP Session code"@),
            Some(codes) => if n < sessions.len() {
                b == a && (r matches Err(f) && f.message@
                    == "AHP session references an unknown host"@)
            } else if a.some_unfit() {
                b == a && (r matches Err(f) && f.message@ == out_of_range())
            } else {
                &&& r is Ok
                &&& catalog_replaced(a, b, hosts, sessions, full, now)
                &&& codes_given(b.catalog@, sessions, codes)
            },
        }
    }
}

// ---------------------------------------------------------------------------
// Sessions of the catalogue

/// Whether the session is shown: it is available, or its target is known.
pub open spec fn is_visible(r: CatalogRow) -> bool {
    r.available || r.target_kind is Some
}

/// Whether the record shows the session.
pub open spec fn shows_session(r: CatalogRow, d: AhpSessionDescriptor) -> bool {
    &&& d.short_code == Some(r.short_code)
    &&& d.endpoint_id == r.endpoint_id
    &&& d.host_instance_id == r.host_instance_id
    &&& d.session_uri == r.session_uri
    &&& d.provider == r.provider
    &&& d.title == r.title
    &&& d.status == r.status
    &&& views(d.workspace_uris@) == views(r.workspace_uris@)
    &&& d.created_at == r.created_at
    &&& d.modified_at == r.modified_at
    &&& d.host_label == r.host_label
    &&& d.ssh_alias == r.ssh_alias
    &&& d.target_kind == r.target_kind
    &&& d.target_path == r.target_path
    &&& d.editor_client_tools_available == Some(r.editor_client_tools_available)
    &&& d.host_state is None
    &&& d.host_last_seen_at is None
}

fn session_descriptor(r: &CatalogRow) -> (d: AhpSessionDescriptor)
    ensures
        shows_session(*r, d),
{
    AhpSessionDescriptor {
        short_code: Some(r.short_code.clone()),
        endpoint_id: r.endpoint_id.clone(),
        host_instance_id: r.host_instance_id.clone(),
        session_uri: r.session_uri.clone(),
        provider: r.provider.clone(),
        title: r.title.clone(),
        status: r.status,
        workspace_uris: copy_texts(&r.workspace_uris),
        created_at: r.created_at.clone(),
        modified_at: r.modified_at.clone(),
        host_label: r.host_label.clone(),
        ssh_alias: r.ssh_alias.clone(),
        target_kind: r.target_kind,
        target_path: r.target_path.clone(),
        editor_client_tools_available: Some(r.editor_client_tools_available),
        host_state: None,
        host_last_seen_at: None,
    }
}

/// The condition of being shown.
pub open spec fn visible() -> spec_fn(CatalogRow) -> bool {
    |r: CatalogRow| is_visible(r)
}

/// The condition of being shown, with that code.
pub open spec fn visible_code(code: Seq<char>) -> spec_fn(CatalogRow) -> bool {
    |r: CatalogRow| r.short_code@ == code && is_visible(r)
}

/// The condition of being shown, at that address.
pub open spec fn visible_uri(uri: Seq<char>) -> spec_fn(CatalogRow) -> bool {
    |r: CatalogRow| r.session_uri@ == uri && is_visible(r)
}

/// What sessions are ordered by: when they were changed.
pub open spec fn by_change() -> spec_fn(CatalogRow) -> (int, int, Seq<char>) {
    |r: CatalogRow| (0int, 0int, r.modified_at@)
}

/// Whether the records show the sessions of the catalogue, those that were
/// changed last first.
pub open spec fn lists_sessions(db: Database, picks: Seq<usize>, list: Seq<AhpSessionDescriptor>) -> bool {
    &&& is_selection(db.catalog@, visible(), by_change(), true, picks)
    &&& list.len() == picks.len()
    &&& forall|k: int|
        #![trigger picks[k]]
        #![trigger list[k]]
        0 <= k < picks.len() ==> shows_session(db.catalog@[picks[k] as int], list[k])
}

impl Database {
    /// The sessions of the catalogue, those that were changed last first.
    pub fn ahp_list_sessions(&self) -> (r: Vec<AhpSessionDescriptor>)
        ensures
            exists|picks: Seq<usize>| #[trigger] lists_sessions(*self, picks, r@),
    {
        let test = |r: &CatalogRow| -> (b: bool)
            ensures
                b == (visible())(*r),
        { r.available || r.target_kind.is_some() };
        let key = |r: &CatalogRow| -> (s: SortKey)
            ensures
                s@ == (by_change())(*r),
        { SortKey { first: 0, second: 0, text: r.modified_at.clone() } };
        let picks = select(&self.catalog, test, key, true, Ghost(visible()), Ghost(by_change()));
        let mut r: Vec<AhpSessionDescriptor> = Vec::new();
        let mut k: usize = 0;
        while k < picks.len()
            invariant
                k <= picks@.len(),
                is_selection(self.catalog@, visible(), by_change(), true, picks@),
                r@.len() == k,
                forall|l: int|
                    #![trigger picks@[l]]
                    #![trigger r@[l]]
                    0 <= l < k ==> shows_session(self.catalog@[picks@[l] as int], r@[l]),
            decreases picks@.len() - k,
        {
            r.push(session_descriptor(&self.catalog[picks[k]]));
            k += 1;
        }
        assert(lists_sessions(*self, picks@, r@));
        r
    }

    /// The session with that code, whatever the case of its letters.
    pub fn ahp_session_by_code(&self, short_code: &str) -> (r: Option<AhpSessionDescriptor>)
        ensures
            match first(self.catalog@, visible_code(upper(short_code@))) {
                Some(row) => r matches Some(d) && shows_session(row, d),
                None => r is None,
            },
    {
        let code = to_upper(short_code);
        let test = |r: &CatalogRow| -> (b: bool)
            ensures
                b == (visible_code(code@))(*r),
        { str_eq(r.short_code.as_str(), code.as_str()) && (r.available || r.target_kind.is_some()) };
        match find(&self.catalog, test, Ghost(visible_code(code@))) {
            Some(i) => Some(session_descriptor(&self.catalog[i])),
            None => None,
        }
    }

    fn find_visible(&self, uri: &str) -> (r: Option<usize>)
        ensures
            match r {
                Some(i) => i < self.catalog@.len() && first(self.catalog@, visible_uri(uri@))
                    == Some(self.catalog@[i as int]) && self.catalog@[i as int].session_uri@ == uri@
                    && is_visible(self.catalog@[i as int]),
                None => first(self.catalog@, visible_uri(uri@)) is None,
            },
    {
        let test = |r: &CatalogRow| -> (b: bool)
            ensures
                b == (visible_uri(uri@))(*r),
        { str_eq(r.session_uri.as_str(), uri) && (r.available || r.target_kind.is_some()) };
        find(&self.catalog, test, Ghost(visible_uri(uri@)))
    }

    /// The session at that address.
    pub fn ahp_session_by_uri(&self, session_uri: &str) -> (r: Option<AhpSessionDescriptor>)
        ensures
            match first(self.catalog@, visible_uri(session_uri@)) {
                Some(row) => r matches Some(d) && shows_session(row, d),
                None => r is None,
            },
    {
        match self.find_visible(session_uri) {
            Some(i) => Some(session_descriptor(&self.catalog[i])),
            None => None,
        }
    }

    /// Whether the session at that address is available.
    pub fn ahp_session_is_available(&self, session_uri: &str) -> (r: bool)
        ensures
            r == (self.catalog_row(session_uri@) matches Some(row) && row.available),
    {
        match self.find_catalog(session_uri) {
            Some(i) => self.catalog[i].available,
            None => false,
        }
    }
}

// ---------------------------------------------------------------------------
// Buttons that bring a session to the foreground

/// A button that brings a session to the foreground.
#[derive(Debug)]
pub struct AhpSessionSwitchButton {
    pub button_data: String,
    pub session: AhpSessionDescriptor,
}

/// What came of a button that brings a session to the foreground.
#[derive(Debug)]
pub struct AhpSessionSwitchSubmission {
    pub session: AhpSessionDescriptor,
    pub binding: AhpBindingRecord,
    pub accepted: bool,
}

/// How many sessions a menu offers at most.
pub const MAX_SWITCH_BUTTONS: usize = 2_000;

/// The positions of the texts that do not repeat an earlier one.
pub open spec fn first_uses(list: Seq<String>) -> Seq<int>
    decreases list.len(),
{
    if list.len() == 0 {
        Seq::empty()
    } else if is_listed(list.drop_last(), list.last()@) {
        first_uses(list.drop_last())
    } else {
        first_uses(list.drop_last()).push(list.len() - 1)
    }
}

/// The condition of being good for some time still.
pub open spec fn still_good(now: i64) -> spec_fn(SwitchButtonRow) -> bool {
    |r: SwitchButtonRow| r.expires_at > now
}

/// The condition of being the button with these data.
pub open spec fn switch_data(data: Seq<char>) -> spec_fn(SwitchButtonRow) -> bool {
    |r: SwitchButtonRow| r.button_data@ == data
}

/// The data of the buttons.
pub open spec fn switch_texts(rows: Seq<SwitchButtonRow>) -> Seq<Seq<char>> {
    rows.map_values(|r: SwitchButtonRow| r.button_data@)
}

/// Whether the row is a new button for the session.
pub open spec fn is_switch_button(
    r: SwitchButtonRow,
    data: Seq<char>,
    group: Seq<char>,
    s: CatalogRow,
    expires_at: i64,
    now: i64,
) -> bool {
    &&& r.button_data@ == data
    &&& r.group_id@ == group
    &&& r.session_uri@ == s.session_uri@
    &&& views(r.workspace_uris@) == views(s.workspace_uris@)
    &&& r.expires_at == expires_at
    &&& r.used_at is None
    &&& r.created_at == now
}

/// Whether `b` is `a` with a button for each of the sessions, once, and without
/// the buttons that are good no longer.
pub open spec fn menu_made(
    a: Database,
    b: Database,
    uris: Seq<String>,
    group: Seq<char>,
    tokens: Seq<Seq<char>>,
    expires_at: i64,
    now: i64,
    buttons: Seq<AhpSessionSwitchButton>,
) -> bool {
    let kept = a.switch_buttons@.filter(still_good(now));
    &&& b == (Database { switch_buttons: b.switch_buttons, ..a })
    &&& buttons.len() == first_uses(uris).len()
    &&& b.switch_buttons@.len() == kept.len() + buttons.len()
    &&& b.switch_buttons@.take(kept.len() as int) == kept
    &&& forall|k: int|
        0 <= k < buttons.len() ==> {
            let s = first(a.catalog@, visible_uri(uris[first_uses(uris)[k]]@));
            &&& s is Some
            &&& shows_session(s->0, (#[trigger] buttons[k]).session)
            &&& buttons[k].button_data@ == tokens[k]
            &&& is_switch_button(
                b.switch_buttons@[kept.len() + k],
                buttons[k].button_data@,
                group,
                s->0,
                expires_at,
                now,
            )
        }
}

/// Whether the session of the `k`th button of the menu is shown.
pub open spec fn shows_use(db: Database, uris: Seq<String>, k: int) -> bool {
    first(db.catalog@, visible_uri(uris[first_uses(uris)[k]]@)) is Some
}

/// How many buttons of the menu come before the first one whose session is not shown.
pub open spec fn shown_lead(db: Database, uris: Seq<String>) -> nat {
    lead(first_uses(uris).len(), |k: int| shows_use(db, uris, k))
}

/// What comes of making a menu, where these texts were drawn for each of its buttons:
/// each gets the first of its texts that is no button's, and where one gets none or
/// its session is not shown, nothing happens. The first button with such a fault
/// decides what is said.
pub open spec fn menu_outcome(
    a: Database,
    b: Database,
    uris: Seq<String>,
    group: Seq<char>,
    drawn: Seq<Vec<String>>,
    ttl_seconds: u64,
    now: i64,
    r: Result<Vec<AhpSessionSwitchButton>, Failure>,
) -> bool {
    if uris.len() == 0 {
        b == a && (r matches Ok(buttons) && buttons@.len() == 0)
    } else if uris.len() > MAX_SWITCH_BUTTONS {
        b == a && (r matches Err(f) && f.message@ == "too many AHP Sessions for a switch menu"@)
    } else if ttl_seconds > i64::MAX {
        b == a && (r matches Err(f) && f.message@ == "Session switch TTL exceeds range"@)
    } else {
        let n = shown_lead(a, uris);
        match picks(switch_texts(a.switch_buttons@.filter(still_good(now))), drawn, n) {
            None => b == a && (r matches Err(f) && f.message@
                == "failed to allocate a unique Session switch token"@),
            Some(tokens) => if n < first_uses(uris).len() {
                b == a && (r matches Err(f) && f.message@
                    == "AHP Session disappeared while creating switch menu"@)
            } else {
                r matches Ok(buttons) && menu_made(
                    a,
                    b,
                    uris,
                    group,
                    tokens,
                    (now + ttl_seconds) as i64,
                    now,
                    buttons@,
                )
            },
        }
    }
}

proof fn lemma_first_uses(list: Seq<String>)
    ensures
        first_uses(list).len() <= list.len(),
        forall|k: int|
            0 <= k < first_uses(list).len() ==> 0 <= #[trigger] first_uses(list)[k] < list.len(),
    decreases list.len(),
{
    if list.len() > 0 {
        lemma_first_uses(list.drop_last());
    }
}

/// The positions at which the texts of the list stand first.
fn find_first_uses(list: &Vec<String>) -> (uses: Vec<usize>)
    ensures
        uses@.len() == first_uses(list@).len(),
        forall|k: int| 0 <= k < uses@.len() ==> #[trigger] uses@[k] == first_uses(list@)[k],
{
    let mut uses: Vec<usize> = Vec::new();
    let mut i: usize = 0;
    assert(list@.take(0) =~= Seq::<String>::empty());
    assert(first_uses(list@.take(0)).len() == 0);
    while i < list.len()
        invariant
            i <= list@.len(),
            uses@.len() == first_uses(list@.take(i as int)).len(),
            forall|k: int|
                0 <= k < uses@.len() ==> #[trigger] uses@[k] == first_uses(
                    list@.take(i as int),
                )[k],
        decreases list@.len() - i,
    {
        let mut seen = false;
        let mut j: usize = 0;
        while j < i
            invariant
                j <= i,
                i < list@.len(),
                seen == exists|k: int| 0 <= k < j && (#[trigger] list@[k])@ == list@[i as int]@,
            decreases i - j,
        {
            if str_eq(list[j].as_str(), list[i].as_str()) {
                assert(list@[j as int]@ == list@[i as int]@);
                seen = true;
            }
            j += 1;
        }
        proof {
            let t = list@.take(i + 1);
            assert(t.drop_last() =~= list@.take(i as int));
            assert(t.last() == list@[i as int]);
            if seen {
                let k = choose|k: int|
                    0 <= k < i && (#[trigger] list@[k])@ == list@[i as int]@;
                assert(t.drop_last()[k]@ == t.last()@);
            } else {
                assert forall|k: int| 0 <= k < t.drop_last().len() implies (
                #[trigger] t.drop_last()[k])@ != t.last()@ by {
                    assert(list@[k]@ != list@[i as int]@);
                }
            }
        }
        if !seen {
            uses.push(i);
        }
        i += 1;
    }
    assert(list@.take(i as int) =~= list@);
    uses
}

impl Database {
    fn count_shown(&self, uris: &Vec<String>, uses: &Vec<usize>) -> (r: usize)
        requires
            uses@.len() == first_uses(uris@).len(),
            forall|k: int| 0 <= k < uses@.len() ==> #[trigger] uses@[k] == first_uses(uris@)[k],
            forall|k: int|
                0 <= k < uses@.len() ==> 0 <= #[trigger] first_uses(uris@)[k] < uris@.len(),
        ensures
            r <= uses@.len(),
            r == shown_lead(*self, uris@),
            forall|k: int| 0 <= k < r ==> #[trigger] shows_use(*self, uris@, k),
    {
        let mut n: usize = 0;
        while n < uses.len()
            invariant
                n <= uses@.len(),
                uses@.len() == first_uses(uris@).len(),
                forall|k: int|
                    0 <= k < uses@.len() ==> #[trigger] uses@[k] == first_uses(uris@)[k],
                forall|k: int|
                    0 <= k < uses@.len() ==> 0 <= #[trigger] first_uses(uris@)[k] < uris@.len(),
                forall|k: int| 0 <= k < n ==> #[trigger] shows_use(*self, uris@, k),
            decreases uses@.len() - n,
        {
            assert(uses@[n as int] == first_uses(uris@)[n as int]);
            if self.find_visible(uris[uses[n]].as_str()).is_none() {
                proof {
                    lemma_lead(
                        first_uses(uris@).len(),
                        |k: int| shows_use(*self, uris@, k),
                        n as nat,
                    );
                }
                return n;
            }
            assert(shows_use(*self, uris@, n as int));
            n += 1;
        }
        proof {
            lemma_lead(first_uses(uris@).len(), |k: int| shows_use(*self, uris@, k), n as nat);
        }
        n
    }

    /// The data of the buttons that are good for some time still.
    fn good_texts(&self, now: i64) -> (r: Vec<String>)
        ensures
            views(r@) == switch_texts(self.switch_buttons@.filter(still_good(now))),
    {
        let ghost good = still_good(now);
        let mut r: Vec<String> = Vec::new();
        let mut i: usize = 0;
        proof {
            let none = self.switch_buttons@.take(0);
            assert(none =~= Seq::<SwitchButtonRow>::empty());
            reveal(Seq::filter);
            assert(views(r@) =~= switch_texts(none.filter(good)));
        }
        while i < self.switch_buttons.len()
            invariant
                good == still_good(now),
                i <= self.switch_buttons@.len(),
                views(r@) == switch_texts(self.switch_buttons@.take(i as int).filter(good)),
            decreases self.switch_buttons@.len() - i,
        {
            let row = &self.switch_buttons[i];
            let ghost before = r@;
            proof {
                let head = self.switch_buttons@.take(i as int);
                assert(self.switch_buttons@.take(i + 1) =~= head.push(*row));
                lemma_filter_push(head, *row, good);
            }
            if row.expires_at > now {
                r.push(row.button_data.clone());
                assert(views(r@) =~= views(before).push(row.button_data@));
                assert(switch_texts(self.switch_buttons@.take(i + 1).filter(good))
                    =~= switch_texts(self.switch_buttons@.take(i as int).filter(good)).push(
                    row.button_data@,
                ));
            }
            i += 1;
        }
        assert(self.switch_buttons@.take(i as int) =~= self.switch_buttons@);
        r
    }

    /// Makes a menu with a button for each of the sessions.
    pub fn ahp_create_session_switch_buttons(
        &mut self,
        session_uris: &Vec<String>,
        ttl_seconds: u64,
        now: i64,
    ) -> (r: Result<Vec<AhpSessionSwitchButton>, Failure>)
        requires
            old(self).wf(),
            ttl_seconds <= i64::MAX ==> now + ttl_seconds <= i64::MAX,
        ensures
            final(self).wf(),
            exists|n: u128, drawn: Seq<Vec<String>>|
                {
                    &&& session_uris@.len() <= MAX_SWITCH_BUTTONS ==> are_token_lists(
                        drawn,
                        "sess_"@,
                        session_uris@.len(),
                    )
                    &&& #[trigger] menu_outcome(
                        *old(self),
                        *final(self),
                        session_uris@,
                        uuid_text(n),
                        drawn,
                        ttl_seconds,
                        now,
                        r,
                    )
                },
    {
        let (_, group) = new_uuid();
        let n: usize = if session_uris.len() > MAX_SWITCH_BUTTONS {
            0
        } else {
            session_uris.len()
        };
        let drawn = draw_token_lists("sess_", n);
        self.create_menu_with_tokens(session_uris, group.as_str(), &drawn, ttl_seconds, now)
    }

    /// Makes a menu with a button for each of the sessions: each with the first of the
    /// texts drawn for it that is no button's.
    pub fn create_menu_with_tokens(
        &mut self,
        session_uris: &Vec<String>,
        group: &str,
        drawn: &Vec<Vec<String>>,
        ttl_seconds: u64,
        now: i64,
    ) -> (r: Result<Vec<AhpSessionSwitchButton>, Failure>)
        requires
            old(self).wf(),
            ttl_seconds <= i64::MAX ==> now + ttl_seconds <= i64::MAX,
            session_uris@.len() <= MAX_SWITCH_BUTTONS ==> session_uris@.len() <= drawn@.len(),
        ensures
            final(self).wf(),
            menu_outcome(
                *old(self),
                *final(self),
                session_uris@,
                group@,
                drawn@,
                ttl_seconds,
                now,
                r,
            ),
    {
        if session_uris.len() == 0 {
            return Ok(Vec::new());
        }
        if session_uris.len() > MAX_SWITCH_BUTTONS {
            return Err(failure("too many AHP Sessions for a switch menu"));
        }
        if ttl_seconds > i64::MAX as u64 {
            return Err(failure("Session switch TTL exceeds range"));
        }
        let expires_at: i64 = now + ttl_seconds as i64;
        let uses = find_first_uses(session_uris);
        proof {
            lemma_first_uses(session_uris@);
        }
        let n: usize = self.count_shown(session_uris, &uses);
        let taken = self.good_texts(now);
        let tokens = match pick_each(&taken, drawn, n) {
            None => {
                return Err(failure("failed to allocate a unique Session switch token"));
            },
            Some(tokens) => tokens,
        };
        if n < uses.len() {
            return Err(failure("AHP Session disappeared while creating switch menu"));
        }
        proof {
            let kept = self.switch_buttons@.filter(still_good(now));
            let picked = views(tokens@);
            picks_are_free(views(taken@), drawn@, uses@.len());
            assert forall|i: int, k: int| 0 <= i < kept.len() && 0 <= k < tokens@.len() implies (
            #[trigger] kept[i]).button_data@ != (#[trigger] tokens@[k])@ by {
                assert(views(taken@)[i] == kept[i].button_data@);
                assert(picked[k] == tokens@[k]@);
            }
            assert forall|k: int, l: int| 0 <= k < l < tokens@.len() implies (
            #[trigger] tokens@[k])@ != (#[trigger] tokens@[l])@ by {
                assert(picked[k] == tokens@[k]@);
                assert(picked[l] == tokens@[l]@);
            }
        }
        let buttons = self.make_menu(session_uris, &uses, tokens, group, expires_at, now);
        Ok(buttons)
    }

    fn make_menu(
        &mut self,
        session_uris: &Vec<String>,
        uses: &Vec<usize>,
        tokens: Vec<String>,
        group: &str,
        expires_at: i64,
        now: i64,
    ) -> (buttons: Vec<AhpSessionSwitchButton>)
        requires
            old(self).wf(),
            forall|k: int|
                0 <= k < first_uses(session_uris@).len() ==> #[trigger] shows_use(
                    *old(self),
                    session_uris@,
                    k,
                ),
            uses@.len() == first_uses(session_uris@).len(),
            forall|k: int|
                0 <= k < uses@.len() ==> #[trigger] uses@[k] == first_uses(session_uris@)[k],
            tokens@.len() == uses@.len(),
            switch_tokens_free(old(self).switch_buttons@.filter(still_good(now)), tokens@),
        ensures
            final(self).wf(),
            menu_made(
                *old(self),
                *final(self),
                session_uris@,
                group@,
                views(tokens@),
                expires_at,
                now,
                buttons@,
            ),
    {
        let ghost a = *self;
        let keep = |r: &SwitchButtonRow| -> (b: bool)
            ensures
                b == (still_good(now))(*r),
        { r.expires_at > now };
        retain(&mut self.switch_buttons, keep, Ghost(still_good(now)));
        let ghost kept = self.switch_buttons@;
        let ghost start = *self;
        proof {
            lemma_filter_unique(
                a.switch_buttons@,
                |r: SwitchButtonRow| r.button_data@,
                still_good(now),
            );
            lemma_first_uses(session_uris@);
        }
        let ghost n = kept.len();
        let mut buttons: Vec<AhpSessionSwitchButton> = Vec::new();
        let mut k: usize = 0;
        while k < uses.len()
            invariant
                k <= uses@.len(),
                n == kept.len(),
                *self == (Database { switch_buttons: self.switch_buttons, ..start }),
                start.catalog == a.catalog,
                forall|l: int|
                    0 <= l < uses@.len() ==> #[trigger] shows_use(a, session_uris@, l),
                uses@.len() == first_uses(session_uris@).len(),
                forall|l: int|
                    0 <= l < uses@.len() ==> #[trigger] uses@[l] == first_uses(session_uris@)[l],
                forall|l: int|
                    0 <= l < uses@.len() ==> 0 <= #[trigger] first_uses(session_uris@)[l]
                        < session_uris@.len(),
                tokens@.len() == uses@.len(),
                switch_tokens_free(kept, tokens@),
                unique(kept, |r: SwitchButtonRow| r.button_data@),
                self.switch_buttons@.len() == n + k,
                forall|i: int| 0 <= i < n ==> #[trigger] self.switch_buttons@[i] == kept[i],
                forall|i: int|
                    #![trigger self.switch_buttons@[i]]
                    n <= i < n + k ==> self.switch_buttons@[i].button_data@ == tokens@[i - n]@,
                buttons@.len() == k,
                forall|l: int|
                    0 <= l < k ==> {
                        let s = first(
                            a.catalog@,
                            visible_uri(session_uris@[first_uses(session_uris@)[l]]@),
                        );
                        &&& s is Some
                        &&& shows_session(s->0, (#[trigger] buttons@[l]).session)
                        &&& buttons@[l].button_data@ == views(tokens@)[l]
                        &&& is_switch_button(
                            self.switch_buttons@[n + l],
                            buttons@[l].button_data@,
                            group@,
                            s->0,
                            expires_at,
                            now,
                        )
                    },
            decreases uses@.len() - k,
        {
            assert(uses@[k as int] == first_uses(session_uris@)[k as int]);
            let uri = &session_uris[uses[k]];
            assert(shows_use(a, session_uris@, k as int));
            let at = self.find_visible(uri.as_str());
            let i = at.unwrap();
            let session = session_descriptor(&self.catalog[i]);
            let row = SwitchButtonRow {
                button_data: tokens[k].clone(),
                group_id: group.to_owned(),
                session_uri: uri.clone(),
                workspace_uris: copy_texts(&self.catalog[i].workspace_uris),
                expires_at,
                used_at: None,
                created_at: now,
            };
            let ghost rows = self.switch_buttons@;
            self.switch_buttons.push(row);
            buttons.push(AhpSessionSwitchButton { button_data: tokens[k].clone(), session });
            proof {
                assert forall|l: int| 0 <= l < k implies self.switch_buttons@[n + l] == #[trigger] rows[n
                    + l] by {}
            }
            k += 1;
        }
        proof {
            assert(self.switch_buttons@.take(n as int) =~= kept);
            assert forall|i: int, j: int| 0 <= i < j < self.switch_buttons@.len() implies (
            #[trigger] self.switch_buttons@[i]).button_data@ != (
            #[trigger] self.switch_buttons@[j]).button_data@ by {
                if j < n {
                    assert(kept[i].button_data@ != kept[j].button_data@);
                } else if i < n {
                    assert(kept[i].button_data@ != tokens@[j - n]@);
                } else {
                    assert(tokens@[i - n]@ != tokens@[j - n]@);
                }
            }
        }
        buttons
    }
}

/// Whether the tokens are the data of none of the buttons, and no two are equal.
pub open spec fn switch_tokens_free(rows: Seq<SwitchButtonRow>, tokens: Seq<String>) -> bool {
    &&& forall|i: int, k: int|
        0 <= i < rows.len() && 0 <= k < tokens.len() ==> (#[trigger] rows[i]).button_data@ != (
        #[trigger] tokens[k])@
    &&& forall|k: int, l: int|
        0 <= k < l < tokens.len() ==> (#[trigger] tokens[k])@ != (#[trigger] tokens[l])@
}

/// The button after it was spent.
pub open spec fn spent(r: SwitchButtonRow, now: i64) -> SwitchButtonRow {
    if r.used_at is None {
        SwitchButtonRow { used_at: Some(now), ..r }
    } else {
        r
    }
}

/// Whether `b` is `a` with one button spent.
pub open spec fn button_spent(a: Database, b: Database, data: Seq<char>, now: i64) -> bool {
    &&& b == (Database { switch_buttons: b.switch_buttons, ..a })
    &&& changed(
        a.switch_buttons@,
        b.switch_buttons@,
        |p: SwitchButtonRow, q: SwitchButtonRow|
            q == (if p.button_data@ == data {
                spent(p, now)
            } else {
                p
            }),
    )
}

/// Whether `b` is `a` with all buttons of a menu spent.
pub open spec fn menu_spent(a: Database, b: Database, group: Seq<char>, now: i64) -> bool {
    &&& b == (Database { switch_buttons: b.switch_buttons, ..a })
    &&& changed(
        a.switch_buttons@,
        b.switch_buttons@,
        |p: SwitchButtonRow, q: SwitchButtonRow|
            q == (if p.group_id@ == group {
                spent(p, now)
            } else {
                p
            }),
    )
}

/// Whether the button is of no use: spent, too old, or made when the session
/// had other workspaces.
pub open spec fn is_void(r: SwitchButtonRow, s: CatalogRow, now: i64) -> bool {
    r.used_at is Some || r.expires_at <= now || views(r.workspace_uris@) != views(s.workspace_uris@)
}

/// The session that a button is for, if it is shown.
pub open spec fn button_session(db: Database, data: Seq<char>) -> Option<(SwitchButtonRow, CatalogRow)> {
    match first(db.switch_buttons@, switch_data(data)) {
        None => None,
        Some(r) => match first(db.catalog@, visible_uri(r.session_uri@)) {
            None => None,
            Some(s) => Some((r, s)),
        },
    }
}

/// What comes of pressing a button that brings a session to the foreground. It
/// works once, while it is good, and only for a session that is allowed.
pub open spec fn switch_outcome(
    a: Database,
    b: Database,
    data: Seq<char>,
    allowed: Seq<String>,
    id: Seq<char>,
    now: i64,
    r: Result<Option<AhpSessionSwitchSubmission>, Failure>,
) -> bool {
    match button_session(a, data) {
        None => b == a && (r matches Ok(None)),
        Some((button, s)) => if !is_listed(allowed, s.session_uri@) {
            button_spent(a, b, data, now) && (r matches Ok(None))
        } else if is_void(button, s, now) {
            &&& b == a
            &&& match r {
                Err(f) => unshown_fault(a, s.session_uri@) == Some(f.message@),
                Ok(None) => false,
                Ok(Some(sub)) => {
                    &&& unshown_fault(a, s.session_uri@) is None
                    &&& !sub.accepted
                    &&& shows_session(s, sub.session)
                    &&& shows(a, shown_instead(a, s.session_uri@)->0, sub.binding)
                },
            }
        } else {
            match r {
                Err(f) => focus_outcome(
                    a,
                    b,
                    s.endpoint_id@,
                    s.session_uri@,
                    id,
                    now,
                    Err(f),
                ),
                Ok(None) => false,
                Ok(Some(sub)) => {
                    &&& sub.accepted
                    &&& shows_session(s, sub.session)
                    &&& exists|m: Database|
                        #[trigger] menu_spent(m, b, button.group_id@, now) && focus_outcome(
                            a,
                            m,
                            s.endpoint_id@,
                            s.session_uri@,
                            id,
                            now,
                            Ok(sub.binding),
                        )
                },
            }
        },
    }
}

/// What comes of pressing a button for a session without bringing it to the
/// foreground.
pub open spec fn consume_outcome(
    a: Database,
    b: Database,
    data: Seq<char>,
    allowed: Seq<String>,
    now: i64,
    r: Option<AhpSessionDescriptor>,
) -> bool {
    match button_session(a, data) {
        None => b == a && r is None,
        Some((button, s)) => if !is_listed(allowed, s.session_uri@) {
            button_spent(a, b, data, now) && r is None
        } else if is_void(button, s, now) {
            b == a && r is None
        } else {
            menu_spent(a, b, button.group_id@, now) && (r matches Some(d) && shows_session(s, d))
        },
    }
}

/// The tracked session that is shown where a button is void: that of the
/// button, else the one in the foreground.
pub open spec fn shown_instead(db: Database, uri: Seq<char>) -> Option<BindingRow> {
    match db.binding_of(uri) {
        Some(row) => Some(row),
        None => db.foreground_row(),
    }
}

/// Why no tracked session can be shown where a button is void. Both the
/// session of the button and the one in the foreground are read.
pub open spec fn unshown_fault(db: Database, uri: Seq<char>) -> Option<Seq<char>> {
    let one = db.binding_of(uri);
    let two = db.foreground_row();
    if (one is Some && !crate::bindings::fits(one->0)) || (two is Some && !crate::bindings::fits(
        two->0,
    )) {
        Some(out_of_range())
    } else if one is None && two is None {
        Some("no AHP Session is currently tracked"@)
    } else {
        None
    }
}

impl Database {
    fn find_switch_button(&self, data: &str) -> (r: Option<(usize, usize)>)
        ensures
            match r {
                None => button_session(*self, data@) is None,
                Some((i, k)) => {
                    &&& i < self.switch_buttons@.len()
                    &&& k < self.catalog@.len()
                    &&& self.switch_buttons@[i as int].button_data@ == data@
                    &&& button_session(*self, data@) == Some(
                        (self.switch_buttons@[i as int], self.catalog@[k as int]),
                    )
                },
            },
    {
        let test = |r: &SwitchButtonRow| -> (b: bool)
            ensures
                b == (r.button_data@ == data@),
        { str_eq(r.button_data.as_str(), data) };
        match find(&self.switch_buttons, test, Ghost(switch_data(data@))) {
            None => None,
            Some(i) => match self.find_visible(self.switch_buttons[i].session_uri.as_str()) {
                None => None,
                Some(k) => Some((i, k)),
            },
        }
    }

    fn spend_button(&mut self, data: &str, now: i64)
        requires
            old(self).wf(),
        ensures
            final(self).wf(),
            button_spent(*old(self), *final(self), data@, now),
    {
        let ghost a = *self;
        let mut i: usize = 0;
        while i < self.switch_buttons.len()
            invariant
                i <= self.switch_buttons@.len(),
                *self == (Database { switch_buttons: self.switch_buttons, ..a }),
                self.switch_buttons@.len() == a.switch_buttons@.len(),
                forall|j: int|
                    #![trigger self.switch_buttons@[j]]
                    0 <= j < i ==> self.switch_buttons@[j] == (if a.switch_buttons@[j].button_data@
                        == data@ {
                        spent(a.switch_buttons@[j], now)
                    } else {
                        a.switch_buttons@[j]
                    }),
                forall|j: int|
                    i <= j < a.switch_buttons@.len() ==> #[trigger] self.switch_buttons@[j]
                        == a.switch_buttons@[j],
            decreases self.switch_buttons@.len() - i,
        {
            if str_eq(self.switch_buttons[i].button_data.as_str(), data)
                && self.switch_buttons[i].used_at.is_none() {
                self.switch_buttons[i].used_at = Some(now);
            }
            i += 1;
        }
    }

    fn spend_menu(&mut self, group: &str, now: i64)
        requires
            old(self).wf(),
        ensures
            final(self).wf(),
            menu_spent(*old(self), *final(self), group@, now),
    {
        let ghost a = *self;
        let mut i: usize = 0;
        while i < self.switch_buttons.len()
            invariant
                i <= self.switch_buttons@.len(),
                *self == (Database { switch_buttons: self.switch_buttons, ..a }),
                self.switch_buttons@.len() == a.switch_buttons@.len(),
                forall|j: int|
                    #![trigger self.switch_buttons@[j]]
                    0 <= j < i ==> self.switch_buttons@[j] == (if a.switch_buttons@[j].group_id@
                        == group@ {
                        spent(a.switch_buttons@[j], now)
                    } else {
                        a.switch_buttons@[j]
                    }),
                forall|j: int|
                    i <= j < a.switch_buttons@.len() ==> #[trigger] self.switch_buttons@[j]
                        == a.switch_buttons@[j],
            decreases self.switch_buttons@.len() - i,
        {
            if str_eq(self.switch_buttons[i].group_id.as_str(), group)
                && self.switch_buttons[i].used_at.is_none() {
                self.switch_buttons[i].used_at = Some(now);
            }
            i += 1;
        }
    }

    /// Brings the session of a button to the foreground.
    pub fn ahp_switch_session_by_button(
        &mut self,
        button_data: &str,
        allowed_session_uris: &Vec<String>,
        now: i64,
    ) -> (r: Result<Option<AhpSessionSwitchSubmission>, Failure>)
        requires
            old(self).wf(),
            old(self).has_room(),
        ensures
            final(self).wf(),
            exists|n: u128| #[trigger]
                switch_outcome(
                    *old(self),
                    *final(self),
                    button_data@,
                    allowed_session_uris@,
                    uuid_text(n),
                    now,
                    r,
                ),
    {
        let (_, id) = new_uuid();
        self.switch_session(button_data, allowed_session_uris, id, now)
    }

    /// Brings the session of a button to the foreground; where it is not tracked
    /// it comes to be tracked under that identifier.
    pub fn switch_session(
        &mut self,
        button_data: &str,
        allowed_session_uris: &Vec<String>,
        id: String,
        now: i64,
    ) -> (r: Result<Option<AhpSessionSwitchSubmission>, Failure>)
        requires
            old(self).wf(),
            old(self).has_room(),
        ensures
            final(self).wf(),
            switch_outcome(
                *old(self),
                *final(self),
                button_data@,
                allowed_session_uris@,
                id@,
                now,
                r,
            ),
    {
        let (i, k) = match self.find_switch_button(button_data) {
            None => {
                return Ok(None);
            },
            Some(pair) => pair,
        };
        let ghost a = *self;
        let ghost s = self.catalog@[k as int];
        let uri = self.catalog[k].session_uri.clone();
        if !lists_text(allowed_session_uris, uri.as_str()) {
            self.spend_button(button_data, now);
            return Ok(None);
        }
        let session = session_descriptor(&self.catalog[k]);
        if self.switch_buttons[i].used_at.is_some() || self.switch_buttons[i].expires_at <= now
            || !same_texts(&self.switch_buttons[i].workspace_uris, &self.catalog[k].workspace_uris) {
            let one = match self.ahp_binding_for_session(uri.as_str()) {
                Err(f) => {
                    return Err(f);
                },
                Ok(one) => one,
            };
            let two = match self.ahp_binding() {
                Err(f) => {
                    return Err(f);
                },
                Ok(two) => two,
            };
            let binding = match one {
                Some(record) => record,
                None => match two {
                    Some(record) => record,
                    None => {
                        return Err(failure("no AHP Session is currently tracked"));
                    },
                },
            };
            return Ok(Some(AhpSessionSwitchSubmission { session, binding, accepted: false }));
        }
        let group = self.switch_buttons[i].group_id.clone();
        let endpoint = self.catalog[k].endpoint_id.clone();
        match self.focus_session(endpoint.as_str(), uri.as_str(), id, now) {
            Err(f) => Err(f),
            Ok(binding) => {
                let ghost m = *self;
                self.spend_menu(group.as_str(), now);
                assert(menu_spent(m, *self, group@, now));
                Ok(Some(AhpSessionSwitchSubmission { session, binding, accepted: true }))
            },
        }
    }

    /// Spends a button and gives the session that it is for.
    pub fn ahp_consume_session_switch_button(
        &mut self,
        button_data: &str,
        allowed_session_uris: &Vec<String>,
        now: i64,
    ) -> (r: Option<AhpSessionDescriptor>)
        requires
            old(self).wf(),
        ensures
            final(self).wf(),
            consume_outcome(*old(self), *final(self), button_data@, allowed_session_uris@, now, r),
    {
        let (i, k) = match self.find_switch_button(button_data) {
            None => {
                return None;
            },
            Some(pair) => pair,
        };
        let uri = self.catalog[k].session_uri.clone();
        if !lists_text(allowed_session_uris, uri.as_str()) {
            self.spend_button(button_data, now);
            return None;
        }
        if self.switch_buttons[i].used_at.is_some() || self.switch_buttons[i].expires_at <= now
            || !same_texts(&self.switch_buttons[i].workspace_uris, &self.catalog[k].workspace_uris) {
            return None;
        }
        let session = session_descriptor(&self.catalog[k]);
        let group = self.switch_buttons[i].group_id.clone();
        self.spend_menu(group.as_str(), now);
        Some(session)
    }
}

} // verus!
