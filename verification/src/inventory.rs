//! What the catalogue holds and shows after each of its operations, what its menus lead
//! to, and what the dialogue that creates a session remembers.
use vstd::prelude::*;
use vstd::string::*;

use crate::bindings::{focus_outcome, ready_outcome, shows, unready_outcome};
use crate::catalog::{
    button_session, catalog_replaced, connected, consume_outcome, first_uses, free_code, has_uri,
    host_at, host_put, hosted_lead, hosts_changed, hosts_put, is_adapter, is_hosted, is_lost,
    is_new, is_repeated, lists_sessions, lost_id, lost_uri, menu_outcome, menu_spent, new_codes,
    replace_outcome, session_put, sessions_put, shows_session, shows_use, still_good, switch_data,
    switch_outcome, taken_off, visible, visible_code, visible_uri, AhpSessionSwitchButton,
    AhpSessionSwitchSubmission,
};
use crate::commands::all_reclaim_command;
use crate::config::Failure;
use crate::json::{canonical, Json};
use crate::protocol::{
    AhpAdapterRegistration, AhpBindingRecord, AhpHostDescriptor, AhpHostState, AhpSessionDescriptor,
};
use crate::status::{
    lists_hosts, open_command, open_decision, open_input, AhpAdapterStatus, AhpStatus,
};
use crate::store::{
    has_host, AdapterRow, AdapterState, BindingRow, BindingState, CatalogRow, CommandRow,
    CommandState, Database, DecisionRow, DecisionState, HostRow, InputRow, InputState,
    SwitchButtonRow, TrustRow, WizardRow,
};
use crate::tables::{
    count, first, lemma_filter_push, lemma_first, lemma_first_holds, lemma_first_none, lemma_lead,
};
use crate::text::{is_listed, less, opt_view, upper, views};
use crate::wizard::{
    all_answer_request, button_head, keeps_wizard, lists_requests, live_button,
    make_buttons_outcome, press_outcome, request_put, shows_wizard, still_asked, tells_wizard,
    tidied, wizard_fault, AhpCreationWizardRecord, AhpCreationWizardStatus, AhpTrustRequestRecord,
    AhpWizardButtonRecord,
};

verus! {

broadcast use vstd::string::group_string_axioms;

// ---------------------------------------------------------------------------
// The catalogue as it is described

/// The parts of a new catalogue: the tables without the sessions and hosts that the
/// description has yet to confirm, and the tables that hold all that is described.
proof fn lemma_replaced(
    a: Database,
    b: Database,
    hosts: Seq<AhpHostDescriptor>,
    sessions: Seq<AhpSessionDescriptor>,
    full: bool,
    now: i64,
) -> (parts: (Database, Seq<CatalogRow>, Seq<HostRow>, Database))
    requires
        catalog_replaced(a, b, hosts, sessions, full, now),
    ensures
        ({
            let (m, off, cut, x) = parts;
            &&& m == (Database { hosts: m.hosts, catalog: m.catalog, ..a })
            &&& off.len() == a.catalog@.len()
            &&& forall|i: int|
                0 <= i < off.len() ==> #[trigger] off[i] == taken_off(a.catalog@[i], hosts, full)
            &&& cut.len() == a.hosts@.len()
            &&& forall|i: int|
                0 <= i < cut.len() ==> #[trigger] cut[i] == (if full {
                    HostRow { state: AhpHostState::Unreachable, ..a.hosts@[i] }
                } else {
                    a.hosts@[i]
                })
            &&& hosts_put(cut, b.hosts@, hosts, now)
            &&& sessions_put(off, b.catalog@, sessions, now)
            &&& hosts_changed(m, x, hosts, full, now)
            &&& b == (Database { adapter: connected(a.adapter, now), ..x })
        }),
{
    let (m, off, cut) = choose|m: Database, off: Seq<CatalogRow>, cut: Seq<HostRow>|
        {
            &&& m == (Database { hosts: m.hosts, catalog: m.catalog, ..a })
            &&& off.len() == a.catalog@.len()
            &&& forall|i: int|
                0 <= i < off.len() ==> #[trigger] off[i] == taken_off(a.catalog@[i], hosts, full)
            &&& cut.len() == a.hosts@.len()
            &&& forall|i: int|
                0 <= i < cut.len() ==> #[trigger] cut[i] == (if full {
                    HostRow { state: AhpHostState::Unreachable, ..a.hosts@[i] }
                } else {
                    a.hosts@[i]
                })
            &&& #[trigger] hosts_put(cut, m.hosts@, hosts, now)
            &&& #[trigger] sessions_put(off, m.catalog@, sessions, now)
            &&& exists|x: Database|
                #[trigger] hosts_changed(m, x, hosts, full, now) && b == (Database {
                    adapter: connected(a.adapter, now),
                    ..x
                })
        };
    let x = choose|x: Database|
        #[trigger] hosts_changed(m, x, hosts, full, now) && b == (Database {
            adapter: connected(a.adapter, now),
            ..x
        });
    (m, off, cut, x)
}

/// Whether the row holds what the description says of the session.
pub open spec fn holds_description(r: CatalogRow, s: AhpSessionDescriptor) -> bool {
    &&& r.session_uri@ == s.session_uri@
    &&& r.endpoint_id@ == s.endpoint_id@
    &&& r.host_instance_id@ == s.host_instance_id@
    &&& r.provider@ == s.provider@
    &&& r.title@ == s.title@
    &&& r.status == s.status
    &&& views(r.workspace_uris@) == views(s.workspace_uris@)
    &&& r.created_at@ == s.created_at@
    &&& r.modified_at@ == s.modified_at@
    &&& r.host_label == s.host_label
    &&& r.ssh_alias == s.ssh_alias
    &&& r.target_kind == s.target_kind
    &&& r.target_path == s.target_path
    &&& r.editor_client_tools_available == (s.editor_client_tools_available != Some(false))
}

proof fn lemma_session_stays(
    a: Seq<CatalogRow>,
    b: Seq<CatalogRow>,
    sessions: Seq<AhpSessionDescriptor>,
    now: i64,
    i: int,
)
    requires
        sessions_put(a, b, sessions, now),
        0 <= i < a.len(),
        forall|k: int|
            0 <= k < sessions.len() ==> (#[trigger] sessions[k]).session_uri@ != a[i].session_uri@,
    ensures
        a.len() <= b.len(),
        b[i] == a[i],
    decreases sessions.len(),
{
    if sessions.len() > 0 {
        let before = sessions.drop_last();
        let m = choose|m: Seq<CatalogRow>|
            sessions_put(a, m, before, now) && #[trigger] session_put(m, b, sessions.last(), now);
        assert forall|k: int| 0 <= k < before.len() implies (#[trigger] before[k]).session_uri@
            != a[i].session_uri@ by {
            assert(sessions[k] == before[k]);
        }
        lemma_session_stays(a, m, before, now, i);
        assert(m[i].session_uri@ != sessions.last().session_uri@);
        assert(b[i] == m[i]);
    }
}

proof fn lemma_session_described(
    a: Seq<CatalogRow>,
    b: Seq<CatalogRow>,
    sessions: Seq<AhpSessionDescriptor>,
    now: i64,
    k: int,
) -> (i: int)
    requires
        sessions_put(a, b, sessions, now),
        0 <= k < sessions.len(),
        forall|l: int|
            k < l < sessions.len() ==> (#[trigger] sessions[l]).session_uri@
                != sessions[k].session_uri@,
    ensures
        0 <= i < b.len(),
        holds_description(b[i], sessions[k]),
        b[i].available,
        b[i].last_seen_at == now,
    decreases sessions.len(),
{
    let before = sessions.drop_last();
    let last = sessions.last();
    let m = choose|m: Seq<CatalogRow>|
        sessions_put(a, m, before, now) && #[trigger] session_put(m, b, last, now);
    if k == sessions.len() - 1 {
        if has_uri(m, last.session_uri@) {
            let i = choose|i: int|
                0 <= i < m.len() && (#[trigger] m[i]).session_uri@ == last.session_uri@;
            assert(b[i].session_uri@ == last.session_uri@);
            i
        } else {
            assert(b.len() == m.len() + 1);
            b.len() - 1
        }
    } else {
        assert(before[k] == sessions[k]);
        assert forall|l: int| k < l < before.len() implies (#[trigger] before[l]).session_uri@
            != before[k].session_uri@ by {
            assert(sessions[l] == before[l]);
        }
        let i = lemma_session_described(a, m, before, now, k);
        assert(last == sessions[sessions.len() - 1]);
        assert(m[i].session_uri@ != last.session_uri@);
        assert(b[i] == m[i]);
        i
    }
}

/// A session that is described stands in the catalogue as it was last described, and is
/// available.
pub proof fn described_sessions_are_available(
    a: Database,
    b: Database,
    adapter: Seq<char>,
    instance: Seq<char>,
    hosts: Seq<AhpHostDescriptor>,
    sessions: Seq<AhpSessionDescriptor>,
    full: bool,
    drawn: Seq<Vec<String>>,
    now: i64,
    r: Result<(), Failure>,
    k: int,
) -> (i: int)
    requires
        replace_outcome(a, b, adapter, instance, hosts, sessions, full, drawn, now, r),
        r is Ok,
        0 <= k < sessions.len(),
        forall|l: int|
            k < l < sessions.len() ==> (#[trigger] sessions[l]).session_uri@
                != sessions[k].session_uri@,
    ensures
        0 <= i < b.catalog@.len(),
        holds_description(b.catalog@[i], sessions[k]),
        b.catalog@[i].available,
        b.catalog@[i].last_seen_at == now,
{
    let (m, off, cut, x) = lemma_replaced(a, b, hosts, sessions, full, now);
    lemma_session_described(off, b.catalog@, sessions, now, k)
}

/// A session that is not described stays as it was, but for being available: a full
/// description takes it off, and so does one of the host that it runs on.
pub proof fn undescribed_sessions_are_taken_off(
    a: Database,
    b: Database,
    adapter: Seq<char>,
    instance: Seq<char>,
    hosts: Seq<AhpHostDescriptor>,
    sessions: Seq<AhpSessionDescriptor>,
    full: bool,
    drawn: Seq<Vec<String>>,
    now: i64,
    r: Result<(), Failure>,
    i: int,
)
    requires
        replace_outcome(a, b, adapter, instance, hosts, sessions, full, drawn, now, r),
        r is Ok,
        0 <= i < a.catalog@.len(),
        forall|k: int|
            0 <= k < sessions.len() ==> (#[trigger] sessions[k]).session_uri@
                != a.catalog@[i].session_uri@,
    ensures
        i < b.catalog@.len(),
        b.catalog@[i] == (CatalogRow { available: b.catalog@[i].available, ..a.catalog@[i] }),
        full ==> !b.catalog@[i].available,
        (exists|h: int|
            0 <= h < hosts.len() && (#[trigger] hosts[h]).endpoint_id@
                == a.catalog@[i].endpoint_id@) ==> !b.catalog@[i].available,
        !full && (forall|h: int|
            0 <= h < hosts.len() ==> (#[trigger] hosts[h]).endpoint_id@
                != a.catalog@[i].endpoint_id@) ==> b.catalog@[i] == a.catalog@[i],
{
    let (m, off, cut, x) = lemma_replaced(a, b, hosts, sessions, full, now);
    assert(off[i] == taken_off(a.catalog@[i], hosts, full));
    lemma_session_stays(off, b.catalog@, sessions, now, i);
}

/// Whether the row holds what the description says of the host.
pub open spec fn holds_host(r: HostRow, h: AhpHostDescriptor) -> bool {
    &&& r.endpoint_id@ == h.endpoint_id@
    &&& r.host_instance_id@ == h.host_instance_id@
    &&& r.pid == h.pid
    &&& r.advertised_protocol@ == h.advertised_protocol@
    &&& r.selected_protocol == h.selected_protocol
    &&& r.state == h.state
    &&& r.host_label == h.host_label
    &&& r.ssh_alias == h.ssh_alias
    &&& r.target_kind == h.target_kind
    &&& r.target_path == h.target_path
    &&& r.endpoint_type == h.endpoint_type
    &&& r.editor_client_tools_available == (h.editor_client_tools_available != Some(false))
}

proof fn lemma_host_stays(
    a: Seq<HostRow>,
    b: Seq<HostRow>,
    hosts: Seq<AhpHostDescriptor>,
    now: i64,
    i: int,
)
    requires
        hosts_put(a, b, hosts, now),
        0 <= i < a.len(),
        forall|k: int|
            0 <= k < hosts.len() ==> (#[trigger] hosts[k]).endpoint_id@ != a[i].endpoint_id@,
    ensures
        a.len() <= b.len(),
        b[i] == a[i],
    decreases hosts.len(),
{
    if hosts.len() > 0 {
        let before = hosts.drop_last();
        let m = choose|m: Seq<HostRow>|
            hosts_put(a, m, before, now) && #[trigger] host_put(m, b, hosts.last(), now);
        assert forall|k: int| 0 <= k < before.len() implies (#[trigger] before[k]).endpoint_id@
            != a[i].endpoint_id@ by {
            assert(hosts[k] == before[k]);
        }
        lemma_host_stays(a, m, before, now, i);
        assert(hosts.last() == hosts[hosts.len() - 1]);
        assert(b[i] == m[i]);
    }
}

proof fn lemma_host_described(
    a: Seq<HostRow>,
    b: Seq<HostRow>,
    hosts: Seq<AhpHostDescriptor>,
    now: i64,
    k: int,
) -> (i: int)
    requires
        hosts_put(a, b, hosts, now),
        0 <= k < hosts.len(),
        forall|l: int|
            k < l < hosts.len() ==> (#[trigger] hosts[l]).endpoint_id@ != hosts[k].endpoint_id@,
    ensures
        0 <= i < b.len(),
        holds_host(b[i], hosts[k]),
        b[i].last_seen_at == now,
    decreases hosts.len(),
{
    let before = hosts.drop_last();
    let last = hosts.last();
    let m = choose|m: Seq<HostRow>|
        hosts_put(a, m, before, now) && #[trigger] host_put(m, b, last, now);
    if k == hosts.len() - 1 {
        if has_host(m, last.endpoint_id@) {
            let i = choose|i: int|
                0 <= i < m.len() && (#[trigger] m[i]).endpoint_id@ == last.endpoint_id@;
            assert(b[i].endpoint_id@ == last.endpoint_id@);
            i
        } else {
            assert(b.len() == m.len() + 1);
            b.len() - 1
        }
    } else {
        assert(before[k] == hosts[k]);
        assert forall|l: int| k < l < before.len() implies (#[trigger] before[l]).endpoint_id@
            != before[k].endpoint_id@ by {
            assert(hosts[l] == before[l]);
        }
        let i = lemma_host_described(a, m, before, now, k);
        assert(last == hosts[hosts.len() - 1]);
        assert(b[i] == m[i]);
        i
    }
}

/// A host that is described is known as it was last described.
pub proof fn described_hosts_are_known(
    a: Database,
    b: Database,
    adapter: Seq<char>,
    instance: Seq<char>,
    hosts: Seq<AhpHostDescriptor>,
    sessions: Seq<AhpSessionDescriptor>,
    full: bool,
    drawn: Seq<Vec<String>>,
    now: i64,
    r: Result<(), Failure>,
    k: int,
) -> (i: int)
    requires
        replace_outcome(a, b, adapter, instance, hosts, sessions, full, drawn, now, r),
        r is Ok,
        0 <= k < hosts.len(),
        forall|l: int|
            k < l < hosts.len() ==> (#[trigger] hosts[l]).endpoint_id@ != hosts[k].endpoint_id@,
    ensures
        0 <= i < b.hosts@.len(),
        holds_host(b.hosts@[i], hosts[k]),
        b.hosts@[i].last_seen_at == now,
{
    let (m, off, cut, x) = lemma_replaced(a, b, hosts, sessions, full, now);
    lemma_host_described(cut, b.hosts@, hosts, now, k)
}

/// A host that is not described stays as it was; a full description without it tells
/// that it cannot be reached.
pub proof fn undescribed_hosts_are_unreachable(
    a: Database,
    b: Database,
    adapter: Seq<char>,
    instance: Seq<char>,
    hosts: Seq<AhpHostDescriptor>,
    sessions: Seq<AhpSessionDescriptor>,
    full: bool,
    drawn: Seq<Vec<String>>,
    now: i64,
    r: Result<(), Failure>,
    i: int,
)
    requires
        replace_outcome(a, b, adapter, instance, hosts, sessions, full, drawn, now, r),
        r is Ok,
        0 <= i < a.hosts@.len(),
        forall|k: int|
            0 <= k < hosts.len() ==> (#[trigger] hosts[k]).endpoint_id@ != a.hosts@[i].endpoint_id@,
    ensures
        i < b.hosts@.len(),
        full ==> b.hosts@[i] == (HostRow { state: AhpHostState::Unreachable, ..a.hosts@[i] }),
        !full ==> b.hosts@[i] == a.hosts@[i],
{
    let (m, off, cut, x) = lemma_replaced(a, b, hosts, sessions, full, now);
    assert(cut[i].endpoint_id@ == a.hosts@[i].endpoint_id@);
    lemma_host_stays(cut, b.hosts@, hosts, now, i);
}

/// Whether the tracked session is on that instance of a host, which another instance
/// has taken the place of.
pub open spec fn was_replaced(row: BindingRow, h: AhpHostDescriptor) -> bool {
    h.endpoint_id@ == row.endpoint_id@ && opt_view(row.host_instance_id) != Some(
        h.host_instance_id@,
    )
}

/// A tracked session is lost where its host is described as another instance, or where
/// a full description leaves its host out; the others stay as they are.
pub proof fn sessions_are_lost_with_their_hosts(
    a: Database,
    b: Database,
    adapter: Seq<char>,
    instance: Seq<char>,
    hosts: Seq<AhpHostDescriptor>,
    sessions: Seq<AhpSessionDescriptor>,
    full: bool,
    drawn: Seq<Vec<String>>,
    now: i64,
    r: Result<(), Failure>,
    i: int,
)
    requires
        replace_outcome(a, b, adapter, instance, hosts, sessions, full, drawn, now, r),
        r is Ok,
        0 <= i < a.bindings@.len(),
    ensures
        b.bindings@.len() == a.bindings@.len(),
        ({
            let row = a.bindings@[i];
            let then = b.bindings@[i];
            let lost = {
                &&& then.state == BindingState::Lost
                &&& then.chat_uri is None
                &&& then.active_turn_id is None
                &&& then.queued_message_count == 0
                &&& opt_view(then.error_code) == Some("host_restarted"@)
                &&& then.updated_at == now
                &&& then.binding_id == row.binding_id
                &&& then.session_uri == row.session_uri
                &&& then.endpoint_id == row.endpoint_id
                &&& then.host_instance_id == row.host_instance_id
                &&& then.last_server_sequence == row.last_server_sequence
                &&& then.generation == row.generation
            };
            &&& forall|h: int|
                0 <= h < hosts.len() && (#[trigger] hosts[h]).endpoint_id@ == row.endpoint_id@
                    && row.state != BindingState::Detaching && (forall|g: int|
                    0 <= g < h ==> (#[trigger] hosts[g]).endpoint_id@ != row.endpoint_id@) ==> {
                    if was_replaced(row, hosts[h]) {
                        lost
                    } else {
                        then == row
                    }
                }
            &&& (forall|h: int|
                0 <= h < hosts.len() ==> (#[trigger] hosts[h]).endpoint_id@ != row.endpoint_id@)
                && row.state != BindingState::Detaching ==> {
                if full && row.host_instance_id is Some {
                    lost
                } else {
                    then == row
                }
            }
            &&& row.state == BindingState::Detaching ==> then == row
        }),
{
    let (m, off, cut, x) = lemma_replaced(a, b, hosts, sessions, full, now);
    let row = a.bindings@[i];
    assert(b.bindings@[i] == x.bindings@[i]);
    let at = host_at(row.endpoint_id@);
    if row.state != BindingState::Detaching {
        assert forall|h: int|
            0 <= h < hosts.len() && (#[trigger] hosts[h]).endpoint_id@ == row.endpoint_id@ && (
            forall|g: int|
                0 <= g < h ==> (#[trigger] hosts[g]).endpoint_id@ != row.endpoint_id@) implies first(
            hosts,
            at,
        ) == Some(hosts[h]) by {
            assert forall|g: int| 0 <= g < h implies !at(#[trigger] hosts[g]) by {}
            lemma_first(hosts, at, h);
        }
        if forall|h: int|
            0 <= h < hosts.len() ==> (#[trigger] hosts[h]).endpoint_id@ != row.endpoint_id@ {
            assert forall|h: int| 0 <= h < hosts.len() implies !at(#[trigger] hosts[h]) by {}
            lemma_first_none(hosts, at);
        }
    }
}

/// Where a tracked session is lost, what was under way for it has failed; what was under
/// way for the others goes on.
pub proof fn what_is_under_way_is_lost_with_its_session(
    a: Database,
    b: Database,
    adapter: Seq<char>,
    instance: Seq<char>,
    hosts: Seq<AhpHostDescriptor>,
    sessions: Seq<AhpSessionDescriptor>,
    full: bool,
    drawn: Seq<Vec<String>>,
    now: i64,
    r: Result<(), Failure>,
    i: int,
)
    requires
        a.wf(),
        replace_outcome(a, b, adapter, instance, hosts, sessions, full, drawn, now, r),
        r is Ok,
        0 <= i < a.bindings@.len(),
    ensures
        b.commands@.len() == a.commands@.len(),
        b.decisions@.len() == a.decisions@.len(),
        b.inputs@.len() == a.inputs@.len(),
        forall|k: int|
            #![trigger b.commands@[k]]
            0 <= k < a.commands@.len() && a.commands@[k].binding_id@ == a.bindings@[i].binding_id@
                ==> {
                if b.bindings@[i] != a.bindings@[i] && (a.commands@[k].state
                    == CommandState::Pending || a.commands@[k].state == CommandState::Leased) {
                    b.commands@[k].state == CommandState::Failed && opt_view(
                        b.commands@[k].error_code,
                    ) == Some("host_restarted"@) && b.commands@[k].command_id
                        == a.commands@[k].command_id
                } else {
                    b.bindings@[i] == a.bindings@[i] || a.commands@[k].state
                        == CommandState::Acked || a.commands@[k].state == CommandState::Rejected
                        || a.commands@[k].state == CommandState::Failed
                }
            },
        forall|k: int|
            #![trigger b.commands@[k]]
            0 <= k < a.commands@.len() && a.commands@[k].binding_id@ == a.bindings@[i].binding_id@
                && a.bindings@[i].state == BindingState::Detaching ==> b.commands@[k]
                == a.commands@[k],
        forall|k: int|
            #![trigger b.decisions@[k]]
            0 <= k < a.decisions@.len() && a.decisions@[k].session_uri@
                == a.bindings@[i].session_uri@ && b.bindings@[i] != a.bindings@[i] && (
            a.decisions@[k].state == DecisionState::Pending || a.decisions@[k].state
                == DecisionState::Submitted) ==> b.decisions@[k].state == DecisionState::Failed,
        forall|k: int|
            #![trigger b.inputs@[k]]
            0 <= k < a.inputs@.len() && a.inputs@[k].session_uri@ == a.bindings@[i].session_uri@
                && b.bindings@[i] != a.bindings@[i] && (a.inputs@[k].state == InputState::Pending
                || a.inputs@[k].state == InputState::Submitted) ==> b.inputs@[k].state
                == InputState::Failed,
        forall|k: int|
            #![trigger b.decisions@[k]]
            0 <= k < a.decisions@.len() && a.decisions@[k].state != DecisionState::Pending
                && a.decisions@[k].state != DecisionState::Submitted ==> b.decisions@[k]
                == a.decisions@[k],
        forall|k: int|
            #![trigger b.inputs@[k]]
            0 <= k < a.inputs@.len() && a.inputs@[k].state != InputState::Pending
                && a.inputs@[k].state != InputState::Submitted ==> b.inputs@[k] == a.inputs@[k],
{
    let (m, off, cut, x) = lemma_replaced(a, b, hosts, sessions, full, now);
    let row = a.bindings@[i];
    assert(b.bindings@[i] == x.bindings@[i]);
    if b.bindings@[i] != row {
        assert(is_lost(a.bindings@[i], hosts, full));
        assert(lost_id(a.bindings@, row.binding_id@, hosts, full));
        assert(lost_uri(a.bindings@, row.session_uri@, hosts, full));
    }
    if row.state == BindingState::Detaching {
        assert(!lost_id(a.bindings@, row.binding_id@, hosts, full)) by {
            assert forall|j: int| 0 <= j < a.bindings@.len() && is_lost(
                #[trigger] a.bindings@[j],
                hosts,
                full,
            ) implies a.bindings@[j].binding_id@ != row.binding_id@ by {
                assert(j != i);
            }
        }
    }
}

proof fn lemma_lead_stops(n: nat, p: spec_fn(int) -> bool)
    ensures
        crate::tables::lead(n, p) <= n,
        crate::tables::lead(n, p) < n ==> !p(crate::tables::lead(n, p) as int),
    decreases n,
{
    if n > 0 {
        lemma_lead_stops((n - 1) as nat, p);
    }
}

proof fn lemma_codes_of_known_sessions(
    rows: Seq<CatalogRow>,
    sessions: Seq<AhpSessionDescriptor>,
    drawn: Seq<Vec<String>>,
    k: nat,
)
    requires
        k <= sessions.len(),
        forall|j: int| 0 <= j < k ==> has_uri(rows, (#[trigger] sessions[j]).session_uri@),
    ensures
        new_codes(rows, sessions, drawn, k) is Some,
    decreases k,
{
    if k > 0 {
        lemma_codes_of_known_sessions(rows, sessions, drawn, (k - 1) as nat);
        assert(has_uri(rows, sessions[k - 1].session_uri@));
    }
}

/// Whether the description names the host that the session runs on.
pub open spec fn names_host_of(
    hosts: Seq<AhpHostDescriptor>,
    s: AhpSessionDescriptor,
) -> bool {
    exists|h: int|
        0 <= h < hosts.len() && (#[trigger] hosts[h]).endpoint_id@ == s.endpoint_id@
            && hosts[h].host_instance_id@ == s.host_instance_id@
}

/// Only the registered adapter describes the catalogue, and each session must run on a
/// host that is described: else nothing changes.
pub proof fn descriptions_are_complete(
    a: Database,
    b: Database,
    adapter: Seq<char>,
    instance: Seq<char>,
    hosts: Seq<AhpHostDescriptor>,
    sessions: Seq<AhpSessionDescriptor>,
    full: bool,
    drawn: Seq<Vec<String>>,
    now: i64,
    r: Result<(), Failure>,
)
    requires
        replace_outcome(a, b, adapter, instance, hosts, sessions, full, drawn, now, r),
    ensures
        r is Err ==> b == a,
        r is Ok ==> a.adapter is Some && a.adapter->0.adapter_id@ == adapter
            && a.adapter->0.adapter_instance_id@ == instance,
        r is Ok ==> forall|k: int|
            0 <= k < sessions.len() ==> names_host_of(hosts, #[trigger] sessions[k]),
        r is Ok ==> b.adapter is Some && b.adapter->0.last_seen_at == now,
        (a.adapter is Some && a.adapter->0.adapter_id@ == adapter
            && a.adapter->0.adapter_instance_id@ == instance && (forall|k: int|
            0 <= k < sessions.len() ==> names_host_of(hosts, #[trigger] sessions[k])) && (forall|
            k: int,
        |
            0 <= k < sessions.len() ==> exists|i: int|
                0 <= i < a.catalog@.len() && (#[trigger] a.catalog@[i]).session_uri@ == (
                #[trigger] sessions[k]).session_uri@) && (forall|i: int|
            0 <= i < a.bindings@.len() ==> (#[trigger] a.bindings@[i]).queued_message_count
                <= u32::MAX)) ==> r is Ok,
{
    let p = |k: int| is_hosted(hosts, sessions[k]);
    lemma_lead_stops(sessions.len(), p);
    assert(hosted_lead(hosts, sessions) == crate::tables::lead(sessions.len(), p));
    if r is Ok {
        lemma_all_hosted(hosts, sessions);
        let (m, off, cut, x) = lemma_replaced(a, b, hosts, sessions, full, now);
    }
    if forall|k: int| 0 <= k < sessions.len() ==> names_host_of(hosts, #[trigger] sessions[k]) {
        assert forall|j: int| 0 <= j < sessions.len() implies #[trigger] p(j) by {
            assert(names_host_of(hosts, sessions[j]));
        }
        lemma_lead(sessions.len(), p, sessions.len());
        if forall|k: int|
            0 <= k < sessions.len() ==> exists|i: int|
                0 <= i < a.catalog@.len() && (#[trigger] a.catalog@[i]).session_uri@ == (
                #[trigger] sessions[k]).session_uri@ {
            lemma_codes_of_known_sessions(a.catalog@, sessions, drawn, sessions.len());
        }
    }
}

proof fn lemma_lead_holds(n: nat, p: spec_fn(int) -> bool)
    requires
        crate::tables::lead(n, p) == n,
    ensures
        forall|j: int| 0 <= j < n ==> #[trigger] p(j),
    decreases n,
{
    if n > 0 {
        lemma_lead_stops((n - 1) as nat, p);
        lemma_lead_holds((n - 1) as nat, p);
    }
}

proof fn lemma_all_hosted(hosts: Seq<AhpHostDescriptor>, sessions: Seq<AhpSessionDescriptor>)
    requires
        hosted_lead(hosts, sessions) >= sessions.len(),
    ensures
        forall|k: int|
            0 <= k < sessions.len() ==> names_host_of(hosts, #[trigger] sessions[k]),
{
    let p = |k: int| is_hosted(hosts, sessions[k]);
    lemma_lead_stops(sessions.len(), p);
    lemma_lead_holds(sessions.len(), p);
    assert forall|k: int| 0 <= k < sessions.len() implies names_host_of(
        hosts,
        #[trigger] sessions[k],
    ) by {
        assert(p(k));
    }
}

/// A session that comes into the catalogue gets the first of the codes drawn for it
/// that no session has and that no earlier one got.
pub proof fn new_sessions_get_new_codes(
    a: Database,
    b: Database,
    adapter: Seq<char>,
    instance: Seq<char>,
    hosts: Seq<AhpHostDescriptor>,
    sessions: Seq<AhpSessionDescriptor>,
    full: bool,
    drawn: Seq<Vec<String>>,
    now: i64,
    r: Result<(), Failure>,
    k: int,
) -> (found: (int, int))
    requires
        replace_outcome(a, b, adapter, instance, hosts, sessions, full, drawn, now, r),
        r is Ok,
        0 <= k < sessions.len(),
        forall|i: int|
            0 <= i < a.catalog@.len() ==> (#[trigger] a.catalog@[i]).session_uri@
                != sessions[k].session_uri@,
        forall|j: int|
            0 <= j < k ==> (#[trigger] sessions[j]).session_uri@ != sessions[k].session_uri@,
    ensures
        0 <= found.0 < b.catalog@.len(),
        b.catalog@[found.0].session_uri@ == sessions[k].session_uri@,
        0 <= found.1 < drawn[k]@.len(),
        b.catalog@[found.0].short_code@ == drawn[k]@[found.1]@,
        forall|i: int|
            0 <= i < a.catalog@.len() ==> (#[trigger] a.catalog@[i]).short_code@
                != b.catalog@[found.0].short_code@,
{
    let p = |k: int| is_hosted(hosts, sessions[k]);
    lemma_lead_stops(sessions.len(), p);
    let n = sessions.len();
    let codes = new_codes(a.catalog@, sessions, drawn, n)->0;
    assert(!has_uri(a.catalog@, sessions[k].session_uri@));
    assert(!is_repeated(sessions, k));
    let earlier = lemma_code_of(a.catalog@, sessions, drawn, n, k);
    let free = free_code(a.catalog@, earlier);
    lemma_first_holds(drawn[k]@, free);
    let d = choose|d: int|
        0 <= d < drawn[k]@.len() && #[trigger] drawn[k]@[d] == first(drawn[k]@, free)->0 && free(
            drawn[k]@[d],
        );
    assert(crate::catalog::has_code(b.catalog@, sessions[k].session_uri@, codes[k]->0));
    let i = choose|i: int|
        0 <= i < b.catalog@.len() && (#[trigger] b.catalog@[i]).session_uri@
            == sessions[k].session_uri@ && b.catalog@[i].short_code@ == codes[k]->0;
    assert(!crate::catalog::is_code_taken(a.catalog@, drawn[k]@[d]@));
    (i, d)
}

proof fn lemma_code_of(
    rows: Seq<CatalogRow>,
    sessions: Seq<AhpSessionDescriptor>,
    drawn: Seq<Vec<String>>,
    n: nat,
    k: int,
) -> (earlier: Seq<Option<Seq<char>>>)
    requires
        0 <= k < n <= sessions.len(),
        new_codes(rows, sessions, drawn, n) is Some,
        is_new(rows, sessions, k),
    ensures
        new_codes(rows, sessions, drawn, n)->0.len() == n,
        first(drawn[k]@, free_code(rows, earlier)) is Some,
        new_codes(rows, sessions, drawn, n)->0[k] == Some(
            first(drawn[k]@, free_code(rows, earlier))->0@,
        ),
    decreases n,
{
    lemma_codes_len(rows, sessions, drawn, (n - 1) as nat);
    let before = new_codes(rows, sessions, drawn, (n - 1) as nat)->0;
    if k == n - 1 {
        before
    } else {
        lemma_code_of(rows, sessions, drawn, (n - 1) as nat, k)
    }
}

proof fn lemma_codes_len(
    rows: Seq<CatalogRow>,
    sessions: Seq<AhpSessionDescriptor>,
    drawn: Seq<Vec<String>>,
    n: nat,
)
    requires
        new_codes(rows, sessions, drawn, n) is Some,
    ensures
        new_codes(rows, sessions, drawn, n)->0.len() == n,
    decreases n,
{
    if n > 0 {
        lemma_codes_len(rows, sessions, drawn, (n - 1) as nat);
    }
}

// ---------------------------------------------------------------------------
// What the catalogue shows

/// Whether the record tells what the row holds.
pub open spec fn tells_session(r: CatalogRow, d: AhpSessionDescriptor) -> bool {
    &&& holds_description(r, d)
    &&& opt_view(d.short_code) == Some(r.short_code@)
}

/// Whether the record tells of a session that is available, or whose target is known.
pub open spec fn tells_of_a_known_session(db: Database, d: AhpSessionDescriptor) -> bool {
    exists|i: int|
        0 <= i < db.catalog@.len() && tells_session(#[trigger] db.catalog@[i], d) && (
        db.catalog@[i].available || db.catalog@[i].target_kind is Some)
}

/// Each session that is available, or whose target is known, is listed, and no other;
/// those that were changed last come first.
pub proof fn known_sessions_are_listed(
    db: Database,
    picks: Seq<usize>,
    list: Seq<AhpSessionDescriptor>,
)
    requires
        lists_sessions(db, picks, list),
    ensures
        forall|i: int|
            #![trigger db.catalog@[i]]
            0 <= i < db.catalog@.len() && (db.catalog@[i].available
                || db.catalog@[i].target_kind is Some) ==> exists|k: int|
                0 <= k < list.len() && tells_session(db.catalog@[i], #[trigger] list[k]),
        forall|k: int|
            #![trigger list[k]]
            0 <= k < list.len() ==> tells_of_a_known_session(db, list[k]),
        forall|k: int, l: int|
            0 <= k < l < list.len() ==> !less(
                (#[trigger] list[k]).modified_at@,
                (#[trigger] list[l]).modified_at@,
            ),
{
    assert forall|i: int|
        #![trigger db.catalog@[i]]
        0 <= i < db.catalog@.len() && (db.catalog@[i].available
            || db.catalog@[i].target_kind is Some) implies exists|k: int|
        0 <= k < list.len() && tells_session(db.catalog@[i], #[trigger] list[k]) by {
        assert(visible()(db.catalog@[i]));
        let k = choose|k: int| 0 <= k < picks.len() && #[trigger] picks[k] == i;
        assert(shows_session(db.catalog@[picks[k] as int], list[k]));
        assert(tells_session(db.catalog@[i], list[k]));
    }
    assert forall|k: int|
        #![trigger list[k]]
        0 <= k < list.len() implies tells_of_a_known_session(db, list[k]) by {
        let i = picks[k] as int;
        assert(visible()(db.catalog@[i]));
        assert(shows_session(db.catalog@[i], list[k]));
        assert(tells_session(db.catalog@[i], list[k]));
    }
    assert forall|k: int, l: int| 0 <= k < l < list.len() implies !less(
        (#[trigger] list[k]).modified_at@,
        (#[trigger] list[l]).modified_at@,
    ) by {
        assert(shows_session(db.catalog@[picks[k] as int], list[k]));
        assert(shows_session(db.catalog@[picks[l] as int], list[l]));
    }
}

/// A session that is shown is found by its code and by its address; one that is not
/// shown is found by neither.
pub proof fn shown_sessions_are_found(db: Database, i: int, code: Seq<char>)
    requires
        db.wf(),
        0 <= i < db.catalog@.len(),
        db.catalog@[i].short_code@ == upper(code),
    ensures
        db.catalog@[i].available || db.catalog@[i].target_kind is Some ==> first(
            db.catalog@,
            visible_code(upper(code)),
        ) == Some(db.catalog@[i]),
        db.catalog@[i].available || db.catalog@[i].target_kind is Some ==> first(
            db.catalog@,
            visible_uri(db.catalog@[i].session_uri@),
        ) == Some(db.catalog@[i]),
        !db.catalog@[i].available && db.catalog@[i].target_kind is None ==> first(
            db.catalog@,
            visible_code(upper(code)),
        ) is None,
        !db.catalog@[i].available && db.catalog@[i].target_kind is None ==> first(
            db.catalog@,
            visible_uri(db.catalog@[i].session_uri@),
        ) is None,
{
    let row = db.catalog@[i];
    let p = visible_code(upper(code));
    let q = visible_uri(row.session_uri@);
    assert forall|j: int| 0 <= j < db.catalog@.len() && j != i implies !p(
        #[trigger] db.catalog@[j],
    ) && !q(db.catalog@[j]) by {
        if j < i {
            assert(db.catalog@[j].short_code@ != db.catalog@[i].short_code@);
        } else {
            assert(db.catalog@[i].short_code@ != db.catalog@[j].short_code@);
        }
    }
    if row.available || row.target_kind is Some {
        lemma_first(db.catalog@, p, i);
        lemma_first(db.catalog@, q, i);
    } else {
        assert forall|j: int| 0 <= j < db.catalog@.len() implies !p(#[trigger] db.catalog@[j])
            && !q(db.catalog@[j]) by {
            if j == i {
                assert(!p(row));
            }
        }
        lemma_first_none(db.catalog@, p);
        lemma_first_none(db.catalog@, q);
    }
}

/// What is read of a tracked session tells what is known of it and, as far as the
/// catalogue knows the session, what the catalogue says of its host.
pub proof fn tracked_sessions_are_told(db: Database, i: int, c: int, d: AhpBindingRecord)
    requires
        db.wf(),
        0 <= i < db.bindings@.len(),
        shows(db, db.bindings@[i], d),
    ensures
        d.binding_id@ == db.bindings@[i].binding_id@,
        d.generation == db.bindings@[i].generation,
        d.endpoint_id@ == db.bindings@[i].endpoint_id@,
        d.host_instance_id == db.bindings@[i].host_instance_id,
        d.session_uri@ == db.bindings@[i].session_uri@,
        d.chat_uri == db.bindings@[i].chat_uri,
        d.active_turn_id == db.bindings@[i].active_turn_id,
        d.last_activity_at == db.bindings@[i].last_activity_at,
        db.bindings@[i].last_server_sequence >= 0 ==> d.last_server_sequence
            == db.bindings@[i].last_server_sequence,
        db.bindings@[i].queued_message_count >= 0 ==> d.queued_message_count
            == db.bindings@[i].queued_message_count,
        d.foreground <==> db.foreground is Some && db.foreground->0.binding_id@
            == db.bindings@[i].binding_id@,
        db.bindings@[i].state == BindingState::Bound ==> d.state@ == "bound"@,
        db.bindings@[i].state == BindingState::Binding ==> d.state@ == "binding"@,
        db.bindings@[i].state == BindingState::Lost ==> d.state@ == "lost"@,
        db.bindings@[i].state == BindingState::Failed ==> d.state@ == "failed"@,
        db.bindings@[i].state == BindingState::Detaching ==> d.state@ == "detaching"@,
        0 <= c < db.catalog@.len() && db.catalog@[c].session_uri@ == db.bindings@[i].session_uri@
            ==> d.host_label == db.catalog@[c].host_label && d.ssh_alias == db.catalog@[c].ssh_alias
            && d.target_kind == db.catalog@[c].target_kind && d.target_path
            == db.catalog@[c].target_path && d.editor_client_tools_available == Some(
            db.catalog@[c].editor_client_tools_available,
        ),
{
    if 0 <= c < db.catalog@.len() && db.catalog@[c].session_uri@ == db.bindings@[i].session_uri@ {
        let p = crate::bindings::at_uri(db.bindings@[i].session_uri@);
        assert forall|k: int| 0 <= k < c implies !p(#[trigger] db.catalog@[k]) by {
            assert(db.catalog@[k].session_uri@ != db.catalog@[c].session_uri@);
        }
        lemma_first(db.catalog@, p, c);
    }
}

// ---------------------------------------------------------------------------
// Menus

proof fn lemma_uses(list: Seq<String>)
    ensures
        first_uses(list).len() <= list.len(),
        forall|k: int|
            0 <= k < first_uses(list).len() ==> 0 <= #[trigger] first_uses(list)[k] < list.len(),
        forall|k: int, l: int|
            0 <= k < l < first_uses(list).len() ==> list[#[trigger] first_uses(list)[k]]@
                != list[#[trigger] first_uses(list)[l]]@,
    decreases list.len(),
{
    if list.len() > 0 {
        let before = list.drop_last();
        lemma_uses(before);
        let uses = first_uses(list);
        assert forall|k: int, l: int| 0 <= k < l < uses.len() implies list[#[trigger] uses[k]]@
            != list[#[trigger] uses[l]]@ by {
            assert(uses[k] == first_uses(before)[k]);
            assert(before[uses[k]] == list[uses[k]]);
            if l < first_uses(before).len() {
                assert(uses[l] == first_uses(before)[l]);
                assert(before[uses[l]] == list[uses[l]]);
            } else {
                assert(list[uses[l]] == list.last());
            }
        }
    }
}

proof fn lemma_use_of(list: Seq<String>, j: int) -> (k: int)
    requires
        0 <= j < list.len(),
    ensures
        0 <= k < first_uses(list).len(),
        0 <= first_uses(list)[k] < list.len(),
        list[first_uses(list)[k]]@ == list[j]@,
    decreases list.len(),
{
    let before = list.drop_last();
    lemma_uses(before);
    if j < list.len() - 1 {
        assert(before[j] == list[j]);
        let k = lemma_use_of(before, j);
        assert(first_uses(list)[k] == first_uses(before)[k]);
        k
    } else if is_listed(before, list.last()@) {
        let i = choose|i: int| 0 <= i < before.len() && (#[trigger] before[i])@ == list.last()@;
        let k = lemma_use_of(before, i);
        assert(first_uses(list)[k] == first_uses(before)[k]);
        k
    } else {
        first_uses(list).len() - 1
    }
}

/// A menu has one button for each of its sessions, which is good for the time asked
/// for.
pub proof fn menus_offer_each_session_once(
    a: Database,
    b: Database,
    uris: Seq<String>,
    group: Seq<char>,
    drawn: Seq<Vec<String>>,
    ttl_seconds: u64,
    now: i64,
    buttons: Vec<AhpSessionSwitchButton>,
    j: int,
) -> (found: (int, int))
    requires
        menu_outcome(a, b, uris, group, drawn, ttl_seconds, now, Ok(buttons)),
        now + ttl_seconds <= i64::MAX,
        0 <= j < uris.len(),
    ensures
        0 <= found.0 < buttons@.len(),
        buttons@[found.0].session.session_uri@ == uris[j]@,
        forall|k: int|
            0 <= k < buttons@.len() && k != found.0 ==> (
            #[trigger] buttons@[k]).session.session_uri@ != uris[j]@,
        0 <= found.1 < b.switch_buttons@.len(),
        b.switch_buttons@[found.1].button_data@ == buttons@[found.0].button_data@,
        b.switch_buttons@[found.1].session_uri@ == uris[j]@,
        views(b.switch_buttons@[found.1].workspace_uris@) == views(
            buttons@[found.0].session.workspace_uris@,
        ),
        b.switch_buttons@[found.1].group_id@ == group,
        b.switch_buttons@[found.1].expires_at == now + ttl_seconds,
        b.switch_buttons@[found.1].used_at is None,
        b.catalog == a.catalog,
        b.bindings == a.bindings,
        b.foreground == a.foreground,
{
    lemma_uses(uris);
    let k = lemma_use_of(uris, j);
    let kept = a.switch_buttons@.filter(still_good(now));
    assert forall|l: int| 0 <= l < buttons@.len() implies (
    #[trigger] buttons@[l]).session.session_uri@ == uris[first_uses(uris)[l]]@ by {
        lemma_first_holds(a.catalog@, visible_uri(uris[first_uses(uris)[l]]@));
    }
    lemma_first_holds(a.catalog@, visible_uri(uris[first_uses(uris)[k]]@));
    assert(buttons@[k].session.session_uri@ == uris[j]@);
    assert forall|l: int| 0 <= l < buttons@.len() && l != k implies (
    #[trigger] buttons@[l]).session.session_uri@ != uris[j]@ by {
        if l < k {
            assert(uris[first_uses(uris)[l]]@ != uris[first_uses(uris)[k]]@);
        } else {
            assert(uris[first_uses(uris)[k]]@ != uris[first_uses(uris)[l]]@);
        }
    }
    (k, kept.len() + k)
}

/// A menu is made where all its sessions are shown, and only there.
pub proof fn menus_offer_shown_sessions(
    a: Database,
    b: Database,
    uris: Seq<String>,
    group: Seq<char>,
    drawn: Seq<Vec<String>>,
    ttl_seconds: u64,
    now: i64,
    r: Result<Vec<AhpSessionSwitchButton>, Failure>,
    j: int,
)
    requires
        menu_outcome(a, b, uris, group, drawn, ttl_seconds, now, r),
        0 <= j < uris.len(),
    ensures
        r is Err ==> b == a,
        r is Ok ==> uris.len() <= 2000,
        r is Ok ==> exists|i: int|
            0 <= i < a.catalog@.len() && (#[trigger] a.catalog@[i]).session_uri@ == uris[j]@ && (
            a.catalog@[i].available || a.catalog@[i].target_kind is Some),
        r is Err && uris.len() <= 2000 && ttl_seconds <= i64::MAX && (forall|k: int|
            0 <= k < uris.len() ==> exists|i: int|
                0 <= i < a.catalog@.len() && (#[trigger] a.catalog@[i]).session_uri@ == (
                #[trigger] uris[k])@ && (a.catalog@[i].available
                    || a.catalog@[i].target_kind is Some)) ==> r->Err_0.message@
            == "failed to allocate a unique Session switch token"@,
{
    lemma_uses(uris);
    let n = first_uses(uris).len();
    let p = |k: int| shows_use(a, uris, k);
    if r is Ok {
        let k = lemma_use_of(uris, j);
        let q = visible_uri(uris[first_uses(uris)[k]]@);
        assert(shows_session(first(a.catalog@, q)->0, (r->Ok_0)@[k].session));
        lemma_first_holds(a.catalog@, q);
    } else if uris.len() <= 2000 && ttl_seconds <= i64::MAX && (forall|k: int|
        0 <= k < uris.len() ==> exists|i: int|
            0 <= i < a.catalog@.len() && (#[trigger] a.catalog@[i]).session_uri@ == (
            #[trigger] uris[k])@ && (a.catalog@[i].available
                || a.catalog@[i].target_kind is Some)) {
        assert forall|k: int| 0 <= k < n implies #[trigger] p(k) by {
            let u = first_uses(uris)[k];
            let q = visible_uri(uris[u]@);
            let i = choose|i: int|
                0 <= i < a.catalog@.len() && (#[trigger] a.catalog@[i]).session_uri@ == uris[u]@
                    && (a.catalog@[i].available || a.catalog@[i].target_kind is Some);
            assert(q(a.catalog@[i]));
            if first(a.catalog@, q) is None {
                lemma_none_holds(a.catalog@, q, i);
            }
        }
        lemma_lead(n, p, n);
    }
}

proof fn lemma_none_holds<T>(rows: Seq<T>, p: spec_fn(T) -> bool, i: int)
    requires
        0 <= i < rows.len(),
        p(rows[i]),
    ensures
        first(rows, p) is Some,
    decreases rows.len(),
{
    if !p(rows[0]) {
        assert(rows.skip(1)[i - 1] == rows[i]);
        lemma_none_holds(rows.skip(1), p, i - 1);
    }
}

/// Whether the button is good: it was not used, its time is not up, and the session
/// has the workspaces that it had when the button was made.
pub open spec fn is_good(b: SwitchButtonRow, s: CatalogRow, now: i64) -> bool {
    &&& b.used_at is None
    &&& now < b.expires_at
    &&& views(b.workspace_uris@) == views(s.workspace_uris@)
}

proof fn lemma_button_session(a: Database, i: int, j: int)
    requires
        a.wf(),
        0 <= i < a.switch_buttons@.len(),
        0 <= j < a.catalog@.len(),
        a.catalog@[j].session_uri@ == a.switch_buttons@[i].session_uri@,
        a.catalog@[j].available || a.catalog@[j].target_kind is Some,
    ensures
        button_session(a, a.switch_buttons@[i].button_data@) == Some(
            (a.switch_buttons@[i], a.catalog@[j]),
        ),
{
    let p = switch_data(a.switch_buttons@[i].button_data@);
    assert forall|k: int| 0 <= k < i implies !p(#[trigger] a.switch_buttons@[k]) by {
        assert(a.switch_buttons@[k].button_data@ != a.switch_buttons@[i].button_data@);
    }
    lemma_first(a.switch_buttons@, p, i);
    let q = visible_uri(a.catalog@[j].session_uri@);
    assert forall|k: int| 0 <= k < j implies !q(#[trigger] a.catalog@[k]) by {
        assert(a.catalog@[k].session_uri@ != a.catalog@[j].session_uri@);
    }
    lemma_first(a.catalog@, q, j);
}

/// A button that is good gives its session, where that is allowed, and uses its menu up;
/// any other button gives nothing.
pub proof fn good_buttons_give_their_session(
    a: Database,
    b: Database,
    allowed: Seq<String>,
    now: i64,
    r: Option<AhpSessionDescriptor>,
    i: int,
    j: int,
)
    requires
        a.wf(),
        0 <= i < a.switch_buttons@.len(),
        0 <= j < a.catalog@.len(),
        a.catalog@[j].session_uri@ == a.switch_buttons@[i].session_uri@,
        a.catalog@[j].available || a.catalog@[j].target_kind is Some,
        consume_outcome(a, b, a.switch_buttons@[i].button_data@, allowed, now, r),
    ensures
        b.switch_buttons@.len() == a.switch_buttons@.len(),
        b.catalog == a.catalog,
        b.bindings == a.bindings,
        ({
            let may = exists|k: int|
                0 <= k < allowed.len() && (#[trigger] allowed[k])@ == a.catalog@[j].session_uri@;
            &&& r is Some <==> may && is_good(a.switch_buttons@[i], a.catalog@[j], now)
            &&& r is Some ==> tells_session(a.catalog@[j], r->0)
            &&& r is Some ==> forall|k: int|
                #![trigger b.switch_buttons@[k]]
                0 <= k < a.switch_buttons@.len() ==> if a.switch_buttons@[k].group_id@
                    == a.switch_buttons@[i].group_id@ {
                    b.switch_buttons@[k].used_at is Some
                } else {
                    b.switch_buttons@[k] == a.switch_buttons@[k]
                }
            &&& r is None && may ==> b == a
            &&& !may ==> b.switch_buttons@[i].used_at is Some
            &&& !may ==> forall|k: int|
                #![trigger b.switch_buttons@[k]]
                0 <= k < a.switch_buttons@.len() && k != i ==> b.switch_buttons@[k]
                    == a.switch_buttons@[k]
        }),
{
    lemma_button_session(a, i, j);
    let data = a.switch_buttons@[i].button_data@;
    assert forall|k: int| 0 <= k < a.switch_buttons@.len() && k != i implies (
    #[trigger] a.switch_buttons@[k]).button_data@ != data by {
        if k < i {
            assert(a.switch_buttons@[k].button_data@ != a.switch_buttons@[i].button_data@);
        } else {
            assert(a.switch_buttons@[i].button_data@ != a.switch_buttons@[k].button_data@);
        }
    }
    if is_listed(allowed, a.catalog@[j].session_uri@) {
        let k = choose|k: int|
            0 <= k < allowed.len() && (#[trigger] allowed[k])@ == a.catalog@[j].session_uri@;
        assert(allowed[k]@ == a.catalog@[j].session_uri@);
    }
}

/// A button that is good brings its session to the foreground, where that is allowed
/// and the session can be tracked; any other button changes nothing of what is tracked.
pub proof fn good_buttons_bring_their_session_to_the_foreground(
    a: Database,
    b: Database,
    allowed: Seq<String>,
    id: Seq<char>,
    now: i64,
    r: Result<Option<AhpSessionSwitchSubmission>, Failure>,
    i: int,
    j: int,
)
    requires
        a.wf(),
        0 <= i < a.switch_buttons@.len(),
        0 <= j < a.catalog@.len(),
        a.catalog@[j].session_uri@ == a.switch_buttons@[i].session_uri@,
        a.catalog@[j].available || a.catalog@[j].target_kind is Some,
        switch_outcome(a, b, a.switch_buttons@[i].button_data@, allowed, id, now, r),
    ensures
        ({
            let may = exists|k: int|
                0 <= k < allowed.len() && (#[trigger] allowed[k])@ == a.catalog@[j].session_uri@;
            let good = may && is_good(a.switch_buttons@[i], a.catalog@[j], now);
            &&& !may ==> r is Ok && r->Ok_0 is None
            &&& r matches Ok(Some(sub)) ==> {
                &&& may
                &&& sub.accepted == good
                &&& tells_session(a.catalog@[j], sub.session)
            }
            &&& good ==> match r {
                Ok(Some(sub)) => {
                    &&& sub.binding.session_uri@ == a.catalog@[j].session_uri@
                    &&& b.foreground is Some
                    &&& b.foreground->0.binding_id@ == sub.binding.binding_id@
                    &&& exists|k: int|
                        0 <= k < b.bindings@.len() && (#[trigger] b.bindings@[k]).binding_id@
                            == sub.binding.binding_id@ && b.bindings@[k].session_uri@
                            == a.catalog@[j].session_uri@
                },
                Ok(None) => false,
                Err(_) => b == a,
            }
            &&& !good ==> b.bindings == a.bindings && b.foreground == a.foreground && b.commands
                == a.commands
        }),
{
    lemma_button_session(a, i, j);
    let uri = a.catalog@[j].session_uri@;
    if is_listed(allowed, uri) {
        let k = choose|k: int| 0 <= k < allowed.len() && (#[trigger] allowed[k])@ == uri;
        assert(allowed[k]@ == uri);
        if is_good(a.switch_buttons@[i], a.catalog@[j], now) && r is Ok {
            let sub = r->Ok_0->0;
            let m = choose|m: Database|
                #[trigger] menu_spent(m, b, a.switch_buttons@[i].group_id@, now) && focus_outcome(
                    a,
                    m,
                    a.catalog@[j].endpoint_id@,
                    uri,
                    id,
                    now,
                    Ok(sub.binding),
                );
            assert(b.bindings == m.bindings && b.foreground == m.foreground);
            lemma_first_holds(m.bindings@, crate::bindings::with_session(uri));
            let row = m.binding_of(uri)->0;
            let k = choose|k: int| 0 <= k < m.bindings@.len() && #[trigger] m.bindings@[k] == row;
            assert(b.bindings@[k].binding_id@ == sub.binding.binding_id@);
        }
    }
}

/// A button that was never made, or whose session is not shown, does nothing.
pub proof fn other_buttons_do_nothing(
    a: Database,
    b: Database,
    data: Seq<char>,
    allowed: Seq<String>,
    now: i64,
    r: Option<AhpSessionDescriptor>,
)
    requires
        consume_outcome(a, b, data, allowed, now, r),
        forall|i: int, j: int|
            #![trigger a.switch_buttons@[i], a.catalog@[j]]
            0 <= i < a.switch_buttons@.len() && 0 <= j < a.catalog@.len()
                && a.switch_buttons@[i].button_data@ == data && a.catalog@[j].session_uri@
                == a.switch_buttons@[i].session_uri@ ==> !a.catalog@[j].available
                && a.catalog@[j].target_kind is None,
    ensures
        r is None,
        b == a,
{
    let p = switch_data(data);
    lemma_first_holds(a.switch_buttons@, p);
    if first(a.switch_buttons@, p) is Some {
        let x = first(a.switch_buttons@, p)->0;
        let i = choose|i: int|
            0 <= i < a.switch_buttons@.len() && #[trigger] a.switch_buttons@[i] == x && p(
                a.switch_buttons@[i],
            );
        let q = visible_uri(x.session_uri@);
        assert forall|j: int| 0 <= j < a.catalog@.len() implies !q(#[trigger] a.catalog@[j]) by {
            assert(a.switch_buttons@[i].button_data@ == data);
        }
        lemma_first_none(a.catalog@, q);
    }
}

// ---------------------------------------------------------------------------
// The dialogue that creates a session

/// What time takes away is just what its time is up for: the dialogue, its buttons and
/// the requests for trust, and buttons that were used.
pub proof fn what_is_over_is_taken_away(a: Database, b: Database, now: i64)
    requires
        tidied(a, b, now),
    ensures
        a.wizard matches Some(w) ==> b.wizard == (if now < w.expires_at {
            Some(w)
        } else {
            None
        }),
        a.wizard is None ==> b.wizard is None,
        forall|i: int|
            0 <= i < a.trust_requests@.len() ==> (b.trust_requests@.contains(
                #[trigger] a.trust_requests@[i],
            ) <==> now < a.trust_requests@[i].expires_at),
        forall|i: int|
            0 <= i < b.trust_requests@.len() ==> a.trust_requests@.contains(
                #[trigger] b.trust_requests@[i],
            ),
        forall|i: int|
            0 <= i < a.wizard_buttons@.len() ==> (b.wizard_buttons@.contains(
                #[trigger] a.wizard_buttons@[i],
            ) <==> now < a.wizard_buttons@[i].expires_at && a.wizard_buttons@[i].used_at is None
                && (a.wizard is None || a.wizard->0.wizard_id@ != a.wizard_buttons@[i].wizard_id@
                || now < a.wizard->0.expires_at)),
        forall|i: int|
            0 <= i < b.wizard_buttons@.len() ==> a.wizard_buttons@.contains(
                #[trigger] b.wizard_buttons@[i],
            ),
        b.commands == a.commands,
        b.bindings == a.bindings,
        b.catalog == a.catalog,
{
    lemma_kept_rows(a.trust_requests@, still_asked(now));
    lemma_kept_rows(a.wizard_buttons@, live_button(a.wizard, now));
}

proof fn lemma_kept_rows<T>(rows: Seq<T>, p: spec_fn(T) -> bool)
    ensures
        forall|i: int|
            0 <= i < rows.len() ==> (rows.filter(p).contains(#[trigger] rows[i]) <==> p(rows[i])),
        forall|i: int| 0 <= i < rows.filter(p).len() ==> rows.contains(#[trigger] rows.filter(p)[i]),
{
    let kept = rows.filter(p);
    assert forall|i: int| 0 <= i < rows.len() implies (kept.contains(#[trigger] rows[i]) <==> p(
        rows[i],
    )) by {
        if p(rows[i]) {
            rows.lemma_filter_contains(p, i);
        }
        if kept.contains(rows[i]) {
            let k = choose|k: int| 0 <= k < kept.len() && kept[k] == rows[i];
            rows.lemma_filter_pred(p, k);
        }
    }
    assert forall|i: int| 0 <= i < kept.len() implies rows.contains(#[trigger] kept[i]) by {
        assert(kept.contains(kept[i]));
        rows.lemma_filter_contains_rev(p, kept[i]);
    }
}

/// A dialogue that is kept is read back as it was given, with its context in canonical
/// form.
pub proof fn dialogues_are_read_back(
    row: WizardRow,
    given: AhpCreationWizardRecord,
    read: AhpCreationWizardRecord,
    told: AhpCreationWizardStatus,
)
    requires
        keeps_wizard(row, given),
        shows_wizard(row, read),
        tells_wizard(row, told),
    ensures
        read.wizard_id@ == given.wizard_id@,
        read.mode@ == given.mode@,
        read.state@ == given.state@,
        given.context is None ==> read.context is None,
        given.context matches Some(j) ==> (read.context matches Some(k) && k@ == canonical(j@)),
        read.pending_task == given.pending_task,
        read.create_command_id == given.create_command_id,
        read.new_session_uri == given.new_session_uri,
        read.old_binding_endpoint_id == given.old_binding_endpoint_id,
        read.old_binding_session_uri == given.old_binding_session_uri,
        read.old_binding_host_instance_id == given.old_binding_host_instance_id,
        read.cancel_requested == given.cancel_requested,
        read.expires_at == given.expires_at,
        read.created_at == given.created_at,
        read.updated_at == given.updated_at,
        told.wizard_id@ == given.wizard_id@,
        told.mode@ == given.mode@,
        told.state@ == given.state@,
        told.expires_at == given.expires_at,
        told.cancel_requested == given.cancel_requested,
{
}

/// Just those dialogues can be kept whose kind and step there are and whose command, if
/// they name one, was queued.
pub proof fn dialogues_that_can_be_kept(db: Database, w: AhpCreationWizardRecord)
    ensures
        wizard_fault(db, w) is None <==> {
            &&& w.mode@ == "quick"@ || w.mode@ == "advanced"@
            &&& w.state@ == "select_target"@ || w.state@ == "select_model"@ || w.state@
                == "select_approval"@ || w.state@ == "await_task"@ || w.state@ == "creating"@
                || w.state@ == "cancelled"@
            &&& w.create_command_id matches Some(id) ==> exists|i: int|
                0 <= i < db.commands@.len() && (#[trigger] db.commands@[i]).command_id == id
        },
{
    if w.create_command_id is Some {
        let id = w.create_command_id->0;
        let p = crate::commands::with_command_id(id);
        lemma_first_holds(db.commands@, p);
        if exists|i: int|
            0 <= i < db.commands@.len() && (#[trigger] db.commands@[i]).command_id == id {
            let i = choose|i: int|
                0 <= i < db.commands@.len() && (#[trigger] db.commands@[i]).command_id == id;
            assert(p(db.commands@[i]));
            lemma_none_holds(db.commands@, p, i);
        }
    }
}

/// A button of the dialogue, pressed while it and the dialogue last, gives the action
/// that it was made for, and uses up the buttons of its step.
pub proof fn buttons_give_their_action(
    a: Database,
    b: Database,
    wizard: Seq<char>,
    kind: Seq<char>,
    payloads: Seq<Json>,
    drawn: Seq<Vec<String>>,
    ttl_seconds: u64,
    now: i64,
    buttons: Vec<AhpWizardButtonRecord>,
    k: int,
    c: Database,
    later: i64,
    r: Option<AhpWizardButtonRecord>,
)
    requires
        b.wf(),
        make_buttons_outcome(a, b, wizard, kind, payloads, drawn, ttl_seconds, now, Ok(buttons)),
        0 <= k < payloads.len(),
        later < now + ttl_seconds <= i64::MAX,
        b.wizard is None || b.wizard->0.wizard_id@ != wizard || later < b.wizard->0.expires_at,
        press_outcome(b, c, buttons@[k].button_data@, later, r),
    ensures
        buttons@.len() == payloads.len(),
        buttons@[k].payload@ == payloads[k]@,
        buttons@[k].action_kind@ == kind,
        buttons@[k].wizard_id@ == wizard,
        r is Some,
        r->0.button_data@ == buttons@[k].button_data@,
        r->0.wizard_id@ == wizard,
        r->0.action_kind@ == kind,
        r->0.payload@ == canonical(payloads[k]@),
        forall|i: int|
            #![trigger c.wizard_buttons@[i]]
            0 <= i < c.wizard_buttons@.len() && c.wizard_buttons@[i].wizard_id@ == wizard
                && c.wizard_buttons@[i].action_kind@ == kind ==> c.wizard_buttons@[i].used_at
                is Some,
{
    let tokens = crate::codes::picks(
        crate::wizard::button_texts(crate::wizard::staying_buttons(a, wizard, now)),
        drawn,
        payloads.len(),
    )->0;
    let m = choose|m: Database|
        #[trigger] tidied(a, m, now) && crate::wizard::buttons_made(
            m,
            b,
            wizard,
            kind,
            payloads,
            tokens,
            (now + ttl_seconds) as i64,
            now,
            buttons@,
        );
    let kept = m.wizard_buttons@.filter(crate::wizard::not_of(wizard));
    let at = kept.len() + k;
    let row = b.wizard_buttons@[at];
    assert(buttons@[k].button_data@ == tokens[k]);
    assert(row.button_data@ == buttons@[k].button_data@);
    let p = crate::wizard::live_data(b.wizard, later, buttons@[k].button_data@);
    assert(p(row));
    assert forall|i: int| 0 <= i < at implies !p(#[trigger] b.wizard_buttons@[i]) by {
        assert(b.wizard_buttons@[i].button_data@ != b.wizard_buttons@[at].button_data@);
    }
    lemma_first(b.wizard_buttons@, p, at);
}

/// What gives no action when it is pressed changes nothing: a button that was never made
/// or was used, or one whose time, or that of its dialogue, is up.
pub proof fn other_buttons_give_no_action(
    a: Database,
    b: Database,
    data: Seq<char>,
    now: i64,
    r: Option<AhpWizardButtonRecord>,
)
    requires
        press_outcome(a, b, data, now, r),
        forall|i: int|
            #![trigger a.wizard_buttons@[i]]
            0 <= i < a.wizard_buttons@.len() && a.wizard_buttons@[i].button_data@ == data ==> {
                ||| a.wizard_buttons@[i].used_at is Some
                ||| a.wizard_buttons@[i].expires_at <= now
                ||| a.wizard matches Some(w) && w.wizard_id@ == a.wizard_buttons@[i].wizard_id@
                    && w.expires_at <= now
            },
    ensures
        r is None,
        b == a,
{
    let p = crate::wizard::live_data(a.wizard, now, data);
    assert forall|i: int| 0 <= i < a.wizard_buttons@.len() implies !p(
        #[trigger] a.wizard_buttons@[i],
    ) by {}
    lemma_first_none(a.wizard_buttons@, p);
}

/// At most a hundred buttons are made at a time, and where none are made nothing
/// changes.
pub proof fn few_buttons_are_made(
    a: Database,
    b: Database,
    wizard: Seq<char>,
    kind: Seq<char>,
    payloads: Seq<Json>,
    drawn: Seq<Vec<String>>,
    ttl_seconds: u64,
    now: i64,
    r: Result<Vec<AhpWizardButtonRecord>, Failure>,
)
    requires
        make_buttons_outcome(a, b, wizard, kind, payloads, drawn, ttl_seconds, now, r),
    ensures
        r is Err ==> b == a,
        r is Ok ==> payloads.len() <= 100 && ttl_seconds <= i64::MAX,
        payloads.len() > 100 || ttl_seconds > i64::MAX ==> r is Err,
        r is Ok ==> b.commands == a.commands && b.bindings == a.bindings,
        payloads.len() == 0 && ttl_seconds <= i64::MAX ==> r is Ok,
{
    if r is Ok {
        let tokens = crate::codes::picks(
            crate::wizard::button_texts(crate::wizard::staying_buttons(a, wizard, now)),
            drawn,
            payloads.len(),
        )->0;
        let m = choose|m: Database|
            #[trigger] tidied(a, m, now) && crate::wizard::buttons_made(
                m,
                b,
                wizard,
                kind,
                payloads,
                tokens,
                (now + ttl_seconds) as i64,
                now,
                (r->Ok_0)@,
            );
    }
}

/// The data of a button for an action of a kind of its own begin with an `n`, up to four
/// of the kind's letters and digits, and a low line.
pub proof fn buttons_tell_their_kind(kind: Seq<char>)
    ensures
        kind == "target"@ ==> button_head(kind) == "newt_"@,
        kind == "model"@ ==> button_head(kind) == "newm_"@,
        kind == "approval"@ ==> button_head(kind) == "newa_"@,
        button_head(kind).len() >= 3,
        button_head(kind).len() <= 6,
        button_head(kind)[0] == 'n',
        button_head(kind).last() == '_',
{
    reveal_strlit("target");
    reveal_strlit("model");
    reveal_strlit("approval");
    reveal_strlit("newt");
    reveal_strlit("newm");
    reveal_strlit("newa");
    reveal_strlit("newx");
    reveal_strlit("newt_");
    reveal_strlit("newm_");
    reveal_strlit("newa_");
    reveal_strlit("n");
    reveal_strlit("_");
    assert("target"@.len() == 6);
    assert("model"@.len() == 5);
    assert("approval"@.len() == 8);
    assert("newt"@ + "_"@ =~= "newt_"@);
    assert("newm"@ + "_"@ =~= "newm_"@);
    assert("newa"@ + "_"@ =~= "newa_"@);
}

// ---------------------------------------------------------------------------
// Trust in workspaces

/// A request for trust is asked until its time is up: it is found by its identifier as
/// it was made, and no other request changes.
pub proof fn requests_are_asked(
    a: Seq<TrustRow>,
    b: Seq<TrustRow>,
    id: Seq<char>,
    workspace: Seq<char>,
    open_ui: bool,
    expires_at: i64,
    now: i64,
) -> (i: int)
    requires
        request_put(a, b, id, workspace, open_ui, expires_at, now),
    ensures
        0 <= i < b.len(),
        b[i].request_id@ == id,
        b[i].workspace_uri@ == workspace,
        b[i].open_trust_ui == open_ui,
        !b[i].trusted,
        b[i].expires_at == expires_at,
        b[i].created_at == now,
        a.len() <= b.len() <= a.len() + 1,
        forall|k: int|
            0 <= k < a.len() && (#[trigger] a[k]).request_id@ != id ==> b[k] == a[k],
        forall|k: int| 0 <= k < b.len() && (#[trigger] b[k]).request_id@ == id ==> b[k].workspace_uri@
            == workspace && !b[k].trusted,
{
    let p = crate::wizard::with_request(id);
    lemma_first_holds(a, p);
    if first(a, p) is Some {
        let i = choose|i: int|
            0 <= i < a.len() && #[trigger] a[i] == first(a, p)->0 && p(a[i]);
        assert forall|k: int|
            0 <= k < a.len() && (#[trigger] a[k]).request_id@ != id implies b[k] == a[k] by {
            assert(b[k] == a[k]);
        }
        assert(b[i].request_id@ == id);
        i
    } else {
        assert forall|k: int| 0 <= k < a.len() implies (#[trigger] a[k]).request_id@ != id by {
            if a[k].request_id@ == id {
                assert(p(a[k]));
                lemma_none_holds(a, p, k);
            }
        }
        b.len() - 1
    }
}

/// An answer reaches the requests for the workspaces that it names while they are asked,
/// and no others.
pub proof fn answers_reach_the_workspaces_they_name(
    a: Seq<TrustRow>,
    b: Seq<TrustRow>,
    uris: Seq<String>,
    yes: bool,
    now: i64,
    i: int,
)
    requires
        all_answer_request(a, b, uris, yes, now),
        0 <= i < a.len(),
    ensures
        b.len() == a.len(),
        b[i].request_id == a[i].request_id,
        b[i].workspace_uri == a[i].workspace_uri,
        b[i].expires_at == a[i].expires_at,
        now < a[i].expires_at && (exists|k: int|
            0 <= k < uris.len() && (#[trigger] uris[k])@ == a[i].workspace_uri@) ==> b[i].trusted
            == yes && b[i].updated_at == now,
        a[i].expires_at <= now || (forall|k: int|
            0 <= k < uris.len() ==> (#[trigger] uris[k])@ != a[i].workspace_uri@) ==> b[i] == a[i],
{
    assert(b[i] == crate::wizard::answer_request(a[i], uris, yes, now));
}

/// The requests that are asked are listed, the oldest first, and no others.
pub proof fn requests_are_listed(
    db: Database,
    picks: Seq<usize>,
    now: i64,
    list: Seq<AhpTrustRequestRecord>,
)
    requires
        lists_requests(db, picks, now, list),
    ensures
        forall|i: int|
            #![trigger db.trust_requests@[i]]
            0 <= i < db.trust_requests@.len() && now < db.trust_requests@[i].expires_at ==> exists|
                k: int,
            |
                0 <= k < list.len() && tells_request(db.trust_requests@[i], #[trigger] list[k]),
        forall|k: int|
            #![trigger list[k]]
            0 <= k < list.len() ==> now < list[k].expires_at && tells_some_request(db, list[k]),
        forall|k: int, l: int|
            0 <= k < l < list.len() ==> db.trust_requests@[(#[trigger] picks[k]) as int].created_at
                <= db.trust_requests@[(#[trigger] picks[l]) as int].created_at,
        forall|k: int|
            #![trigger picks[k]]
            0 <= k < list.len() ==> tells_request(db.trust_requests@[picks[k] as int], list[k]),
{
    assert forall|k: int|
        #![trigger list[k]]
        0 <= k < list.len() implies now < list[k].expires_at && tells_some_request(
        db,
        list[k],
    ) by {
        let i = picks[k] as int;
        assert(still_asked(now)(db.trust_requests@[i]));
        assert(tells_request(db.trust_requests@[i], list[k]));
    }
    assert forall|i: int|
        #![trigger db.trust_requests@[i]]
        0 <= i < db.trust_requests@.len() && now
            < db.trust_requests@[i].expires_at implies exists|k: int|
        0 <= k < list.len() && tells_request(db.trust_requests@[i], #[trigger] list[k]) by {
        assert(still_asked(now)(db.trust_requests@[i]));
        let k = choose|k: int| 0 <= k < picks.len() && #[trigger] picks[k] == i;
        assert(tells_request(db.trust_requests@[i], list[k]));
    }
}

/// Whether the record tells what the request asks for.
pub open spec fn tells_request(row: TrustRow, d: AhpTrustRequestRecord) -> bool {
    &&& d.request_id@ == row.request_id@
    &&& d.workspace_uri@ == row.workspace_uri@
    &&& d.open_trust_ui == row.open_trust_ui
    &&& d.trusted == row.trusted
    &&& d.expires_at == row.expires_at
}

/// Whether the record tells of one of the requests.
pub open spec fn tells_some_request(db: Database, d: AhpTrustRequestRecord) -> bool {
    exists|i: int|
        0 <= i < db.trust_requests@.len() && tells_request(#[trigger] db.trust_requests@[i], d)
}

// ---------------------------------------------------------------------------
// Tracked sessions

/// The tracked sessions are listed, each once, but for those that are being let go: the
/// one in the foreground first, then those with the latest activity.
pub proof fn tracked_sessions_are_listed(
    db: Database,
    picks: Seq<usize>,
    records: Seq<AhpBindingRecord>,
)
    requires
        db.wf(),
        db.lists(picks, records),
    ensures
        forall|i: int|
            #![trigger db.bindings@[i]]
            0 <= i < db.bindings@.len() && db.bindings@[i].state != BindingState::Detaching
                ==> exists|k: int|
                0 <= k < records.len() && (#[trigger] records[k]).binding_id@
                    == db.bindings@[i].binding_id@,
        forall|k: int|
            #![trigger records[k]]
            0 <= k < records.len() ==> is_listed_as(db, picks[k] as int, records[k]),
        forall|k: int, l: int|
            0 <= k < l < records.len() ==> {
                let one = #[trigger] records[k];
                let two = #[trigger] records[l];
                &&& one.binding_id@ != two.binding_id@
                &&& !two.foreground
                &&& one.foreground || one.last_activity_at > two.last_activity_at || (
                one.last_activity_at == two.last_activity_at && !less(
                    two.binding_id@,
                    one.binding_id@,
                ))
            },
{
    assert forall|i: int|
        #![trigger db.bindings@[i]]
        0 <= i < db.bindings@.len() && db.bindings@[i].state
            != BindingState::Detaching implies exists|k: int|
        0 <= k < records.len() && (#[trigger] records[k]).binding_id@
            == db.bindings@[i].binding_id@ by {
        assert(crate::store::tracking()(db.bindings@[i]));
        let k = choose|k: int| 0 <= k < picks.len() && #[trigger] picks[k] == i;
        assert(shows(db, db.bindings@[picks[k] as int], records[k]));
    }
    assert forall|k: int|
        #![trigger records[k]]
        0 <= k < records.len() implies is_listed_as(db, picks[k] as int, records[k]) by {
        assert(crate::store::tracking()(db.bindings@[picks[k] as int]));
        assert(shows(db, db.bindings@[picks[k] as int], records[k]));
    }
    assert forall|k: int, l: int| 0 <= k < l < records.len() implies {
        let one = #[trigger] records[k];
        let two = #[trigger] records[l];
        &&& one.binding_id@ != two.binding_id@
        &&& !two.foreground
        &&& one.foreground || one.last_activity_at > two.last_activity_at || (one.last_activity_at
            == two.last_activity_at && !less(two.binding_id@, one.binding_id@))
    } by {
        let i = picks[k] as int;
        let j = picks[l] as int;
        assert(shows(db, db.bindings@[i], records[k]));
        assert(shows(db, db.bindings@[j], records[l]));
        assert(i != j);
        if i < j {
            assert(db.bindings@[i].binding_id@ != db.bindings@[j].binding_id@);
        } else {
            assert(db.bindings@[j].binding_id@ != db.bindings@[i].binding_id@);
        }
        let key = db.shown_by();
        assert(!crate::tables::precedes(key(db.bindings@[j]), key(db.bindings@[i]), false));
    }
}

/// Whether the record is of the tracked session at that place, which is not being let
/// go.
pub open spec fn is_listed_as(db: Database, i: int, d: AhpBindingRecord) -> bool {
    &&& 0 <= i < db.bindings@.len()
    &&& db.bindings@[i].state != BindingState::Detaching
    &&& d.binding_id@ == db.bindings@[i].binding_id@
    &&& d.session_uri@ == db.bindings@[i].session_uri@
    &&& d.last_activity_at == db.bindings@[i].last_activity_at
}

/// A session is bound when the adapter says so of the session as it is tracked, and at
/// no other word.
pub proof fn sessions_are_bound_at_word(
    a: Database,
    b: Database,
    adapter: Seq<char>,
    instance: Seq<char>,
    id: Seq<char>,
    endpoint: Seq<char>,
    host: Seq<char>,
    generation: i64,
    uri: Seq<char>,
    chat: Seq<char>,
    sequence: u64,
    now: i64,
    r: Result<(), Failure>,
    i: int,
)
    requires
        a.wf(),
        ready_outcome(
            a,
            b,
            adapter,
            instance,
            id,
            endpoint,
            host,
            generation,
            uri,
            chat,
            sequence,
            now,
            r,
        ),
        0 <= i < a.bindings@.len(),
    ensures
        b.bindings@.len() == a.bindings@.len(),
        b.commands == a.commands,
        r is Err ==> b == a,
        ({
            let was = a.bindings@[i];
            let then = b.bindings@[i];
            let meant = was.binding_id@ == id && was.generation == generation && was.endpoint_id@
                == endpoint && opt_view(was.host_instance_id) == Some(host) && was.session_uri@
                == uri && (was.state == BindingState::Binding || was.state == BindingState::Bound);
            &&& meant && sequence <= i64::MAX && a.adapter is Some && a.adapter->0.adapter_id@
                == adapter && a.adapter->0.adapter_instance_id@ == instance ==> r is Ok
            &&& meant && r is Ok ==> {
                &&& then.state == BindingState::Bound
                &&& opt_view(then.chat_uri) == Some(chat)
                &&& then.error_code is None
                &&& then.updated_at == now
                &&& then.last_server_sequence >= was.last_server_sequence
                &&& then.last_server_sequence >= sequence
                &&& then.last_server_sequence == was.last_server_sequence
                    || then.last_server_sequence == sequence
                &&& then.binding_id == was.binding_id
                &&& then.session_uri == was.session_uri
                &&& then.active_turn_id == was.active_turn_id
            }
            &&& !meant ==> then == was
        }),
        r is Ok ==> a.adapter is Some && a.adapter->0.adapter_id@ == adapter
            && a.adapter->0.adapter_instance_id@ == instance,
{
    if r is Err {
        assert(!crate::bindings::ready_for(a.bindings@[i], id, generation, endpoint, host, uri)
            || sequence > i64::MAX || !a.is_registered(adapter, instance));
    } else {
        assert(b.bindings@.len() == a.bindings@.len());
        let then = b.bindings@[i];
    }
}

/// A session has failed when the adapter says so of the session as it is tracked, and at
/// no other word.
pub proof fn sessions_fail_at_word(
    a: Database,
    b: Database,
    adapter: Seq<char>,
    instance: Seq<char>,
    id: Seq<char>,
    generation: i64,
    reason: Seq<char>,
    now: i64,
    r: Result<(), Failure>,
    i: int,
)
    requires
        unready_outcome(a, b, adapter, instance, id, generation, reason, now, r),
        0 <= i < a.bindings@.len(),
    ensures
        b.bindings@.len() == a.bindings@.len(),
        b.commands == a.commands,
        r is Err ==> b == a,
        ({
            let was = a.bindings@[i];
            let then = b.bindings@[i];
            let meant = was.binding_id@ == id && was.generation == generation;
            &&& meant && a.adapter is Some && a.adapter->0.adapter_id@ == adapter
                && a.adapter->0.adapter_instance_id@ == instance ==> r is Ok
            &&& meant && r is Ok ==> {
                &&& then.state == BindingState::Failed
                &&& opt_view(then.error_code) == Some(reason)
                &&& then.updated_at == now
                &&& then.binding_id == was.binding_id
                &&& then.session_uri == was.session_uri
                &&& then.chat_uri == was.chat_uri
            }
            &&& !meant ==> then == was
        }),
        r is Ok ==> a.adapter is Some && a.adapter->0.adapter_id@ == adapter
            && a.adapter->0.adapter_instance_id@ == instance,
{
    if r is Err {
        assert(a.bindings@[i].binding_id@ != id || a.bindings@[i].generation != generation
            || !a.is_registered(adapter, instance));
    } else {
        let then = b.bindings@[i];
    }
}

/// A new instance of the adapter finds the commands that the last one had taken waiting
/// again.
pub proof fn taken_commands_wait_for_the_next_adapter(
    a: Seq<CommandRow>,
    b: Seq<CommandRow>,
    now: i64,
    i: int,
)
    requires
        all_reclaim_command(a, b, now),
        0 <= i < a.len(),
    ensures
        b.len() == a.len(),
        a[i].state != CommandState::Leased ==> b[i] == a[i],
        a[i].state == CommandState::Leased ==> b[i].state == CommandState::Pending
            && b[i].lease_owner is None && b[i].lease_expires_at is None && b[i].command_id
            == a[i].command_id && b[i].data == a[i].data && b[i].kind == a[i].kind,
{
    assert(b[i] == crate::commands::reclaim_command(a[i], now));
}

/// The adapter is known as it registered.
pub proof fn adapters_are_known_as_they_registered(
    row: AdapterRow,
    reg: AhpAdapterRegistration,
    now: i64,
)
    requires
        is_adapter(row, reg, now),
    ensures
        row.adapter_id@ == reg.adapter_id@,
        row.adapter_instance_id@ == reg.adapter_instance_id@,
        row.version@ == reg.version@,
        views(row.supported_protocols@) == views(reg.supported_protocols@),
        row.state == AdapterState::Connected,
        row.last_seen_at == now,
{
}

// ---------------------------------------------------------------------------
// The report on all of it

/// What was not heard of for too long is told to be stale, and a host that could be used
/// to be out of reach; all else is told as it is.
pub proof fn silence_is_told(
    db: Database,
    cutoff: int,
    s: AhpStatus,
    a: AhpAdapterStatus,
)
    requires
        crate::status::tells(db, cutoff, s),
        s.adapter == Some(a),
    ensures
        db.adapter is Some,
        a.adapter_id@ == db.adapter->0.adapter_id@,
        a.adapter_instance_id@ == db.adapter->0.adapter_instance_id@,
        a.version@ == db.adapter->0.version@,
        a.last_seen_at == db.adapter->0.last_seen_at,
        a.last_seen_at < cutoff ==> a.state@ == "stale"@,
        a.last_seen_at >= cutoff && db.adapter->0.state == AdapterState::Connected ==> a.state@
            == "connected"@,
{
}

/// Whether that place is one of those that were picked.
pub open spec fn is_picked(picks: Seq<usize>, i: int) -> bool {
    exists|k: int| 0 <= k < picks.len() && #[trigger] picks[k] == i
}

/// The report lists each host, in the order of the endpoints, in the state that it was
/// last in, unless that was a useful one and it was not heard of since.
pub proof fn hosts_are_told(
    db: Database,
    picks: Seq<usize>,
    cutoff: int,
    list: Seq<AhpHostDescriptor>,
)
    requires
        lists_hosts(db, picks, cutoff, list),
    ensures
        list.len() == picks.len(),
        forall|i: int| 0 <= i < db.hosts@.len() ==> #[trigger] is_picked(picks, i),
        forall|k: int|
            #![trigger picks[k]]
            0 <= k < list.len() ==> {
                let row = db.hosts@[picks[k] as int];
                let told = list[k];
                &&& picks[k] < db.hosts@.len()
                &&& told.endpoint_id@ == row.endpoint_id@
                &&& told.host_instance_id@ == row.host_instance_id@
                &&& told.pid == row.pid
                &&& told.host_label == row.host_label
                &&& told.last_seen_at == Some(row.last_seen_at)
                &&& told.editor_client_tools_available == Some(row.editor_client_tools_available)
                &&& row.last_seen_at >= cutoff ==> told.state == row.state
                &&& row.last_seen_at < cutoff ==> told.state != AhpHostState::Connected
                    && told.state != AhpHostState::ReadOnly
                &&& row.state != AhpHostState::Connected && row.state != AhpHostState::ReadOnly
                    ==> told.state == row.state
                &&& told.state == row.state || told.state == AhpHostState::Unreachable
            },
        forall|k: int, l: int|
            0 <= k < l < list.len() ==> !less(
                (#[trigger] list[l]).endpoint_id@,
                (#[trigger] list[k]).endpoint_id@,
            ),
{
    assert forall|i: int| 0 <= i < db.hosts@.len() implies #[trigger] is_picked(picks, i) by {
        assert(crate::status::any_host()(db.hosts@[i]));
        let k = choose|k: int| 0 <= k < picks.len() && #[trigger] picks[k] == i;
        assert(picks[k] == i);
    }
    assert forall|k: int, l: int| 0 <= k < l < list.len() implies !less(
        (#[trigger] list[l]).endpoint_id@,
        (#[trigger] list[k]).endpoint_id@,
    ) by {
        let i = picks[k] as int;
        let j = picks[l] as int;
        let key = crate::status::by_endpoint();
        assert(!crate::tables::precedes(key(db.hosts@[j]), key(db.hosts@[i]), false));
    }
}

proof fn lemma_one_more<T>(rows: Seq<T>, row: T, p: spec_fn(T) -> bool)
    ensures
        count(rows.push(row), p) == count(rows, p) + (if p(row) {
            1int
        } else {
            0int
        }),
{
    lemma_filter_push(rows, row, p);
}

/// The report counts the commands, approvals and inputs that have not come to their end:
/// one more of them is counted as one more, and one that has come to its end is not
/// counted.
pub proof fn what_is_open_is_counted(
    commands: Seq<CommandRow>,
    c: CommandRow,
    decisions: Seq<DecisionRow>,
    d: DecisionRow,
    inputs: Seq<InputRow>,
    n: InputRow,
)
    ensures
        count(commands.push(c), open_command()) == count(commands, open_command()) + (if c.state
            == CommandState::Pending || c.state == CommandState::Leased {
            1int
        } else {
            0int
        }),
        count(decisions.push(d), open_decision()) == count(decisions, open_decision()) + (if d.state
            == DecisionState::Pending || d.state == DecisionState::Submitted {
            1int
        } else {
            0int
        }),
        count(inputs.push(n), open_input()) == count(inputs, open_input()) + (if n.state
            == InputState::Pending || n.state == InputState::Submitted {
            1int
        } else {
            0int
        }),
        count(Seq::<CommandRow>::empty(), open_command()) == 0,
        count(Seq::<DecisionRow>::empty(), open_decision()) == 0,
        count(Seq::<InputRow>::empty(), open_input()) == 0,
{
    lemma_one_more(commands, c, open_command());
    lemma_one_more(decisions, d, open_decision());
    lemma_one_more(inputs, n, open_input());
    reveal(Seq::filter);
}

/// The report tells those counts, and which session is in the foreground.
pub proof fn the_report_tells_what_is_open(db: Database, cutoff: int, s: AhpStatus)
    requires
        crate::status::tells(db, cutoff, s),
    ensures
        s.pending_commands == count(db.commands@, open_command()),
        s.pending_approvals == count(db.decisions@, open_decision()),
        s.pending_inputs == count(db.inputs@, open_input()),
        s.binding is None ==> s.foreground_binding_id is None,
        s.binding matches Some(b) ==> opt_view(s.foreground_binding_id) == Some(b.binding_id@)
            && db.foreground is Some && db.foreground->0.binding_id@ == b.binding_id@,
        db.adapter is None ==> s.adapter is None,
        db.adapter is Some ==> s.adapter is Some,
{
    if s.binding is Some {
        let id = db.foreground->0.binding_id@;
        lemma_first_holds(db.bindings@, crate::bindings::with_binding_id(id));
    }
}

/// A request for trust is answered as it was asked, and is asked until its time is up.
pub proof fn trust_is_asked_for(
    a: Database,
    b: Database,
    request: Seq<char>,
    uri: Seq<char>,
    open_ui: bool,
    ttl: u64,
    now: i64,
    r: Result<AhpTrustRequestRecord, Failure>,
) -> (i: int)
    requires
        crate::wizard::trust_asked(a, b, request, uri, open_ui, ttl, now, r),
    ensures
        r is Err ==> b == a && ttl > i64::MAX,
        r is Ok ==> ttl <= i64::MAX,
        r matches Ok(t) ==> t.request_id@ == request && t.workspace_uri@ == uri && t.open_trust_ui
            == open_ui && !t.trusted && t.expires_at == now + ttl,
        r is Ok && now + ttl <= i64::MAX ==> 0 <= i < b.trust_requests@.len()
            && b.trust_requests@[i].request_id@ == request && b.trust_requests@[i].workspace_uri@
            == uri && !b.trust_requests@[i].trusted && b.trust_requests@[i].expires_at == now + ttl,
{
    if r is Ok {
        let m = choose|m: Database|
            {
                &&& #[trigger] crate::wizard::tidied(a, m, now)
                &&& b == (Database { trust_requests: b.trust_requests, ..m })
                &&& request_put(
                    m.trust_requests@,
                    b.trust_requests@,
                    request,
                    uri,
                    open_ui,
                    (now + ttl) as i64,
                    now,
                )
            };
        requests_are_asked(
            m.trust_requests@,
            b.trust_requests@,
            request,
            uri,
            open_ui,
            (now + ttl) as i64,
            now,
        )
    } else {
        0
    }
}

/// The requests that word on one workspace reaches are counted: none where nobody asks
/// for trust in it.
pub proof fn reached_requests_are_counted(rows: Seq<TrustRow>, uris: Seq<String>, now: i64)
    ensures
        crate::wizard::met(rows, uris, 0, now) == 0,
        uris.len() == 1 && rows.len() <= u32::MAX ==> crate::wizard::met(rows, uris, 1, now)
            == rows.filter(|r: TrustRow| r.workspace_uri@ == uris[0]@ && now < r.expires_at).len(),
        forall|n: int|
            0 < n <= uris.len() ==> #[trigger] crate::wizard::met(rows, uris, n as nat, now)
                >= crate::wizard::met(rows, uris, (n - 1) as nat, now) && crate::wizard::met(
                rows,
                uris,
                n as nat,
                now,
            ) <= u32::MAX,
{
    assert forall|n: int| 0 < n <= uris.len() implies #[trigger] crate::wizard::met(
        rows,
        uris,
        n as nat,
        now,
    ) >= crate::wizard::met(rows, uris, (n - 1) as nat, now) && crate::wizard::met(
        rows,
        uris,
        n as nat,
        now,
    ) <= u32::MAX by {
        lemma_reached_fit(rows, uris, (n - 1) as nat, now);
    }
    if uris.len() == 1 {
        reveal_with_fuel(crate::wizard::met, 2);
        let p = |r: TrustRow| r.workspace_uri@ == uris[0]@ && now < r.expires_at;
        assert(crate::wizard::for_workspace(uris[0]@, now) =~= p);
        rows.lemma_filter_len(p);
    }
}

proof fn lemma_reached_fit(rows: Seq<TrustRow>, uris: Seq<String>, n: nat, now: i64)
    ensures
        crate::wizard::met(rows, uris, n, now) <= u32::MAX,
    decreases n,
{
    if 0 < n <= uris.len() {
        lemma_reached_fit(rows, uris, (n - 1) as nat, now);
    }
}

/// A request that is taken away is gone, and no other.
pub proof fn deleted_requests_are_gone(rows: Seq<TrustRow>, id: Seq<char>, i: int)
    requires
        0 <= i < rows.len(),
    ensures
        rows.filter(crate::wizard::other_request(id)).contains(rows[i]) <==> rows[i].request_id@
            != id,
{
    let p = crate::wizard::other_request(id);
    let kept = rows.filter(p);
    if p(rows[i]) {
        rows.lemma_filter_contains(p, i);
    }
    if kept.contains(rows[i]) {
        let k = choose|k: int| 0 <= k < kept.len() && kept[k] == rows[i];
        rows.lemma_filter_pred(p, k);
    }
}

/// The report can be made just where the time is in range, what is open can be counted,
/// and what is told fits.
pub proof fn reports_can_be_made(db: Database, seconds: u64)
    ensures
        crate::status::status_fault(db, seconds) is None ==> seconds <= i64::MAX && !db.some_unfit(),
        seconds > i64::MAX ==> crate::status::status_fault(db, seconds) is Some,
        seconds <= i64::MAX && db.commands@.len() <= u32::MAX && db.decisions@.len() <= u32::MAX
            && db.inputs@.len() <= u32::MAX && db.projections@.len() <= u32::MAX && !db.some_unfit()
            ==> crate::status::status_fault(db, seconds) is None,
{
    db.commands@.lemma_filter_len(crate::status::open_command());
    db.decisions@.lemma_filter_len(crate::status::open_decision());
    db.inputs@.lemma_filter_len(crate::status::open_input());
    db.projections@.lemma_filter_len(crate::events::replayable(db));
}

/// The dialogue in which a session is made is told where there is one.
pub proof fn dialogues_are_told(row: Option<WizardRow>, r: Option<AhpCreationWizardStatus>)
    requires
        crate::status::tells_creation(row, r),
    ensures
        row is Some <==> r is Some,
        row matches Some(w) ==> r->0.wizard_id == w.wizard_id && r->0.mode == w.mode && r->0.state
            == w.state && r->0.expires_at == w.expires_at && r->0.cancel_requested
            == w.cancel_requested,
{
}

} // verus!
