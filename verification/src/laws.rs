//! What holds across the operations on the tables: what one call keeps of what
//! another has done.
use vstd::prelude::*;
use vstd::string::*;

use crate::agents::{
    all_end_session, all_finish_session, all_halt_session, all_hear_cancel, all_hold_session,
    all_pause_session, all_resume_session, approval_coded, approval_keyed, ask_outcome,
    bind_outcome, code_outcome, decide_outcome, hold_session, lapse_approval, question_outcome,
    register_outcome, reply_outcome, spoken, stop_outcome, with_session_id, ApprovalDecision,
    BeginApproval, BindOutcome, NewApproval, NewQuestion, QuestionRecord, SessionRecord,
};
use crate::bindings::{
    detach_outcome, ensure_fault, ensured, focus_outcome, focused_on, let_go, tracked_from,
    room_fault, track_outcome, unbind_key, with_key, with_session,
};
use crate::catalog::{
    button_session, catalog_replaced, connected, consume_outcome, describes, host_at, hosts_changed,
    hosts_put, is_lost, is_void, lost_id, menu_outcome, menu_spent, session_put, sessions_put,
    shows_session, spent, still_good, switch_data, switch_outcome, taken_off, visible_uri,
    AhpSessionSwitchButton, AhpSessionSwitchSubmission,
};
use crate::codes::picks;
use crate::commands::{
    acknowledged, all_release_command, batch, enqueued, hands_out, is_handed_out, leased,
    poll_outcome, settled_after, waiting,
};
use crate::config::Failure;
use crate::interactions::{decision_key, decision_outcome, expire_decision, AhpApprovalSubmission};
use crate::json::{Json, Tree};
use crate::messages::{
    begin_outcome, delivery_keyed, delivery_numbered, finish_outcome, inbound_outcome,
    is_next_message, take_outcome, with_message, BeginDelivery, NewDelivery,
};
use crate::protocol::{
    AhpAdapterCommand, AhpBindingRecord, AhpCommandKind, AhpCommandOutcome, AhpHostDescriptor,
    AhpSessionDescriptor, ApprovalState, StopDecision, StopResult,
};
use crate::store::{
    is_open_command, is_tracked, tracking, BindingRow, BindingState, CatalogRow, CommandRow,
    CommandState, Database, DecisionRow, DecisionState, HostRow, InputState, SessionRow,
    SwitchButtonRow, WizardButtonRow, MAX_TRACKED_AHP_SESSIONS,
};
use crate::tables::{
    first, lemma_count_drops, lemma_count_shrinks, lemma_filter_push, lemma_first,
    lemma_first_holds,
};
use crate::text::is_listed;
use crate::upkeep::{all_lose_session, needed_session, purge_outcome, recovered};
use crate::wizard::{
    all_spend_buttons, button_texts, buttons_made, live_button, live_data, make_buttons_outcome,
    not_of, press_outcome, staying_buttons, tidied, AhpWizardButtonRecord,
};

verus! {

broadcast use vstd::string::group_string_axioms;

// ---------------------------------------------------------------------------
// Tracked sessions

proof fn lemma_let_go_detaches(
    a: Database,
    b: Database,
    i: int,
    reason: Seq<char>,
    now: i64,
)
    requires
        a.wf(),
        0 <= i < a.bindings@.len(),
        let_go(a, b, a.bindings@[i], reason, now),
    ensures
        b.bindings@.len() == a.bindings@.len(),
        b.bindings@[i].state == BindingState::Detaching,
        forall|j: int| 0 <= j < a.bindings@.len() && j != i ==> #[trigger] b.bindings@[j]
            == a.bindings@[j],
        b.switch_buttons == a.switch_buttons,
{
    assert forall|j: int| 0 <= j < a.bindings@.len() && j != i implies #[trigger] b.bindings@[j]
        == a.bindings@[j] by {
        assert(a.bindings@[j].binding_id@ != a.bindings@[i].binding_id@);
    }
}

/// What tracking a session does to the tracked sessions.
proof fn lemma_ensured(
    a: Database,
    m: Database,
    endpoint: Seq<char>,
    uri: Seq<char>,
    max: nat,
    touch: bool,
    id: Seq<char>,
    now: i64,
)
    requires
        a.wf(),
        ensure_fault(a, endpoint, uri, max, id) is None,
        ensured(a, m, endpoint, uri, max, touch, id, now),
    ensures
        m.tracked_count() <= a.tracked_count() || m.tracked_count() <= max,
        m.bindings@.len() >= a.bindings@.len(),
        forall|j: int|
            #![trigger m.bindings@[j]]
            0 <= j < a.bindings@.len() ==> m.bindings@[j] == a.bindings@[j]
                || a.bindings@[j].session_uri@ == uri || (a.is_evictable(a.bindings@[j])
                && m.bindings@[j].state == BindingState::Detaching && a.tracked_count() >= max),
        m.switch_buttons == a.switch_buttons,
{
    let found = a.binding_of(uri);
    lemma_first_holds(a.bindings@, with_session(uri));
    if found is Some {
        let row = found->0;
        let k = choose|k: int|
            0 <= k < a.bindings@.len() && #[trigger] a.bindings@[k] == row && with_session(uri)(
                a.bindings@[k],
            );
        assert(m.bindings@.len() == a.bindings@.len());
        assert forall|j: int| 0 <= j < a.bindings@.len() && j != k implies #[trigger] m.bindings@[j]
            == a.bindings@[j] by {
            assert(a.bindings@[j].binding_id@ != a.bindings@[k].binding_id@);
        }
        assert forall|j: int|
            0 <= j < a.bindings@.len() && tracking()(#[trigger] m.bindings@[j]) implies tracking()(
            a.bindings@[j],
        ) by {
            if j == k {
                assert(is_tracked(row));
            }
        }
        lemma_count_shrinks(a.bindings@, m.bindings@, tracking());
    } else {
        let x = choose|x: Database| #[trigger]
            crate::bindings::room_made(a, x, max, now) && crate::bindings::newly_bound(
                x,
                m,
                id,
                endpoint,
                crate::bindings::available_on(a, endpoint, uri)->0.host_instance_id@,
                uri,
                now,
            );
        assert(m.bindings@ == x.bindings@.push(m.bindings@.last()));
        lemma_filter_push(x.bindings@, m.bindings@.last(), tracking());
        if a.tracked_count() >= max {
            let i = choose|i: int| #[trigger]
                crate::bindings::is_next_victim(a, i) && let_go(
                    a,
                    x,
                    a.bindings@[i],
                    "lru_eviction"@,
                    now,
                );
            lemma_let_go_detaches(a, x, i, "lru_eviction"@, now);
            assert(x.bindings@ =~= a.bindings@.update(i, x.bindings@[i]));
            lemma_count_drops(a.bindings@, i, x.bindings@[i], tracking());
        }
    }
}

/// Bringing a session to the foreground never makes more than five sessions
/// tracked, unless more were tracked before.
pub proof fn focusing_keeps_the_bound(
    a: Database,
    b: Database,
    endpoint: Seq<char>,
    uri: Seq<char>,
    id: Seq<char>,
    now: i64,
    r: Result<AhpBindingRecord, Failure>,
)
    requires
        a.wf(),
        focus_outcome(a, b, endpoint, uri, id, now, r),
    ensures
        b.tracked_count() <= a.tracked_count() || b.tracked_count() <= MAX_TRACKED_AHP_SESSIONS,
{
    if r is Ok {
        let max = MAX_TRACKED_AHP_SESSIONS as nat;
        let m = choose|m: Database|
            {
                &&& #[trigger] ensured(a, m, endpoint, uri, max, true, id, now)
                &&& b == (Database { foreground: b.foreground, ..m })
                &&& focused_on(b, uri, now)
            };
        lemma_ensured(a, m, endpoint, uri, max, true, id, now);
    }
}

/// Tracking a session never makes more than five sessions tracked, unless more were
/// tracked before.
pub proof fn tracking_keeps_the_bound(
    a: Database,
    b: Database,
    endpoint: Seq<char>,
    uri: Seq<char>,
    id: Seq<char>,
    now: i64,
    r: Result<AhpBindingRecord, Failure>,
)
    requires
        a.wf(),
        track_outcome(a, b, endpoint, uri, id, now, r),
    ensures
        b.tracked_count() <= a.tracked_count() || b.tracked_count() <= MAX_TRACKED_AHP_SESSIONS,
{
    if r is Ok {
        let max = MAX_TRACKED_AHP_SESSIONS as nat;
        let m = choose|m: Database|
            {
                &&& #[trigger] ensured(a, m, endpoint, uri, max, false, id, now)
                &&& tracked_from(a, m, b, uri, now)
                &&& crate::bindings::shows(m, m.binding_of(uri)->0, r->Ok_0)
            };
        lemma_ensured(a, m, endpoint, uri, max, false, id, now);
    }
}

/// Bringing a session to the foreground leaves every other tracked session as it is,
/// its running turn with it; only where five are tracked may one of them be let go,
/// and then one that is idle in the background.
pub proof fn focusing_spares_other_sessions(
    a: Database,
    b: Database,
    endpoint: Seq<char>,
    uri: Seq<char>,
    id: Seq<char>,
    now: i64,
    r: Result<AhpBindingRecord, Failure>,
    j: int,
)
    requires
        a.wf(),
        focus_outcome(a, b, endpoint, uri, id, now, r),
        0 <= j < a.bindings@.len(),
        a.bindings@[j].session_uri@ != uri,
    ensures
        j < b.bindings@.len(),
        b.bindings@[j] == a.bindings@[j] || (a.is_evictable(a.bindings@[j]) && b.bindings@[j].state
            == BindingState::Detaching && a.tracked_count() >= MAX_TRACKED_AHP_SESSIONS),
{
    if r is Ok {
        let max = MAX_TRACKED_AHP_SESSIONS as nat;
        let m = choose|m: Database|
            {
                &&& #[trigger] ensured(a, m, endpoint, uri, max, true, id, now)
                &&& b == (Database { foreground: b.foreground, ..m })
                &&& focused_on(b, uri, now)
            };
        lemma_ensured(a, m, endpoint, uri, max, true, id, now);
        assert(m.bindings@[j] == b.bindings@[j]);
    }
}

/// Where five sessions are tracked and none of them may be let go, a sixth is
/// refused, and nothing changes.
pub proof fn protected_sessions_are_kept(
    a: Database,
    b: Database,
    endpoint: Seq<char>,
    uri: Seq<char>,
    id: Seq<char>,
    now: i64,
    r: Result<AhpBindingRecord, Failure>,
)
    requires
        a.tracked_count() >= MAX_TRACKED_AHP_SESSIONS,
        forall|i: int|
            0 <= i < a.bindings@.len() ==> !a.is_evictable(#[trigger] a.bindings@[i]),
        a.binding_of(uri) is None,
        focus_outcome(a, b, endpoint, uri, id, now, r),
    ensures
        r is Err,
        b == a,
{
    assert(room_fault(a, MAX_TRACKED_AHP_SESSIONS as nat) is Some);
}

/// Where the command that lets a session go has failed, letting it go again makes
/// the same command wait again.
pub proof fn failed_detachment_is_tried_again(
    a: Database,
    b: Database,
    row: BindingRow,
    reason: Seq<char>,
    now: i64,
    failed: CommandRow,
)
    requires
        a.wf(),
        row.state != BindingState::Detaching,
        detach_outcome(a, b, Some(row), reason, now, Ok(true)),
        a.command_with(unbind_key(row.binding_id@, row.generation)) == Some(failed),
        failed.state == CommandState::Failed,
    ensures
        exists|i: int|
            0 <= i < b.commands@.len() && (#[trigger] b.commands@[i]).command_key
                == failed.command_key && b.commands@[i].command_id == failed.command_id
                && b.commands@[i].state == CommandState::Pending,
{
    let key = unbind_key(row.binding_id@, row.generation);
    lemma_first_holds(a.commands@, with_key(key));
    let i = choose|i: int|
        0 <= i < a.commands@.len() && #[trigger] a.commands@[i] == failed && with_key(key)(
            a.commands@[i],
        );
    let m = choose|m: Database|
        let_go(a, m, row, reason, now) && #[trigger] crate::bindings::replaced(m, b, now);
    assert(b.commands == m.commands);
    assert(m.commands@[i].state == CommandState::Pending);
}

// ---------------------------------------------------------------------------
// The catalogue

proof fn lemma_sessions_put_keeps(
    a: Seq<CatalogRow>,
    b: Seq<CatalogRow>,
    sessions: Seq<AhpSessionDescriptor>,
    now: i64,
)
    requires
        sessions_put(a, b, sessions, now),
    ensures
        a.len() <= b.len(),
        forall|i: int|
            0 <= i < a.len() ==> (#[trigger] b[i]).session_uri@ == a[i].session_uri@
                && b[i].short_code@ == a[i].short_code@,
    decreases sessions.len(),
{
    if sessions.len() > 0 {
        let m = choose|m: Seq<CatalogRow>|
            sessions_put(a, m, sessions.drop_last(), now) && #[trigger] session_put(
                m,
                b,
                sessions.last(),
                now,
            );
        lemma_sessions_put_keeps(a, m, sessions.drop_last(), now);
        assert forall|i: int| 0 <= i < a.len() implies (#[trigger] b[i]).session_uri@
            == a[i].session_uri@ && b[i].short_code@ == a[i].short_code@ by {
            assert(m[i].session_uri@ == a[i].session_uri@);
        }
    }
}

/// A session keeps its code for as long as the catalogue knows it, whatever the
/// adapter describes, be it nothing at all.
pub proof fn session_codes_are_stable(
    a: Database,
    b: Database,
    hosts: Seq<AhpHostDescriptor>,
    sessions: Seq<AhpSessionDescriptor>,
    full: bool,
    now: i64,
    i: int,
)
    requires
        catalog_replaced(a, b, hosts, sessions, full, now),
        0 <= i < a.catalog@.len(),
    ensures
        i < b.catalog@.len(),
        b.catalog@[i].session_uri@ == a.catalog@[i].session_uri@,
        b.catalog@[i].short_code@ == a.catalog@[i].short_code@,
{
    let (m, off, cut) = choose|m: Database, off: Seq<CatalogRow>, cut: Seq<HostRow>|
        {
            &&& m == (Database { hosts: m.hosts, catalog: m.catalog, ..a })
            &&& off.len() == a.catalog@.len()
            &&& forall|i: int|
                0 <= i < off.len() ==> #[trigger] off[i] == taken_off(a.catalog@[i], hosts, full)
            &&& cut.len() == a.hosts@.len()
            &&& #[trigger] hosts_put(cut, m.hosts@, hosts, now)
            &&& #[trigger] sessions_put(off, m.catalog@, sessions, now)
            &&& exists|x: Database|
                #[trigger] hosts_changed(m, x, hosts, full, now) && b == (Database {
                    adapter: connected(a.adapter, now),
                    ..x
                })
        };
    lemma_sessions_put_keeps(off, m.catalog@, sessions, now);
    assert(off[i] == taken_off(a.catalog@[i], hosts, full));
    assert(b.catalog == m.catalog);
    assert(m.catalog@[i].short_code@ == off[i].short_code@);
}

/// A description of some hosts leaves the sessions that are tracked on other hosts
/// alone, and the commands for them.
pub proof fn other_hosts_are_left_alone(
    a: Database,
    b: Database,
    hosts: Seq<AhpHostDescriptor>,
    sessions: Seq<AhpSessionDescriptor>,
    now: i64,
    i: int,
)
    requires
        a.wf(),
        catalog_replaced(a, b, hosts, sessions, false, now),
        0 <= i < a.bindings@.len(),
        !describes(hosts, a.bindings@[i].endpoint_id@),
    ensures
        b.bindings@.len() == a.bindings@.len(),
        b.bindings@[i] == a.bindings@[i],
        b.commands@.len() == a.commands@.len(),
        forall|k: int|
            0 <= k < a.commands@.len() && a.commands@[k].binding_id@ == a.bindings@[i].binding_id@
                ==> #[trigger] b.commands@[k] == a.commands@[k],
{
    let row = a.bindings@[i];
    lemma_first_holds(hosts, host_at(row.endpoint_id@));
    assert(!is_lost(row, hosts, false)) by {
        if first(hosts, host_at(row.endpoint_id@)) is Some {
            let h = first(hosts, host_at(row.endpoint_id@))->0;
            let k = choose|k: int|
                0 <= k < hosts.len() && #[trigger] hosts[k] == h && host_at(row.endpoint_id@)(
                    hosts[k],
                );
            assert(describes(hosts, row.endpoint_id@));
        }
    }
    assert(!lost_id(a.bindings@, row.binding_id@, hosts, false)) by {
        assert forall|j: int| 0 <= j < a.bindings@.len() && is_lost(
            #[trigger] a.bindings@[j],
            hosts,
            false,
        ) implies a.bindings@[j].binding_id@ != row.binding_id@ by {
            assert(j != i);
        }
    }
}

/// Where the host of a tracked session is gone, the session is lost, and every
/// command for it that was not disposed of has failed.
pub proof fn lost_hosts_fail_what_is_under_way(
    a: Database,
    b: Database,
    hosts: Seq<AhpHostDescriptor>,
    sessions: Seq<AhpSessionDescriptor>,
    full: bool,
    now: i64,
    i: int,
)
    requires
        catalog_replaced(a, b, hosts, sessions, full, now),
        0 <= i < a.bindings@.len(),
        is_lost(a.bindings@[i], hosts, full),
    ensures
        b.bindings@.len() == a.bindings@.len(),
        b.bindings@[i].state == BindingState::Lost,
        b.bindings@[i].active_turn_id is None,
        b.commands@.len() == a.commands@.len(),
        forall|k: int|
            0 <= k < a.commands@.len() && is_open_command(a.commands@[k])
                && a.commands@[k].binding_id@ == a.bindings@[i].binding_id@ ==> (
            #[trigger] b.commands@[k]).state == CommandState::Failed,
{
    assert(lost_id(a.bindings@, a.bindings@[i].binding_id@, hosts, full));
}

// ---------------------------------------------------------------------------
// Commands

/// A command is queued once: queueing it again changes nothing, and gives the number
/// that it has.
pub proof fn commands_are_queued_once(
    a: Database,
    b: Database,
    c: Database,
    key: Seq<char>,
    binding: Seq<char>,
    generation: i64,
    kind: AhpCommandKind,
    data: Tree,
    now: i64,
    id: i64,
    again: i64,
    later: i64,
)
    requires
        a.wf(),
        b.wf(),
        enqueued(a, b, key, binding, generation, kind, data, now, id),
        enqueued(b, c, key, binding, generation, kind, data, again, later),
    ensures
        c == b,
        later == id,
{
    if a.command_with(key) is None {
        let i = b.commands@.len() - 1;
        lemma_first_holds(a.commands@, with_key(key));
        assert forall|j: int| 0 <= j < i implies !with_key(key)(#[trigger] b.commands@[j]) by {
            assert(b.commands@[j] == a.commands@[j]);
        }
        lemma_first(b.commands@, with_key(key), i);
    }
}

proof fn lemma_waiting_places(rows: Seq<CommandRow>, n: nat, k: int) -> (i: int)
    requires
        n <= rows.len(),
        0 <= k < rows.take(n as int).filter(waiting()).len(),
    ensures
        0 <= i < n,
        rows[i] == rows.take(n as int).filter(waiting())[k],
        rows[i].state == CommandState::Pending,
        rows.take(i).filter(waiting()).len() == k,
    decreases n,
{
    if n == 0 {
        reveal(Seq::filter);
        assert(rows.take(0).len() == 0);
        0
    } else {
        let front = rows.take(n - 1);
        assert(rows.take(n as int) =~= front.push(rows[n - 1]));
        lemma_filter_push(front, rows[n - 1], waiting());
        if k < front.filter(waiting()).len() {
            lemma_waiting_places(rows, (n - 1) as nat, k)
        } else {
            n - 1
        }
    }
}

/// While a lease lasts, the commands that it was given for are not handed out again.
pub proof fn leased_commands_are_not_handed_out(
    a: Database,
    b: Database,
    c: Database,
    adapter: Seq<char>,
    instance: Seq<char>,
    lease_seconds: u64,
    now: i64,
    one: Vec<AhpAdapterCommand>,
    other_adapter: Seq<char>,
    other_instance: Seq<char>,
    other_seconds: u64,
    later: i64,
    two: Vec<AhpAdapterCommand>,
    k: int,
    l: int,
)
    requires
        a.wf(),
        b.wf(),
        now + lease_seconds <= i64::MAX,
        later < now + lease_seconds,
        poll_outcome(a, b, adapter, instance, lease_seconds, now, Ok(one)),
        poll_outcome(b, c, other_adapter, other_instance, other_seconds, later, Ok(two)),
        0 <= k < one@.len(),
        0 <= l < two@.len(),
    ensures
        one@[k].command_id != two@[l].command_id,
{
    let until = (now + lease_seconds) as i64;
    let m = choose|m: Seq<CommandRow>|
        {
            &&& #[trigger] all_release_command(a.commands@, m, now)
            &&& leased(m, b.commands@, instance, until, now)
            &&& one@.len() == batch(m).len()
            &&& forall|k: int|
                0 <= k < one@.len() ==> hands_out(batch(m)[k], #[trigger] one@[k])
        };
    let other_until = (later + other_seconds) as i64;
    let n = choose|n: Seq<CommandRow>|
        {
            &&& #[trigger] all_release_command(b.commands@, n, later)
            &&& leased(n, c.commands@, other_instance, other_until, later)
            &&& two@.len() == batch(n).len()
            &&& forall|k: int|
                0 <= k < two@.len() ==> hands_out(batch(n)[k], #[trigger] two@[k])
        };
    assert(m.take(m.len() as int) =~= m);
    assert(n.take(n.len() as int) =~= n);
    let i = lemma_waiting_places(m, m.len(), k);
    let j = lemma_waiting_places(n, n.len(), l);
    assert(hands_out(batch(m)[k], one@[k]));
    assert(hands_out(batch(n)[l], two@[l]));
    assert(is_handed_out(m, i));
    assert(b.commands@[i].state == CommandState::Leased);
    assert(n[i] == b.commands@[i]);
    assert(i != j);
    assert(b.commands@[i].command_id == m[i].command_id);
    assert(n[j].command_id == b.commands@[j].command_id);
    if i < j {
        assert(b.commands@[i].command_id < b.commands@[j].command_id);
    } else {
        assert(b.commands@[j].command_id < b.commands@[i].command_id);
    }
}

/// A command whose lease has run out is handed out again, as soon as its turn comes.
pub proof fn leases_that_ran_out_are_given_again(
    a: Database,
    b: Database,
    adapter: Seq<char>,
    instance: Seq<char>,
    lease_seconds: u64,
    now: i64,
    commands: Vec<AhpAdapterCommand>,
    i: int,
)
    requires
        poll_outcome(a, b, adapter, instance, lease_seconds, now, Ok(commands)),
        0 <= i < a.commands@.len(),
        a.commands@[i].state == CommandState::Leased,
        a.commands@[i].lease_expires_at matches Some(t) && t <= now,
    ensures
        b.commands@.len() == a.commands@.len(),
        b.commands@[i].state == CommandState::Pending || (b.commands@[i].state
            == CommandState::Leased && crate::text::opt_view(b.commands@[i].lease_owner) == Some(
            instance,
        )),
{
}

// ---------------------------------------------------------------------------
// The end of an agent's work

/// How one operation changes the agent sessions, other than by starting the session
/// `id`.
pub open spec fn session_step(a: Database, b: Database, id: Seq<char>) -> bool {
    let p = a.sessions@;
    let q = b.sessions@;
    ||| q == p
    ||| exists|s: Seq<char>, now: i64| #[trigger] all_finish_session(p, q, s, now)
    ||| exists|s: Seq<char>, now: i64| #[trigger] all_pause_session(p, q, s, now)
    ||| exists|s: Seq<char>, now: i64| #[trigger] all_resume_session(p, q, s, now)
    ||| exists|s: Seq<char>, now: i64| #[trigger] all_end_session(p, q, s, now)
    ||| exists|s: Seq<char>, now: i64| #[trigger] all_hold_session(p, q, s, now)
    ||| exists|s: Seq<char>, now: i64| #[trigger] all_halt_session(p, q, s, now)
    ||| exists|s: Seq<char>| #[trigger] all_hear_cancel(p, q, s)
    ||| exists|now: i64| #[trigger] all_lose_session(p, q, now)
    ||| exists|keep: spec_fn(SessionRow) -> bool| q == #[trigger] p.filter(keep)
    ||| exists|
        s: Seq<char>,
        workspace: Seq<char>,
        drawn: Seq<String>,
        now: i64,
        r: Result<SessionRecord, Failure>,
    |
        s != id && #[trigger] register_outcome(a, b, s, workspace, drawn, now, r)
}

/// A wish to stop is such a step.
pub proof fn stops_are_session_steps(
    a: Database,
    b: Database,
    id: Seq<char>,
    session: Seq<char>,
    hook_active: bool,
    now: i64,
    r: Result<StopResult, Failure>,
)
    requires
        stop_outcome(a, b, session, hook_active, now, r),
    ensures
        session_step(a, b, id),
{
}

/// A question is such a step.
pub proof fn questions_are_session_steps(
    a: Database,
    b: Database,
    id: Seq<char>,
    question: NewQuestion,
    drawn: Seq<String>,
    now: i64,
    r: Result<QuestionRecord, Failure>,
)
    requires
        question_outcome(a, b, question, drawn, now, r),
    ensures
        session_step(a, b, id),
{
}

/// An answer is such a step.
pub proof fn answers_are_session_steps(
    a: Database,
    b: Database,
    id: Seq<char>,
    question_id: u128,
    answer: Seq<char>,
    message: Seq<char>,
    now: i64,
    r: bool,
)
    requires
        reply_outcome(a, b, question_id, answer, message, now, r),
    ensures
        session_step(a, b, id),
{
}

/// A restart is such a step.
pub proof fn restarts_are_session_steps(a: Database, b: Database, id: Seq<char>, now: i64)
    requires
        recovered(a, b, now),
    ensures
        session_step(a, b, id),
{
}

/// A purge is such a step.
pub proof fn purges_are_session_steps(
    a: Database,
    b: Database,
    id: Seq<char>,
    cutoff: int,
    now: i64,
    r: Result<(), Failure>,
)
    requires
        purge_outcome(a, b, cutoff, now, r),
    ensures
        session_step(a, b, id),
{
    if a.sessions@ != b.sessions@ {
        assert(b.sessions@ == a.sessions@.filter(needed_session(cutoff)));
    }
}

/// Whether the session has been held back from stopping.
pub open spec fn is_held(rows: Seq<SessionRow>, id: Seq<char>) -> bool {
    forall|i: int|
        0 <= i < rows.len() && (#[trigger] rows[i]).session_id@ == id ==> rows[i].stop_blocked_once
}

proof fn lemma_held_stays(a: Database, b: Database, id: Seq<char>)
    requires
        is_held(a.sessions@, id),
        session_step(a, b, id),
    ensures
        is_held(b.sessions@, id),
{
    let p = a.sessions@;
    let q = b.sessions@;
    assert forall|i: int| 0 <= i < q.len() && (#[trigger] q[i]).session_id@ == id implies
        q[i].stop_blocked_once by {
        if exists|keep: spec_fn(SessionRow) -> bool| q == #[trigger] p.filter(keep) {
            let keep = choose|keep: spec_fn(SessionRow) -> bool| q == #[trigger] p.filter(keep);
            assert(q.contains(q[i]));
            p.lemma_filter_contains_rev(keep, q[i]);
            let x = choose|x: int| 0 <= x < p.len() && p[x] == q[i];
            assert(p[x].stop_blocked_once);
        } else if exists|
            s: Seq<char>,
            workspace: Seq<char>,
            drawn: Seq<String>,
            now: i64,
            r: Result<SessionRecord, Failure>,
        |
            s != id && #[trigger] register_outcome(a, b, s, workspace, drawn, now, r) {
            let (s, workspace, drawn, now, r) = choose|
                s: Seq<char>,
                workspace: Seq<char>,
                drawn: Seq<String>,
                now: i64,
                r: Result<SessionRecord, Failure>,
            |
                s != id && #[trigger] register_outcome(a, b, s, workspace, drawn, now, r);
            lemma_first_holds(p, with_session_id(s));
            if i < p.len() {
                assert(p[i].session_id@ == q[i].session_id@);
                assert(p[i].stop_blocked_once);
                assert(q[i] == p[i]);
            }
        } else {
            assert(p[i].session_id@ == q[i].session_id@);
            assert(p[i].stop_blocked_once);
        }
    }
}

proof fn lemma_held_throughout(states: Seq<Database>, id: Seq<char>)
    requires
        states.len() > 0,
        is_held(states[0].sessions@, id),
        forall|i: int, j: int|
            0 <= i && j == i + 1 && j < states.len() ==> #[trigger] session_step(
                states[i],
                states[j],
                id,
            ),
    ensures
        is_held(states.last().sessions@, id),
    decreases states.len(),
{
    if states.len() > 1 {
        let n = states.len() - 1;
        let start = states.drop_last();
        assert forall|i: int, j: int| 0 <= i && j == i + 1 && j < start.len() implies
            #[trigger] session_step(start[i], start[j], id) by {
            assert(session_step(states[i], states[j], id));
        }
        lemma_held_throughout(start, id);
        assert(session_step(states[n - 1], states[n], id));
        lemma_held_stays(states[n - 1], states[n], id);
    }
}

/// A session that was held back from stopping is not held back again until it is
/// started again. The states lead from the one after it was held back to the one in
/// which it wants to stop once more.
pub proof fn stop_is_blocked_once(
    a: Database,
    id: Seq<char>,
    now: i64,
    one: StopResult,
    states: Seq<Database>,
    c: Database,
    hook_active: bool,
    later: i64,
    r: Result<StopResult, Failure>,
)
    requires
        states.len() > 0,
        stop_outcome(a, states[0], id, false, now, Ok(one)),
        one.decision == StopDecision::Block,
        forall|i: int, j: int|
            0 <= i && j == i + 1 && j < states.len() ==> #[trigger] session_step(
                states[i],
                states[j],
                id,
            ),
        stop_outcome(states.last(), c, id, hook_active, later, r),
    ensures
        match r {
            Ok(s) => s.decision == StopDecision::Allow,
            Err(_) => first(states.last().sessions@, with_session_id(id)) is None,
        },
{
    let b = states[0];
    assert forall|i: int|
        0 <= i < b.sessions@.len() && (#[trigger] b.sessions@[i]).session_id@ == id implies
        b.sessions@[i].stop_blocked_once by {
        assert(b.sessions@[i] == hold_session(a.sessions@[i], id, now));
    }
    lemma_held_throughout(states, id);
    let last = states.last();
    lemma_first_holds(last.sessions@, with_session_id(id));
    if first(last.sessions@, with_session_id(id)) is Some {
        let row = first(last.sessions@, with_session_id(id))->0;
        let k = choose|k: int| 0 <= k < last.sessions@.len() && #[trigger] last.sessions@[k] == row;
        assert(last.sessions@[k].stop_blocked_once);
    }
}

/// A session that was just started is held back from stopping, and told why.
pub proof fn first_stop_is_blocked(
    a: Database,
    b: Database,
    c: Database,
    id: Seq<char>,
    workspace: Seq<char>,
    drawn: Seq<String>,
    now: i64,
    started: SessionRecord,
    later: i64,
    r: Result<StopResult, Failure>,
)
    requires
        register_outcome(a, b, id, workspace, drawn, now, Ok(started)),
        stop_outcome(b, c, id, false, later, r),
    ensures
        r matches Ok(s) && s.decision == StopDecision::Block && s.reason is Some,
{
    let test = with_session_id(id);
    lemma_first_holds(a.sessions@, test);
    lemma_first_holds(b.sessions@, test);
    if first(a.sessions@, test) is Some {
        let k = choose|k: int|
            0 <= k < a.sessions@.len() && #[trigger] a.sessions@[k] == first(a.sessions@, test)->0;
        assert(test(b.sessions@[k]));
    } else {
        assert(test(b.sessions@[b.sessions@.len() - 1]));
    }
    let row = first(b.sessions@, test)->0;
    let k = choose|k: int| 0 <= k < b.sessions@.len() && #[trigger] b.sessions@[k] == row;
    if first(a.sessions@, test) is Some {
        assert(a.sessions@[k].session_id@ == id);
    } else if k < a.sessions@.len() {
        assert(b.sessions@[k] == a.sessions@[k]);
    }
}

// ---------------------------------------------------------------------------
// Approvals of an agent host

/// Only the first decision on an approval counts: another one is told that it came
/// too late, and queues no command.
pub proof fn first_decision_counts(
    a: Database,
    b: Database,
    c: Database,
    j: int,
    approved: bool,
    surface: Seq<char>,
    message: Seq<char>,
    now: i64,
    one: AhpApprovalSubmission,
    i: int,
    other_approved: bool,
    other_surface: Seq<char>,
    other_message: Seq<char>,
    later: i64,
    two: Result<Option<AhpApprovalSubmission>, Failure>,
)
    requires
        a.wf(),
        b.wf(),
        0 <= j < a.decisions@.len(),
        decision_outcome(
            a,
            b,
            Some(a.decisions@[j]),
            approved,
            surface,
            message,
            now,
            Ok(Some(one)),
        ),
        one.accepted,
        0 <= i < b.decisions@.len(),
        b.decisions@[i].approval_key@ == a.decisions@[j].approval_key@,
        decision_outcome(
            b,
            c,
            Some(b.decisions@[i]),
            other_approved,
            other_surface,
            other_message,
            later,
            two,
        ),
    ensures
        two matches Ok(Some(s)) && !s.accepted,
        c.commands == b.commands,
{
    let row = a.decisions@[j];
    let (m, x, command) = choose|m: Database, x: Database, command: i64|
        {
            &&& #[trigger] crate::commands::expired(a, m, now)
            &&& #[trigger] crate::commands::routed(
                m,
                x,
                decision_key(row, approved),
                a.binding_of(row.session_uri@)->0,
                crate::interactions::decision_kind(row),
                crate::interactions::decision_data(row, approved),
                now,
                command,
            )
            &&& b == (Database { decisions: b.decisions, ..x })
            &&& crate::tables::changed(
                m.decisions@,
                b.decisions@,
                |p: DecisionRow, q: DecisionRow|
                    crate::interactions::is_submitted_decision(
                        p,
                        q,
                        row.approval_key@,
                        command,
                        surface,
                        message,
                        now,
                    ),
            )
        };
    assert(m.decisions@[j] == expire_decision(row, now));
    assert(b.decisions@[j].approval_key@ == row.approval_key@);
    assert(b.decisions@[j].state == DecisionState::Submitted);
    if i != j {
        assert(b.decisions@[i].approval_key@ != b.decisions@[j].approval_key@);
    }
}

/// A decision is passed on to the session that asked for the approval, whichever
/// session is in the foreground.
pub proof fn decisions_reach_their_session(
    a: Database,
    b: Database,
    row: DecisionRow,
    approved: bool,
    surface: Seq<char>,
    message: Seq<char>,
    now: i64,
    one: AhpApprovalSubmission,
)
    requires
        decision_outcome(a, b, Some(row), approved, surface, message, now, Ok(Some(one))),
        one.accepted,
        a.command_with(decision_key(row, approved)) is None,
    ensures
        b.commands@.len() == a.commands@.len() + 1,
        b.commands@.last().command_key@ == decision_key(row, approved),
        b.commands@.last().binding_id@ == a.binding_of(row.session_uri@)->0.binding_id@,
        b.commands@.last().state == CommandState::Pending,
{
}

/// An approval or an input whose command the adapter rejects waits again, unless it
/// has expired meanwhile.
pub proof fn rejected_answers_can_be_given_again(
    a: Database,
    b: Database,
    row: CommandRow,
    instance: Seq<char>,
    error: Option<Seq<char>>,
    result: Option<Tree>,
    now: i64,
)
    requires
        acknowledged(a, b, row, instance, AhpCommandOutcome::Rejected, error, result, now),
    ensures
        b.decisions@.len() == a.decisions@.len(),
        forall|i: int|
            0 <= i < a.decisions@.len() && a.decisions@[i].state == DecisionState::Submitted
                && a.decisions@[i].command_id == Some(row.command_id) && a.decisions@[i].expires_at
                > now ==> (#[trigger] b.decisions@[i]).state == DecisionState::Pending
                && b.decisions@[i].command_id is None,
        b.inputs@.len() == a.inputs@.len(),
        forall|i: int|
            0 <= i < a.inputs@.len() && a.inputs@[i].state == InputState::Submitted
                && a.inputs@[i].command_id == Some(row.command_id) && a.inputs@[i].expires_at > now
                ==> (#[trigger] b.inputs@[i]).state == InputState::Pending
                && b.inputs@[i].command_id is None,
{
    let (m1, m2) = choose|m1: Database, m2: Database|
        {
            &&& m1 == (Database { commands: m1.commands, ..a })
            &&& if row.kind == AhpCommandKind::UnbindSession {
                crate::commands::unbound(
                    m1,
                    m2,
                    row.binding_id@,
                    AhpCommandOutcome::Rejected,
                    error,
                    now,
                )
            } else {
                m2 == m1
            }
            &&& #[trigger] settled_after(
                m1,
                m2,
                b,
                row.command_id,
                AhpCommandOutcome::Rejected,
                now,
            )
        };
    assert(m2.decisions == a.decisions && m2.inputs == a.inputs);
}

// ---------------------------------------------------------------------------
// Buttons

/// How one operation changes the buttons of menus, other than by making a menu under
/// the name `group`: a menu is made under another, a button is pressed, or they stay.
pub open spec fn menu_step(a: Database, b: Database, group: Seq<char>) -> bool {
    ||| b.switch_buttons == a.switch_buttons
    ||| exists|
        uris: Seq<String>,
        other: Seq<char>,
        drawn: Seq<Vec<String>>,
        ttl: u64,
        now: i64,
        r: Result<Vec<AhpSessionSwitchButton>, Failure>,
    |
        other != group && #[trigger] menu_outcome(a, b, uris, other, drawn, ttl, now, r)
    ||| exists|
        data: Seq<char>,
        allowed: Seq<String>,
        id: Seq<char>,
        now: i64,
        r: Result<Option<AhpSessionSwitchSubmission>, Failure>,
    |
        #[trigger] switch_outcome(a, b, data, allowed, id, now, r)
    ||| exists|
        data: Seq<char>,
        allowed: Seq<String>,
        now: i64,
        r: Option<AhpSessionDescriptor>,
    |
        #[trigger] consume_outcome(a, b, data, allowed, now, r)
}

/// Whether every button of the menu has been used.
pub open spec fn is_used_up(rows: Seq<SwitchButtonRow>, group: Seq<char>) -> bool {
    forall|i: int|
        0 <= i < rows.len() && (#[trigger] rows[i]).group_id@ == group ==> rows[i].used_at is Some
}

/// Where a press is passed on, whatever comes of it, the buttons are those that were
/// there, some of them used.
proof fn lemma_press_uses(
    a: Database,
    b: Database,
    data: Seq<char>,
    allowed: Seq<String>,
    id: Seq<char>,
    now: i64,
    r: Result<Option<AhpSessionSwitchSubmission>, Failure>,
)
    requires
        a.wf(),
        switch_outcome(a, b, data, allowed, id, now, r),
    ensures
        b.switch_buttons@.len() == a.switch_buttons@.len(),
        forall|i: int|
            0 <= i < a.switch_buttons@.len() ==> (#[trigger] b.switch_buttons@[i])
                == a.switch_buttons@[i] || b.switch_buttons@[i] == spent(a.switch_buttons@[i], now),
        r matches Ok(Some(s)) && s.accepted ==> is_used_up(
            b.switch_buttons@,
            (button_session(a, data)->0).0.group_id@,
        ),
{
    match button_session(a, data) {
        None => {},
        Some((button, s)) => if is_listed(allowed, s.session_uri@) && !is_void(button, s, now) {
            match r {
                Err(f) => {},
                Ok(None) => {},
                Ok(Some(sub)) => {
                    let m = choose|m: Database| #[trigger]
                        menu_spent(m, b, button.group_id@, now) && focus_outcome(
                            a,
                            m,
                            s.endpoint_id@,
                            s.session_uri@,
                            id,
                            now,
                            Ok(sub.binding),
                        );
                    let max = MAX_TRACKED_AHP_SESSIONS as nat;
                    let x = choose|x: Database|
                        {
                            &&& #[trigger] ensured(
                                a,
                                x,
                                s.endpoint_id@,
                                s.session_uri@,
                                max,
                                true,
                                id,
                                now,
                            )
                            &&& m == (Database { foreground: m.foreground, ..x })
                            &&& focused_on(m, s.session_uri@, now)
                        };
                    lemma_ensured(a, x, s.endpoint_id@, s.session_uri@, max, true, id, now);
                    assert(m.switch_buttons == a.switch_buttons);
                },
            }
        },
    }
}

proof fn lemma_used_up_stays(a: Database, b: Database, group: Seq<char>)
    requires
        a.wf(),
        is_used_up(a.switch_buttons@, group),
        menu_step(a, b, group),
    ensures
        is_used_up(b.switch_buttons@, group),
{
    if b.switch_buttons == a.switch_buttons {
    } else if exists|
        uris: Seq<String>,
        other: Seq<char>,
        drawn: Seq<Vec<String>>,
        ttl: u64,
        now: i64,
        r: Result<Vec<AhpSessionSwitchButton>, Failure>,
    |
        other != group && #[trigger] menu_outcome(a, b, uris, other, drawn, ttl, now, r) {
        let (uris, other, drawn, ttl, now, r) = choose|
            uris: Seq<String>,
            other: Seq<char>,
            drawn: Seq<Vec<String>>,
            ttl: u64,
            now: i64,
            r: Result<Vec<AhpSessionSwitchButton>, Failure>,
        |
            other != group && #[trigger] menu_outcome(a, b, uris, other, drawn, ttl, now, r);
        if b != a {
            let kept = a.switch_buttons@.filter(still_good(now));
            assert forall|i: int|
                0 <= i < b.switch_buttons@.len() && (#[trigger] b.switch_buttons@[i]).group_id@
                    == group implies b.switch_buttons@[i].used_at is Some by {
                if i < kept.len() {
                    assert(b.switch_buttons@.take(kept.len() as int)[i] == kept[i]);
                    assert(kept.contains(kept[i]));
                    a.switch_buttons@.lemma_filter_contains_rev(still_good(now), kept[i]);
                    let x = choose|x: int|
                        0 <= x < a.switch_buttons@.len() && a.switch_buttons@[x] == kept[i];
                    assert(a.switch_buttons@[x].used_at is Some);
                } else {
                    let buttons = r->Ok_0@;
                    let k = i - kept.len();
                    assert(shows_session(
                        first(
                            a.catalog@,
                            visible_uri(uris[crate::catalog::first_uses(uris)[k]]@),
                        )->0,
                        buttons[k].session,
                    ));
                    assert(b.switch_buttons@[i].group_id@ == other);
                }
            }
        }
    } else if exists|
        data: Seq<char>,
        allowed: Seq<String>,
        id: Seq<char>,
        now: i64,
        r: Result<Option<AhpSessionSwitchSubmission>, Failure>,
    |
        #[trigger] switch_outcome(a, b, data, allowed, id, now, r) {
        let (data, allowed, id, now, r) = choose|
            data: Seq<char>,
            allowed: Seq<String>,
            id: Seq<char>,
            now: i64,
            r: Result<Option<AhpSessionSwitchSubmission>, Failure>,
        |
            #[trigger] switch_outcome(a, b, data, allowed, id, now, r);
        lemma_press_uses(a, b, data, allowed, id, now, r);
        assert forall|i: int|
            0 <= i < b.switch_buttons@.len() && (#[trigger] b.switch_buttons@[i]).group_id@
                == group implies b.switch_buttons@[i].used_at is Some by {
            assert(a.switch_buttons@[i].group_id@ == group);
        }
    } else {
        let (data, allowed, now, r) = choose|
            data: Seq<char>,
            allowed: Seq<String>,
            now: i64,
            r: Option<AhpSessionDescriptor>,
        |
            #[trigger] consume_outcome(a, b, data, allowed, now, r);
        assert forall|i: int|
            0 <= i < b.switch_buttons@.len() && (#[trigger] b.switch_buttons@[i]).group_id@
                == group implies b.switch_buttons@[i].used_at is Some by {
            if b.switch_buttons != a.switch_buttons {
                assert(b.switch_buttons@[i] == a.switch_buttons@[i] || b.switch_buttons@[i]
                    == spent(a.switch_buttons@[i], now));
                assert(a.switch_buttons@[i].group_id@ == group);
            }
        }
    }
}

proof fn lemma_used_up_throughout(states: Seq<Database>, group: Seq<char>)
    requires
        states.len() > 0,
        is_used_up(states[0].switch_buttons@, group),
        forall|i: int| 0 <= i < states.len() ==> (#[trigger] states[i]).wf(),
        forall|i: int, j: int|
            0 <= i && j == i + 1 && j < states.len() ==> #[trigger] menu_step(
                states[i],
                states[j],
                group,
            ),
    ensures
        is_used_up(states.last().switch_buttons@, group),
    decreases states.len(),
{
    if states.len() > 1 {
        let n = states.len() - 1;
        let start = states.drop_last();
        assert forall|i: int, j: int| 0 <= i && j == i + 1 && j < start.len() implies
            #[trigger] menu_step(start[i], start[j], group) by {
            assert(menu_step(states[i], states[j], group));
        }
        assert forall|i: int| 0 <= i < start.len() implies (#[trigger] start[i]).wf() by {
            assert(states[i].wf());
        }
        lemma_used_up_throughout(start, group);
        assert(menu_step(states[n - 1], states[n], group));
        lemma_used_up_stays(states[n - 1], states[n], group);
    }
}

/// A menu of sessions works once: after one of its buttons was pressed none of them
/// brings a session to the foreground, whatever happens in between. The states lead
/// from the one after the press to the one in which a button is pressed again.
pub proof fn menus_work_once(
    a: Database,
    data: Seq<char>,
    allowed: Seq<String>,
    id: Seq<char>,
    now: i64,
    one: AhpSessionSwitchSubmission,
    states: Seq<Database>,
    c: Database,
    other_data: Seq<char>,
    other_allowed: Seq<String>,
    other_id: Seq<char>,
    later: i64,
    two: Result<Option<AhpSessionSwitchSubmission>, Failure>,
)
    requires
        a.wf(),
        states.len() > 0,
        switch_outcome(a, states[0], data, allowed, id, now, Ok(Some(one))),
        one.accepted,
        forall|i: int| 0 <= i < states.len() ==> (#[trigger] states[i]).wf(),
        forall|i: int, j: int|
            0 <= i && j == i + 1 && j < states.len() ==> #[trigger] menu_step(
                states[i],
                states[j],
                (button_session(a, data)->0).0.group_id@,
            ),
        switch_outcome(states.last(), c, other_data, other_allowed, other_id, later, two),
        first(states.last().switch_buttons@, switch_data(other_data)) matches Some(x)
            ==> x.group_id@ == (button_session(a, data)->0).0.group_id@,
    ensures
        two matches Ok(Some(s)) ==> !s.accepted,
        c.bindings == states.last().bindings,
        c.foreground == states.last().foreground,
{
    let group = (button_session(a, data)->0).0.group_id@;
    let b = states.last();
    lemma_press_uses(a, states[0], data, allowed, id, now, Ok(Some(one)));
    lemma_used_up_throughout(states, group);
    lemma_first_holds(b.switch_buttons@, switch_data(other_data));
    if first(b.switch_buttons@, switch_data(other_data)) is Some {
        let x = first(b.switch_buttons@, switch_data(other_data))->0;
        let k = choose|k: int|
            0 <= k < b.switch_buttons@.len() && #[trigger] b.switch_buttons@[k] == x;
        assert(b.switch_buttons@[k].used_at is Some);
    }
}

/// Pressing a button of one menu leaves the buttons of the others as they are.
pub proof fn menus_are_independent(
    a: Database,
    b: Database,
    data: Seq<char>,
    allowed: Seq<String>,
    id: Seq<char>,
    now: i64,
    one: AhpSessionSwitchSubmission,
    k: int,
)
    requires
        a.wf(),
        switch_outcome(a, b, data, allowed, id, now, Ok(Some(one))),
        one.accepted,
        0 <= k < a.switch_buttons@.len(),
        a.switch_buttons@[k].group_id@ != (button_session(a, data)->0).0.group_id@,
    ensures
        k < b.switch_buttons@.len(),
        b.switch_buttons@[k] == a.switch_buttons@[k],
{
    let (button, s) = button_session(a, data)->0;
    let m = choose|m: Database| #[trigger]
        menu_spent(m, b, button.group_id@, now) && focus_outcome(
            a,
            m,
            s.endpoint_id@,
            s.session_uri@,
            id,
            now,
            Ok(one.binding),
        );
    let max = MAX_TRACKED_AHP_SESSIONS as nat;
    let x = choose|x: Database|
        {
            &&& #[trigger] ensured(a, x, s.endpoint_id@, s.session_uri@, max, true, id, now)
            &&& m == (Database { foreground: m.foreground, ..x })
            &&& focused_on(m, s.session_uri@, now)
        };
    lemma_ensured(a, x, s.endpoint_id@, s.session_uri@, max, true, id, now);
    assert(m.switch_buttons == a.switch_buttons);
    assert(b.switch_buttons@[k] == (if m.switch_buttons@[k].group_id@ == button.group_id@ {
        spent(m.switch_buttons@[k], now)
    } else {
        m.switch_buttons@[k]
    }));
}

/// How one operation changes the buttons of dialogues, other than by making buttons for
/// the dialogue `wizard`: some go, one is pressed, or another dialogue gets new ones.
pub open spec fn dialogue_step(a: Database, b: Database, wizard: Seq<char>) -> bool {
    ||| b.wizard_buttons == a.wizard_buttons
    ||| exists|keep: spec_fn(WizardButtonRow) -> bool|
        b.wizard_buttons@ == #[trigger] a.wizard_buttons@.filter(keep)
    ||| exists|data: Seq<char>, now: i64, r: Option<AhpWizardButtonRecord>|
        #[trigger] press_outcome(a, b, data, now, r)
    ||| exists|
        other: Seq<char>,
        kind: Seq<char>,
        payloads: Seq<Json>,
        drawn: Seq<Vec<String>>,
        ttl: u64,
        now: i64,
        r: Result<Vec<AhpWizardButtonRecord>, Failure>,
    |
        other != wizard && #[trigger] make_buttons_outcome(
            a,
            b,
            other,
            kind,
            payloads,
            drawn,
            ttl,
            now,
            r,
        )
}

/// Whether every button of that step of the dialogue has been used.
pub open spec fn is_step_over(
    rows: Seq<WizardButtonRow>,
    wizard: Seq<char>,
    kind: Seq<char>,
) -> bool {
    forall|i: int|
        0 <= i < rows.len() && (#[trigger] rows[i]).wizard_id@ == wizard && rows[i].action_kind@
            == kind ==> rows[i].used_at is Some
}

proof fn lemma_over_of_filter(
    rows: Seq<WizardButtonRow>,
    keep: spec_fn(WizardButtonRow) -> bool,
    wizard: Seq<char>,
    kind: Seq<char>,
)
    requires
        is_step_over(rows, wizard, kind),
    ensures
        is_step_over(rows.filter(keep), wizard, kind),
{
    let kept = rows.filter(keep);
    assert forall|i: int|
        0 <= i < kept.len() && (#[trigger] kept[i]).wizard_id@ == wizard && kept[i].action_kind@
            == kind implies kept[i].used_at is Some by {
        assert(kept.contains(kept[i]));
        rows.lemma_filter_contains_rev(keep, kept[i]);
        let x = choose|x: int| 0 <= x < rows.len() && rows[x] == kept[i];
        assert(rows[x].used_at is Some);
    }
}

proof fn lemma_step_stays_over(a: Database, b: Database, wizard: Seq<char>, kind: Seq<char>)
    requires
        is_step_over(a.wizard_buttons@, wizard, kind),
        dialogue_step(a, b, wizard),
    ensures
        is_step_over(b.wizard_buttons@, wizard, kind),
{
    if b.wizard_buttons == a.wizard_buttons {
    } else if exists|keep: spec_fn(WizardButtonRow) -> bool|
        b.wizard_buttons@ == #[trigger] a.wizard_buttons@.filter(keep) {
        let keep = choose|keep: spec_fn(WizardButtonRow) -> bool|
            b.wizard_buttons@ == #[trigger] a.wizard_buttons@.filter(keep);
        lemma_over_of_filter(a.wizard_buttons@, keep, wizard, kind);
    } else if exists|data: Seq<char>, now: i64, r: Option<AhpWizardButtonRecord>|
        #[trigger] press_outcome(a, b, data, now, r) {
        let (data, now, r) = choose|data: Seq<char>, now: i64, r: Option<AhpWizardButtonRecord>|
            #[trigger] press_outcome(a, b, data, now, r);
        let row = first(a.wizard_buttons@, live_data(a.wizard, now, data))->0;
        let m = choose|m: Database|
            {
                &&& #[trigger] tidied(a, m, now)
                &&& b == (Database { wizard_buttons: b.wizard_buttons, ..m })
                &&& all_spend_buttons(
                    m.wizard_buttons@,
                    b.wizard_buttons@,
                    row.wizard_id@,
                    row.action_kind@,
                    now,
                )
            };
        lemma_over_of_filter(a.wizard_buttons@, live_button(a.wizard, now), wizard, kind);
        assert forall|i: int|
            0 <= i < b.wizard_buttons@.len() && (#[trigger] b.wizard_buttons@[i]).wizard_id@
                == wizard && b.wizard_buttons@[i].action_kind@ == kind implies
            b.wizard_buttons@[i].used_at is Some by {
            assert(m.wizard_buttons@[i].wizard_id@ == wizard);
        }
    } else {
        let (other, other_kind, payloads, drawn, ttl, now, r) = choose|
            other: Seq<char>,
            other_kind: Seq<char>,
            payloads: Seq<Json>,
            drawn: Seq<Vec<String>>,
            ttl: u64,
            now: i64,
            r: Result<Vec<AhpWizardButtonRecord>, Failure>,
        |
            other != wizard && #[trigger] make_buttons_outcome(
                a,
                b,
                other,
                other_kind,
                payloads,
                drawn,
                ttl,
                now,
                r,
            );
        let buttons = r->Ok_0@;
        let m = choose|m: Database|
            #[trigger] tidied(a, m, now) && buttons_made(
                m,
                b,
                other,
                other_kind,
                payloads,
                picks(
                    button_texts(staying_buttons(a, other, now)),
                    drawn,
                    payloads.len(),
                )->0,
                (now + ttl) as i64,
                now,
                buttons,
            );
        lemma_over_of_filter(a.wizard_buttons@, live_button(a.wizard, now), wizard, kind);
        lemma_over_of_filter(m.wizard_buttons@, not_of(other), wizard, kind);
        let kept = m.wizard_buttons@.filter(not_of(other));
        assert forall|i: int|
            0 <= i < b.wizard_buttons@.len() && (#[trigger] b.wizard_buttons@[i]).wizard_id@
                == wizard && b.wizard_buttons@[i].action_kind@ == kind implies
            b.wizard_buttons@[i].used_at is Some by {
            if i < kept.len() {
                assert(b.wizard_buttons@.take(kept.len() as int)[i] == kept[i]);
            } else {
                let k = i - kept.len();
                assert(buttons[k].wizard_id@ == other);
                assert(b.wizard_buttons@[i].wizard_id@ == other);
            }
        }
    }
}

proof fn lemma_over_throughout(states: Seq<Database>, wizard: Seq<char>, kind: Seq<char>)
    requires
        states.len() > 0,
        is_step_over(states[0].wizard_buttons@, wizard, kind),
        forall|i: int, j: int|
            0 <= i && j == i + 1 && j < states.len() ==> #[trigger] dialogue_step(
                states[i],
                states[j],
                wizard,
            ),
    ensures
        is_step_over(states.last().wizard_buttons@, wizard, kind),
    decreases states.len(),
{
    if states.len() > 1 {
        let n = states.len() - 1;
        let start = states.drop_last();
        assert forall|i: int, j: int| 0 <= i && j == i + 1 && j < start.len() implies
            #[trigger] dialogue_step(start[i], start[j], wizard) by {
            assert(dialogue_step(states[i], states[j], wizard));
        }
        lemma_over_throughout(start, wizard, kind);
        assert(dialogue_step(states[n - 1], states[n], wizard));
        lemma_step_stays_over(states[n - 1], states[n], wizard, kind);
    }
}

/// A step of the dialogue works once: after one of its buttons was pressed none of
/// them does anything, until the dialogue gets new ones. The states lead from the one
/// after the press to the one in which a button is pressed again.
pub proof fn steps_work_once(
    a: Database,
    data: Seq<char>,
    now: i64,
    one: AhpWizardButtonRecord,
    states: Seq<Database>,
    c: Database,
    other_data: Seq<char>,
    later: i64,
    two: AhpWizardButtonRecord,
)
    requires
        states.len() > 0,
        press_outcome(a, states[0], data, now, Some(one)),
        forall|i: int, j: int|
            0 <= i && j == i + 1 && j < states.len() ==> #[trigger] dialogue_step(
                states[i],
                states[j],
                one.wizard_id@,
            ),
        press_outcome(states.last(), c, other_data, later, Some(two)),
    ensures
        two.wizard_id@ != one.wizard_id@ || two.action_kind@ != one.action_kind@,
{
    lemma_over_throughout(states, one.wizard_id@, one.action_kind@);
    let b = states.last();
    let test = live_data(b.wizard, later, other_data);
    lemma_first_holds(b.wizard_buttons@, test);
    let row = first(b.wizard_buttons@, test)->0;
    let k = choose|k: int|
        0 <= k < b.wizard_buttons@.len() && #[trigger] b.wizard_buttons@[k] == row && test(
            b.wizard_buttons@[k],
        );
    assert(b.wizard_buttons@[k].used_at is None);
}

// ---------------------------------------------------------------------------
// The owner

/// There is one owner, the first to show the code: everybody after them is refused,
/// whatever they show, and no further code is given out.
pub proof fn owner_is_bound_once(
    a: Database,
    b: Database,
    c: Database,
    user: Seq<char>,
    code: Seq<char>,
    message: Seq<char>,
    now: i64,
    other_user: Seq<char>,
    other_code: Seq<char>,
    other_message: Seq<char>,
    later: i64,
    r: BindOutcome,
    d: Database,
    ttl: u64,
    s: Result<(), Failure>,
)
    requires
        bind_outcome(a, b, user, code, message, now, BindOutcome::Bound),
        bind_outcome(b, c, other_user, other_code, other_message, later, r),
        code_outcome(b, d, other_code, ttl, later, s),
    ensures
        b.owner matches Some(o) && o.user_openid@ == user,
        r == BindOutcome::AlreadyBound,
        c == b,
        s is Err,
        d == b,
{
}

// ---------------------------------------------------------------------------
// Approvals of an agent

/// An approval is asked for once: asking again under its key finds the approval that
/// is there, and adds none.
pub proof fn approvals_are_asked_for_once(
    a: Database,
    b: Database,
    c: Database,
    one: NewApproval,
    drawn: Seq<String>,
    now: i64,
    begun: BeginApproval,
    two: NewApproval,
    drawn_later: Seq<String>,
    later: i64,
    r: Result<BeginApproval, Failure>,
)
    requires
        b.wf(),
        ask_outcome(a, b, one, drawn, now, Ok(begun)),
        begun.created,
        two.idempotency_key@ == one.idempotency_key@,
        ask_outcome(b, c, two, drawn_later, later, r),
    ensures
        r matches Ok(x) && !x.created && x.record.approval_id == begun.record.approval_id,
        c.approvals@.len() == b.approvals@.len(),
{
    let i = b.approvals@.len() - 1;
    let row = b.approvals@[i];
    assert(row.idempotency_key@ == one.idempotency_key@);
    let test = approval_keyed(one.idempotency_key@);
    assert forall|j: int| 0 <= j < i implies !test(#[trigger] b.approvals@[j]) by {
        assert(b.approvals@[j].idempotency_key@ != b.approvals@[i].idempotency_key@);
    }
    lemma_first(b.approvals@, test, i);
}

/// Only the first word of the owner on an approval counts: another one changes
/// nothing, and is told what was decided.
pub proof fn first_word_counts(
    a: Database,
    b: Database,
    c: Database,
    code: Seq<char>,
    allow: bool,
    message: Seq<char>,
    now: i64,
    one: ApprovalDecision,
    other_allow: bool,
    other_message: Seq<char>,
    later: i64,
    r: Option<ApprovalDecision>,
)
    requires
        a.wf(),
        b.wf(),
        decide_outcome(a, b, code, allow, message, now, Some(one)),
        first(a.approvals@, approval_coded(crate::text::upper(code))) matches Some(row)
            && lapse_approval(row, now).state == ApprovalState::Pending,
        decide_outcome(b, c, code, other_allow, other_message, later, r),
    ensures
        c == b,
        one.state == spoken(allow),
        r matches Some(two) && two.state == one.state && two.approval_id == one.approval_id,
{
    let test = approval_coded(crate::text::upper(code));
    lemma_first_holds(a.approvals@, test);
    let row = first(a.approvals@, test)->0;
    let i = choose|i: int|
        0 <= i < a.approvals@.len() && #[trigger] a.approvals@[i] == row && test(a.approvals@[i]);
    assert(b.approvals@.len() == a.approvals@.len());
    assert(b.approvals@[i].state == spoken(allow));
    assert(b.approvals@[i].short_code == row.short_code);
    assert forall|j: int| 0 <= j < i implies !test(#[trigger] b.approvals@[j]) by {
        assert(b.approvals@[j].short_code@ != b.approvals@[i].short_code@);
    }
    lemma_first(b.approvals@, test, i);
}

// ---------------------------------------------------------------------------
// Messages

/// A message is taken in once, however often it comes in.
pub proof fn messages_come_in_once(
    a: Database,
    b: Database,
    c: Database,
    message: Seq<char>,
    user: Seq<char>,
    now: i64,
    r: bool,
    other_user: Seq<char>,
    later: i64,
    s: bool,
)
    requires
        inbound_outcome(a, b, message, user, now, r),
        inbound_outcome(b, c, message, other_user, later, s),
    ensures
        !s,
        c == b,
{
    if r {
        let i = b.inbound@.len() - 1;
        lemma_first_holds(a.inbound@, with_message(message));
        assert forall|j: int| 0 <= j < i implies !with_message(message)(
            #[trigger] b.inbound@[j],
        ) by {
            assert(b.inbound@[j] == a.inbound@[j]);
        }
        lemma_first(b.inbound@, with_message(message), i);
    }
}

/// A message that waits is handed out once.
pub proof fn messages_are_taken_once(
    a: Database,
    b: Database,
    c: Database,
    session: Seq<char>,
    now: i64,
    one: (String, String),
    other_session: Seq<char>,
    later: i64,
    two: (String, String),
)
    requires
        b.wf(),
        take_outcome(a, b, session, now, Some(one)),
        take_outcome(b, c, other_session, later, Some(two)),
    ensures
        one.0@ != two.0@,
{
    let i = choose|i: int|
        {
            &&& #[trigger] is_next_message(a.inbound@, i, session, now)
            &&& one.0 == a.inbound@[i].message_id
            &&& b == (Database { inbound: b.inbound, ..a })
            &&& b.inbound@ == a.inbound@.update(i, b.inbound@[i])
            &&& crate::messages::taken(a.inbound@[i], b.inbound@[i], now)
        };
    let j = choose|j: int|
        {
            &&& #[trigger] is_next_message(b.inbound@, j, other_session, later)
            &&& two.0 == b.inbound@[j].message_id
        };
    assert(b.inbound@[i].consumed_at is Some);
    assert(i != j);
    assert(b.inbound@[i].message_id == one.0);
    assert(b.inbound@[i].message_id@ != b.inbound@[j].message_id@);
}

/// A delivery is begun once: beginning it again under its key finds the delivery that
/// is there, and changes nothing.
pub proof fn deliveries_are_begun_once(
    a: Database,
    b: Database,
    c: Database,
    one: NewDelivery,
    now: i64,
    begun: BeginDelivery,
    two: NewDelivery,
    later: i64,
    r: Result<BeginDelivery, Failure>,
)
    requires
        begin_outcome(a, b, one, now, Ok(begun)),
        two.idempotency_key@ == one.idempotency_key@,
        begin_outcome(b, c, two, later, r),
    ensures
        r matches Ok(x) && !x.created && x.record.delivery_id == begun.record.delivery_id,
        c == b,
{
    let test = delivery_keyed(one.idempotency_key@);
    if begun.created {
        let i = b.deliveries@.len() - 1;
        lemma_first_holds(a.deliveries@, test);
        assert forall|j: int| 0 <= j < i implies !test(#[trigger] b.deliveries@[j]) by {
            assert(b.deliveries@[j] == a.deliveries@[j]);
        }
        lemma_first(b.deliveries@, test, i);
    }
}

/// A delivery ends once: ending it again is refused, and changes nothing.
pub proof fn deliveries_end_once(
    a: Database,
    b: Database,
    c: Database,
    id: u128,
    status: Seq<char>,
    message: Option<Seq<char>>,
    error: Option<Seq<char>>,
    now: i64,
    other_status: Seq<char>,
    other_message: Option<Seq<char>>,
    other_error: Option<Seq<char>>,
    later: i64,
    r: Result<(), Failure>,
)
    requires
        a.wf(),
        b.wf(),
        finish_outcome(a, b, id, status, message, error, now, Ok(())),
        finish_outcome(b, c, id, other_status, other_message, other_error, later, r),
    ensures
        r is Err,
        c == b,
{
    let test = delivery_numbered(id);
    lemma_first_holds(b.deliveries@, test);
    if first(b.deliveries@, test) is Some {
        let row = first(b.deliveries@, test)->0;
        let k = choose|k: int|
            0 <= k < b.deliveries@.len() && #[trigger] b.deliveries@[k] == row && test(
                b.deliveries@[k],
            );
        assert(a.deliveries@[k].delivery_id == id);
        assert(b.deliveries@[k].status != crate::store::DeliveryStatus::Pending);
    }
}

} // verus!
