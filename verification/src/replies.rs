//! How approvals and inputs are asked for, how their buttons are pressed, and how they
//! come to their end.
use vstd::prelude::*;
use vstd::string::*;

use crate::commands::expired;
use crate::config::Failure;
use crate::interactions::{
    all_acknowledge, answer_button_outcome, answer_outcome, begin_decision_outcome,
    begin_input_outcome, buttons_for, by_position, decision_button_outcome, decision_buttoned,
    decision_keyed, decision_outcome, decision_resolved, free_decision_codes, free_input_code,
    input_keyed, input_resolved, shows_buttons, waits_in, with_data, AhpApprovalRecord,
    AhpApprovalSubmission, AhpInputButton, AhpInputRecord, AhpInputResolution, AhpInputSubmission,
    ApprovalCodes, BeginAhpApproval, BeginAhpInput, NewAhpApproval, NewAhpInput,
};
use crate::store::{
    Database, DecisionRow, DecisionState, InputButtonRow, InputRow, InputState, InteractionRow,
};
use crate::tables::{first, is_selection, lemma_first, lemma_first_holds, lemma_first_none};
use crate::text::{opt_view, views};

verus! {

broadcast use vstd::string::group_string_axioms;

// ---------------------------------------------------------------------------
// What time does

/// Approvals and inputs that wait for their outcome expire when their time is up; all
/// else stays as it is.
pub proof fn interactions_expire(a: Database, b: Database, now: i64)
    requires
        expired(a, b, now),
    ensures
        b.decisions@.len() == a.decisions@.len(),
        b.inputs@.len() == a.inputs@.len(),
        forall|i: int|
            #![trigger b.decisions@[i]]
            0 <= i < a.decisions@.len() ==> if a.decisions@[i].expires_at <= now && (
            a.decisions@[i].state == DecisionState::Pending || a.decisions@[i].state
                == DecisionState::Submitted) {
                b.decisions@[i] == (DecisionRow {
                    state: DecisionState::Expired,
                    updated_at: now,
                    ..a.decisions@[i]
                })
            } else {
                b.decisions@[i] == a.decisions@[i]
            },
        forall|i: int|
            #![trigger b.inputs@[i]]
            0 <= i < a.inputs@.len() ==> if a.inputs@[i].expires_at <= now && (a.inputs@[i].state
                == InputState::Pending || a.inputs@[i].state == InputState::Submitted) {
                b.inputs@[i] == (InputRow {
                    state: InputState::Expired,
                    updated_at: now,
                    ..a.inputs@[i]
                })
            } else {
                b.inputs@[i] == a.inputs@[i]
            },
        b.commands == a.commands,
        b.bindings == a.bindings,
        b.foreground == a.foreground,
{
}

// ---------------------------------------------------------------------------
// Approvals

/// Whether the record tells what the approval is about.
pub open spec fn tells_approval(row: DecisionRow, d: AhpApprovalRecord) -> bool {
    &&& d.approval_key@ == row.approval_key@
    &&& d.short_code@ == row.short_code@
    &&& d.stage@ == row.stage@
    &&& d.session_uri@ == row.session_uri@
    &&& d.chat_uri@ == row.chat_uri@
    &&& d.turn_id@ == row.turn_id@
    &&& d.tool_call_id@ == row.tool_call_id@
    &&& d.tool_name@ == row.tool_name@
    &&& d.summary@ == row.summary@
    &&& d.allow_button_data@ == row.allow_button_data@
    &&& d.deny_button_data@ == row.deny_button_data@
    &&& d.expires_at == row.expires_at
    &&& row.state == DecisionState::Pending ==> d.state@ == "pending"@
    &&& row.state == DecisionState::Submitted ==> d.state@ == "submitted"@
    &&& row.state == DecisionState::Allowed ==> d.state@ == "allowed"@
    &&& row.state == DecisionState::Denied ==> d.state@ == "denied"@
    &&& row.state == DecisionState::Expired ==> d.state@ == "expired"@
    &&& row.state == DecisionState::Failed ==> d.state@ == "failed"@
}

/// An approval that was not asked for before waits from then on, as it was asked for,
/// under the first code and buttons drawn for it that no approval has.
pub proof fn approvals_come_to_wait(
    a: Database,
    b: Database,
    n: NewAhpApproval,
    drawn: Seq<ApprovalCodes>,
    now: i64,
    begun: BeginAhpApproval,
) -> (k: int)
    requires
        begin_decision_outcome(a, b, n, drawn, now, Ok(begun)),
        forall|i: int|
            0 <= i < a.decisions@.len() ==> (#[trigger] a.decisions@[i]).approval_key@
                != n.approval_key@,
    ensures
        begun.created,
        b.decisions@.len() == a.decisions@.len() + 1,
        b.commands == a.commands,
        b.inputs@.len() == a.inputs@.len(),
        tells_approval(b.decisions@.last(), begun.record),
        ({
            let row = b.decisions@.last();
            &&& row.approval_key@ == n.approval_key@
            &&& row.stage@ == n.stage@
            &&& row.session_uri@ == n.session_uri@
            &&& row.chat_uri@ == n.chat_uri@
            &&& row.turn_id@ == n.turn_id@
            &&& row.tool_call_id@ == n.tool_call_id@
            &&& row.tool_name@ == n.tool_name@
            &&& row.summary@ == n.summary@
            &&& row.expires_at == n.expires_at
            &&& row.state == DecisionState::Pending
            &&& row.command_id is None
            &&& row.decided_by_surface is None
            &&& row.created_at == now
            &&& 0 <= k < drawn.len()
            &&& row.short_code@ == drawn[k].code@
            &&& row.allow_button_data@ == drawn[k].allow@
            &&& row.deny_button_data@ == drawn[k].deny@
            &&& forall|i: int|
                0 <= i < a.decisions@.len() ==> (#[trigger] a.decisions@[i]).short_code@
                    != row.short_code@ && a.decisions@[i].allow_button_data@
                    != row.allow_button_data@ && a.decisions@[i].deny_button_data@
                    != row.deny_button_data@
            &&& n.stage@ == "parameter"@ || n.stage@ == "result"@
        }),
{
    let p = decision_keyed(n.approval_key@);
    assert forall|i: int| 0 <= i < a.decisions@.len() implies !p(#[trigger] a.decisions@[i]) by {}
    lemma_first_none(a.decisions@, p);
    let free = free_decision_codes(a.decisions@);
    lemma_first_holds(drawn, free);
    let c = first(drawn, free)->0;
    let m = choose|m: Database|
        {
            &&& #[trigger] expired(a, m, now)
            &&& b == (Database { decisions: b.decisions, ..m })
            &&& b.decisions@ == m.decisions@.push(b.decisions@.last())
        };
    let k = choose|k: int| 0 <= k < drawn.len() && #[trigger] drawn[k] == c && free(drawn[k]);
    k
}

/// An approval that was asked for before is not asked for again: what is known of it is
/// told.
pub proof fn approvals_wait_once(
    a: Database,
    b: Database,
    n: NewAhpApproval,
    drawn: Seq<ApprovalCodes>,
    now: i64,
    r: Result<BeginAhpApproval, Failure>,
    i: int,
)
    requires
        a.wf(),
        begin_decision_outcome(a, b, n, drawn, now, r),
        0 <= i < a.decisions@.len(),
        a.decisions@[i].approval_key@ == n.approval_key@,
    ensures
        r matches Ok(begun) && !begun.created && tells_approval(b.decisions@[i], begun.record),
        b.decisions@.len() == a.decisions@.len(),
        expired(a, b, now),
{
    lemma_decision(a, i);
    assert(b.decisions@[i] == crate::interactions::expire_decision(a.decisions@[i], now));
}

proof fn lemma_decision(a: Database, i: int)
    requires
        a.wf(),
        0 <= i < a.decisions@.len(),
    ensures
        first(a.decisions@, decision_keyed(a.decisions@[i].approval_key@)) == Some(a.decisions@[i]),
        forall|k: int|
            0 <= k < a.decisions@.len() && k != i ==> (#[trigger] a.decisions@[k]).approval_key@
                != a.decisions@[i].approval_key@,
{
    let p = decision_keyed(a.decisions@[i].approval_key@);
    assert forall|k: int| 0 <= k < a.decisions@.len() && k != i implies (
    #[trigger] a.decisions@[k]).approval_key@ != a.decisions@[i].approval_key@ by {
        if k < i {
            assert(a.decisions@[k].approval_key@ != a.decisions@[i].approval_key@);
        } else {
            assert(a.decisions@[i].approval_key@ != a.decisions@[k].approval_key@);
        }
    }
    lemma_first(a.decisions@, p, i);
}

/// The one button of an approval allows and the other denies; a press that says
/// something else than its button changes nothing.
pub proof fn buttons_decide_their_approval(
    a: Database,
    b: Database,
    i: int,
    data: Seq<char>,
    approved: bool,
    interaction: Seq<char>,
    now: i64,
    r: Result<Option<AhpApprovalSubmission>, Failure>,
)
    requires
        0 <= i < a.decisions@.len(),
        a.decisions@[i].allow_button_data@ == data || a.decisions@[i].deny_button_data@ == data,
        a.decisions@[i].allow_button_data@ != a.decisions@[i].deny_button_data@,
        forall|k: int|
            0 <= k < a.decisions@.len() && k != i ==> (
            #[trigger] a.decisions@[k]).allow_button_data@ != data
                && a.decisions@[k].deny_button_data@ != data,
        decision_button_outcome(a, b, data, approved, interaction, now, r),
    ensures
        a.decisions@[i].allow_button_data@ == data && !approved ==> r is Err && b == a,
        a.decisions@[i].deny_button_data@ == data && approved ==> r is Err && b == a,
        a.decisions@[i].allow_button_data@ == data && approved ==> decision_outcome(
            a,
            b,
            Some(a.decisions@[i]),
            true,
            "qq_button"@,
            interaction,
            now,
            r,
        ),
        a.decisions@[i].deny_button_data@ == data && !approved ==> decision_outcome(
            a,
            b,
            Some(a.decisions@[i]),
            false,
            "qq_button"@,
            interaction,
            now,
            r,
        ),
{
    let p = decision_buttoned(data);
    assert forall|k: int| 0 <= k < i implies !p(#[trigger] a.decisions@[k]) by {}
    lemma_first(a.decisions@, p, i);
}

/// A button that no approval has does nothing.
pub proof fn unknown_buttons_decide_nothing(
    a: Database,
    b: Database,
    data: Seq<char>,
    approved: bool,
    interaction: Seq<char>,
    now: i64,
    r: Result<Option<AhpApprovalSubmission>, Failure>,
)
    requires
        forall|k: int|
            0 <= k < a.decisions@.len() ==> (#[trigger] a.decisions@[k]).allow_button_data@ != data
                && a.decisions@[k].deny_button_data@ != data,
        decision_button_outcome(a, b, data, approved, interaction, now, r),
    ensures
        b == a,
        r matches Ok(None),
{
    let p = decision_buttoned(data);
    assert forall|k: int| 0 <= k < a.decisions@.len() implies !p(#[trigger] a.decisions@[k]) by {}
    lemma_first_none(a.decisions@, p);
}

/// Word of how an approval was decided settles it where it waits for its outcome, and
/// changes nothing else.
pub proof fn approvals_end_as_decided(
    a: Database,
    b: Database,
    i: int,
    approved: bool,
    client: Option<Seq<char>>,
    now: i64,
    r: Option<AhpApprovalRecord>,
)
    requires
        a.wf(),
        0 <= i < a.decisions@.len(),
        decision_resolved(a, b, a.decisions@[i].approval_key@, approved, client, now, r),
    ensures
        r is Some,
        b.decisions@.len() == a.decisions@.len(),
        tells_approval(b.decisions@[i], r->0),
        b.commands == a.commands,
        b.inputs == a.inputs,
        forall|k: int|
            0 <= k < a.decisions@.len() && k != i ==> #[trigger] b.decisions@[k] == a.decisions@[k],
        ({
            let was = a.decisions@[i];
            let then = b.decisions@[i];
            if was.state == DecisionState::Pending || was.state == DecisionState::Submitted {
                &&& approved ==> then.state == DecisionState::Allowed
                &&& !approved ==> then.state == DecisionState::Denied
                &&& was.decided_by_surface is Some ==> then.decided_by_surface
                    == was.decided_by_surface
                &&& was.decided_by_surface is None ==> opt_view(then.decided_by_surface) == client
                &&& then.approval_key == was.approval_key
                &&& then.updated_at == now
            } else {
                then == was
            }
        }),
{
    lemma_decision(a, i);
    let key = a.decisions@[i].approval_key@;
    assert(b.decisions@[i].approval_key == a.decisions@[i].approval_key);
    let p = decision_keyed(key);
    assert forall|k: int| 0 <= k < i implies !p(#[trigger] b.decisions@[k]) by {
        assert(a.decisions@[k].approval_key@ != key);
    }
    lemma_first(b.decisions@, p, i);
}

// ---------------------------------------------------------------------------
// Inputs

/// Whether the record tells what is asked for.
pub open spec fn tells_input(row: InputRow, d: AhpInputRecord) -> bool {
    &&& d.input_key@ == row.input_key@
    &&& d.short_code@ == row.short_code@
    &&& d.session_uri@ == row.session_uri@
    &&& d.chat_uri@ == row.chat_uri@
    &&& d.request_id@ == row.request_id@
    &&& d.prompt@ == row.prompt@
    &&& views(d.choices@) == views(row.choices@)
    &&& d.allow_freeform == row.allow_freeform
    &&& d.selection_mode@ == row.selection_mode@
    &&& d.expires_at == row.expires_at
    &&& row.state == InputState::Pending ==> d.state@ == "pending"@
    &&& row.state == InputState::Submitted ==> d.state@ == "submitted"@
    &&& row.state == InputState::Answered ==> d.state@ == "answered"@
    &&& row.state == InputState::Declined ==> d.state@ == "declined"@
    &&& row.state == InputState::Cancelled ==> d.state@ == "cancelled"@
    &&& row.state == InputState::Expired ==> d.state@ == "expired"@
    &&& row.state == InputState::Failed ==> d.state@ == "failed"@
}

/// An input that was not asked for before waits from then on, as it was asked for, under
/// the first code drawn for it that no input has. Each of its buttons stands for the
/// choice in its place.
pub proof fn inputs_come_to_wait(
    a: Database,
    b: Database,
    n: NewAhpInput,
    drawn: Seq<String>,
    tokens: Seq<String>,
    now: i64,
    begun: BeginAhpInput,
) -> (k: int)
    requires
        begin_input_outcome(a, b, n, drawn, tokens, now, Ok(begun)),
        forall|i: int|
            0 <= i < a.inputs@.len() ==> (#[trigger] a.inputs@[i]).input_key@ != n.input_key@,
    ensures
        begun.created,
        b.inputs@.len() == a.inputs@.len() + 1,
        b.commands == a.commands,
        tells_input(b.inputs@.last(), begun.record),
        ({
            let row = b.inputs@.last();
            &&& row.input_key@ == n.input_key@
            &&& row.session_uri@ == n.session_uri@
            &&& row.chat_uri@ == n.chat_uri@
            &&& row.request_id@ == n.request_id@
            &&& row.prompt@ == n.prompt@
            &&& views(row.choices@) == views(n.choices@)
            &&& row.allow_freeform == n.allow_freeform
            &&& row.selection_mode@ == n.selection_mode@
            &&& row.expires_at == n.expires_at
            &&& row.state == InputState::Pending
            &&& row.command_id is None
            &&& row.decided_by_surface is None
            &&& row.created_at == now
            &&& 0 <= k < drawn.len()
            &&& row.short_code@ == drawn[k]@
            &&& forall|i: int|
                0 <= i < a.inputs@.len() ==> (#[trigger] a.inputs@[i]).short_code@
                    != row.short_code@
            &&& n.selection_mode@ == "none"@ || n.selection_mode@ == "single"@ || n.selection_mode@
                == "multi"@
        }),
        b.input_buttons@.len() == a.input_buttons@.len() + tokens.len(),
        forall|j: int|
            0 <= j < tokens.len() ==> {
                let button = #[trigger] b.input_buttons@[a.input_buttons@.len() + j];
                &&& button.button_data@ == tokens[j]@
                &&& button.input_key@ == n.input_key@
                &&& button.label@ == n.choices@[j]@
                &&& button.position == j
            },
        forall|j: int|
            0 <= j < a.input_buttons@.len() ==> #[trigger] b.input_buttons@[j]
                == a.input_buttons@[j],
{
    let p = input_keyed(n.input_key@);
    assert forall|i: int| 0 <= i < a.inputs@.len() implies !p(#[trigger] a.inputs@[i]) by {}
    lemma_first_none(a.inputs@, p);
    let free = free_input_code(a.inputs@);
    lemma_first_holds(drawn, free);
    let code = first(drawn, free)->0;
    let m = choose|m: Database|
        {
            &&& #[trigger] expired(a, m, now)
            &&& b == (Database { inputs: b.inputs, input_buttons: b.input_buttons, ..m })
            &&& b.inputs@ == m.inputs@.push(b.inputs@.last())
            &&& crate::interactions::is_new_input(b.inputs@.last(), n, code@, now)
            &&& b.input_buttons@.len() == m.input_buttons@.len() + tokens.len()
            &&& b.input_buttons@.take(m.input_buttons@.len() as int) == m.input_buttons@
            &&& crate::interactions::are_new_buttons(
                b.input_buttons@.skip(m.input_buttons@.len() as int),
                n,
                tokens,
            )
        };
    let len = a.input_buttons@.len();
    let added = b.input_buttons@.skip(len as int);
    assert forall|j: int| 0 <= j < tokens.len() implies {
        let button = #[trigger] b.input_buttons@[len + j];
        &&& button.button_data@ == tokens[j]@
        &&& button.input_key@ == n.input_key@
        &&& button.label@ == n.choices@[j]@
        &&& button.position == j
    } by {
        assert(added[j] == b.input_buttons@[len + j]);
    }
    assert forall|j: int| 0 <= j < len implies #[trigger] b.input_buttons@[j]
        == a.input_buttons@[j] by {
        assert(b.input_buttons@.take(len as int)[j] == b.input_buttons@[j]);
    }
    let k = choose|k: int| 0 <= k < drawn.len() && #[trigger] drawn[k] == code && free(drawn[k]);
    k
}

/// Each of the choices has a button where one is to be picked, up to the twenty-fifth;
/// else there are none.
pub proof fn choices_have_buttons(n: NewAhpInput)
    ensures
        n.selection_mode@ != "single"@ ==> buttons_for(n) == 0,
        n.selection_mode@ == "single"@ && n.choices@.len() <= 25 ==> buttons_for(n)
            == n.choices@.len(),
        n.selection_mode@ == "single"@ && n.choices@.len() > 25 ==> buttons_for(n) == 25,
{
}

/// An input that was asked for before is not asked for again: what is known of it is
/// told.
pub proof fn inputs_wait_once(
    a: Database,
    b: Database,
    n: NewAhpInput,
    drawn: Seq<String>,
    tokens: Seq<String>,
    now: i64,
    r: Result<BeginAhpInput, Failure>,
    i: int,
)
    requires
        a.wf(),
        begin_input_outcome(a, b, n, drawn, tokens, now, r),
        0 <= i < a.inputs@.len(),
        a.inputs@[i].input_key@ == n.input_key@,
    ensures
        r matches Ok(begun) && !begun.created && tells_input(b.inputs@[i], begun.record),
        b.inputs@.len() == a.inputs@.len(),
        b.input_buttons == a.input_buttons,
        expired(a, b, now),
{
    lemma_input(a, i);
    assert(b.inputs@[i] == crate::interactions::expire_input(a.inputs@[i], now));
}

proof fn lemma_input(a: Database, i: int)
    requires
        a.wf(),
        0 <= i < a.inputs@.len(),
    ensures
        first(a.inputs@, input_keyed(a.inputs@[i].input_key@)) == Some(a.inputs@[i]),
        forall|k: int|
            0 <= k < a.inputs@.len() && k != i ==> (#[trigger] a.inputs@[k]).input_key@
                != a.inputs@[i].input_key@,
{
    let p = input_keyed(a.inputs@[i].input_key@);
    assert forall|k: int| 0 <= k < a.inputs@.len() && k != i implies (
    #[trigger] a.inputs@[k]).input_key@ != a.inputs@[i].input_key@ by {
        if k < i {
            assert(a.inputs@[k].input_key@ != a.inputs@[i].input_key@);
        } else {
            assert(a.inputs@[i].input_key@ != a.inputs@[k].input_key@);
        }
    }
    lemma_first(a.inputs@, p, i);
}

/// A button of an input answers it with the choice that the button stands for.
pub proof fn buttons_answer_their_input(
    a: Database,
    b: Database,
    i: int,
    j: int,
    interaction: Seq<char>,
    now: i64,
    r: Result<Option<AhpInputSubmission>, Failure>,
)
    requires
        a.wf(),
        0 <= j < a.input_buttons@.len(),
        0 <= i < a.inputs@.len(),
        a.inputs@[i].input_key@ == a.input_buttons@[j].input_key@,
        answer_button_outcome(a, b, a.input_buttons@[j].button_data@, interaction, now, r),
    ensures
        match r {
            Ok(Some(s)) => s.answer@ == a.input_buttons@[j].label@ && answer_outcome(
                a,
                b,
                a.inputs@[i],
                a.input_buttons@[j].label@,
                "qq_button"@,
                interaction,
                now,
                Ok(s.accepted),
            ) && s.record.input_key@ == b.inputs@[i].input_key@ && s.record.prompt@
                == b.inputs@[i].prompt@,
            Ok(None) => false,
            Err(f) => answer_outcome(
                a,
                b,
                a.inputs@[i],
                a.input_buttons@[j].label@,
                "qq_button"@,
                interaction,
                now,
                Err(f),
            ),
        },
{
    let data = a.input_buttons@[j].button_data@;
    let p = with_data(data);
    assert forall|k: int| 0 <= k < j implies !p(#[trigger] a.input_buttons@[k]) by {
        assert(a.input_buttons@[k].button_data@ != a.input_buttons@[j].button_data@);
    }
    lemma_first(a.input_buttons@, p, j);
    lemma_input(a, i);
    if r is Ok && r->Ok_0 is Some {
        let s = r->Ok_0->0;
        let k = choose|k: int|
            0 <= k < a.inputs@.len() && #[trigger] a.inputs@[k] == a.inputs@[i]
                && crate::interactions::shows_input(b.input_buttons@, b.inputs@[k], s.record);
        assert(k == i);
    }
}

/// A button that no input has does nothing.
pub proof fn unknown_buttons_answer_nothing(
    a: Database,
    b: Database,
    data: Seq<char>,
    interaction: Seq<char>,
    now: i64,
    r: Result<Option<AhpInputSubmission>, Failure>,
)
    requires
        forall|k: int|
            0 <= k < a.input_buttons@.len() ==> (#[trigger] a.input_buttons@[k]).button_data@
                != data,
        answer_button_outcome(a, b, data, interaction, now, r),
    ensures
        b == a,
        r matches Ok(None),
{
    let p = with_data(data);
    assert forall|k: int| 0 <= k < a.input_buttons@.len() implies !p(
        #[trigger] a.input_buttons@[k],
    ) by {}
    lemma_first_none(a.input_buttons@, p);
}

/// Word of how an input came to its end settles it where it waits for its outcome, and
/// changes nothing else.
pub proof fn inputs_end_as_told(
    a: Database,
    b: Database,
    i: int,
    outcome: Seq<char>,
    client: Option<Seq<char>>,
    now: i64,
    r: Result<Option<AhpInputResolution>, Failure>,
)
    requires
        a.wf(),
        0 <= i < a.inputs@.len(),
        input_resolved(a, b, a.inputs@[i].input_key@, outcome, client, now, r),
    ensures
        r is Ok <==> outcome == "answered"@ || outcome == "declined"@ || outcome == "cancelled"@,
        r is Err ==> b == a,
        r matches Ok(told) ==> {
            let was = a.inputs@[i];
            let then = b.inputs@[i];
            let open = was.state == InputState::Pending || was.state == InputState::Submitted;
            &&& told is Some
            &&& told->0.transitioned == open
            &&& told->0.decided_by_surface == then.decided_by_surface
            &&& tells_input(then, told->0.record)
            &&& b.inputs@.len() == a.inputs@.len()
            &&& b.commands == a.commands
            &&& b.decisions == a.decisions
            &&& forall|k: int|
                0 <= k < a.inputs@.len() && k != i ==> #[trigger] b.inputs@[k] == a.inputs@[k]
            &&& if open {
                &&& outcome == "answered"@ ==> then.state == InputState::Answered
                &&& outcome == "declined"@ ==> then.state == InputState::Declined
                &&& outcome == "cancelled"@ ==> then.state == InputState::Cancelled
                &&& was.decided_by_surface is Some ==> then.decided_by_surface
                    == was.decided_by_surface
                &&& was.decided_by_surface is None ==> opt_view(then.decided_by_surface) == client
                &&& then.input_key == was.input_key
                &&& then.updated_at == now
            } else {
                then == was
            }
        },
{
    lemma_input(a, i);
    reveal_strlit("answered");
    reveal_strlit("declined");
    reveal_strlit("cancelled");
    assert("answered"@[0] == 'a' && "declined"@[0] == 'd' && "cancelled"@[0] == 'c');
    if r is Ok {
        let key = a.inputs@[i].input_key@;
        assert(b.inputs@[i].input_key == a.inputs@[i].input_key);
        let p = input_keyed(key);
        assert forall|k: int| 0 <= k < i implies !p(#[trigger] b.inputs@[k]) by {
            assert(a.inputs@[k].input_key@ != key);
        }
        lemma_first(b.inputs@, p, i);
    }
}

/// The input that is shown of a session is the latest that waits there.
pub proof fn the_latest_input_is_shown(
    db: Database,
    uri: Seq<char>,
    now: i64,
    r: Option<AhpInputRecord>,
    j: int,
)
    requires
        db.latest_shown(uri, now, r),
        0 <= j < db.inputs@.len(),
        db.inputs@[j].session_uri@ == uri,
        db.inputs@[j].state == InputState::Pending,
        now < db.inputs@[j].expires_at,
    ensures
        r is Some,
        r->0.session_uri@ == uri,
        r->0.state@ == "pending"@,
        now < r->0.expires_at,
        exists|i: int|
            0 <= i < db.inputs@.len() && tells_input(#[trigger] db.inputs@[i], r->0)
                && db.inputs@[j].created_at <= db.inputs@[i].created_at && db.inputs@[i].state
                == InputState::Pending,
{
    assert(waits_in(uri, now)(db.inputs@[j]));
    let i = choose|i: int|
        {
            &&& 0 <= i < db.inputs@.len()
            &&& waits_in(uri, now)(#[trigger] db.inputs@[i])
            &&& forall|j: int|
                0 <= j < db.inputs@.len() && waits_in(uri, now)(#[trigger] db.inputs@[j])
                    ==> db.inputs@[j].created_at <= db.inputs@[i].created_at
            &&& crate::interactions::shows_input(db.input_buttons@, db.inputs@[i], r->0)
        };
    assert(tells_input(db.inputs@[i], r->0));
}

/// The buttons of an input are shown in the order of their positions.
pub proof fn buttons_are_shown_in_order(
    rows: Seq<InputButtonRow>,
    key: Seq<char>,
    buttons: Seq<AhpInputButton>,
) -> (picks: Seq<usize>)
    requires
        shows_buttons(rows, key, buttons),
    ensures
        picks.len() == buttons.len(),
        forall|k: int|
            #![trigger picks[k]]
            0 <= k < buttons.len() ==> {
                let row = rows[picks[k] as int];
                &&& picks[k] < rows.len()
                &&& row.input_key@ == key
                &&& buttons[k].label@ == row.label@
                &&& buttons[k].button_data@ == row.button_data@
            },
        forall|k: int, l: int|
            0 <= k < l < picks.len() ==> rows[(#[trigger] picks[k]) as int].position
                <= rows[(#[trigger] picks[l]) as int].position,
        forall|i: int|
            0 <= i < rows.len() && (#[trigger] rows[i]).input_key@ == key ==> exists|k: int|
                0 <= k < picks.len() && #[trigger] picks[k] == i,
{
    let picks = choose|picks: Seq<usize>|
        {
            &&& #[trigger] is_selection(
                rows,
                crate::interactions::button_of(key),
                by_position(),
                false,
                picks,
            )
            &&& buttons.len() == picks.len()
            &&& forall|k: int|
                0 <= k < picks.len() ==> (#[trigger] buttons[k]).label == rows[picks[k] as int].label
                    && buttons[k].button_data == rows[picks[k] as int].button_data
        };
    assert forall|k: int|
        #![trigger picks[k]]
        0 <= k < buttons.len() implies {
        let row = rows[picks[k] as int];
        &&& picks[k] < rows.len()
        &&& row.input_key@ == key
        &&& buttons[k].label@ == row.label@
        &&& buttons[k].button_data@ == row.button_data@
    } by {
        assert(buttons[k].label == rows[picks[k] as int].label);
        assert(crate::interactions::button_of(key)(rows[picks[k] as int]));
    }
    assert forall|i: int| 0 <= i < rows.len() && (#[trigger] rows[i]).input_key@ == key implies exists|
        k: int,
    |
        0 <= k < picks.len() && #[trigger] picks[k] == i by {
        assert(crate::interactions::button_of(key)(rows[i]));
    }
    picks
}

/// How the press of a button was acknowledged is remembered with it, and with no other.
pub proof fn presses_are_acknowledged(
    a: Seq<InteractionRow>,
    b: Seq<InteractionRow>,
    id: Seq<char>,
    code: u8,
    i: int,
)
    requires
        all_acknowledge(a, b, id, code),
        0 <= i < a.len(),
    ensures
        b.len() == a.len(),
        a[i].interaction_id@ == id ==> b[i] == (InteractionRow { ack_code: Some(code), ..a[i] }),
        a[i].interaction_id@ != id ==> b[i] == a[i],
{
    assert(b[i] == crate::interactions::acknowledge(a[i], id, code));
}

/// The owner has something to answer just where an approval or an input that is open has
/// time left.
pub proof fn what_waits_is_told(a: Database, b: Database, now: i64, r: bool)
    requires
        crate::interactions::pending_outcome(a, b, now, r),
    ensures
        !r ==> forall|i: int|
            0 <= i < b.decisions@.len() && (#[trigger] b.decisions@[i]).expires_at > now
                ==> b.decisions@[i].state != DecisionState::Pending && b.decisions@[i].state
                != DecisionState::Submitted,
        !r ==> forall|i: int|
            0 <= i < b.inputs@.len() && (#[trigger] b.inputs@[i]).expires_at > now
                ==> b.inputs@[i].state != InputState::Pending && b.inputs@[i].state
                != InputState::Submitted,
        r ==> (exists|i: int|
            0 <= i < b.decisions@.len() && (#[trigger] b.decisions@[i]).expires_at > now && (
            b.decisions@[i].state == DecisionState::Pending || b.decisions@[i].state
                == DecisionState::Submitted)) || (exists|i: int|
            0 <= i < b.inputs@.len() && (#[trigger] b.inputs@[i]).expires_at > now && (
            b.inputs@[i].state == InputState::Pending || b.inputs@[i].state
                == InputState::Submitted)),
{
}

} // verus!
