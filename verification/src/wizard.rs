//! The dialogue in which a session is made, its buttons, and the workspaces whose
//! trust is asked for.
use vstd::prelude::*;
use vstd::string::*;

use crate::codes::{are_token_lists, draw_token_lists, pick_each, picks, picks_are_free};
use crate::commands::{opt_data, with_command_id};
use crate::config::{failure, Failure};
use crate::events::broken_reference;
use crate::json::{canonical, canonicalize, Json, Tree};
use crate::store::{CommandRow, Database, TrustRow, WizardButtonRow, WizardRow};
use crate::tables::{
    changed, count, count_rows, find, first, is_selection, lemma_filter_push, lemma_filter_unique,
    retain, select, unique, SortKey,
};
use crate::text::{cat, chars_of, is_listed, lists_text, str_eq, text_of, views};

verus! {

broadcast use vstd::string::group_string_axioms;

/// The dialogue in which a session is made.
#[derive(Debug)]
pub struct AhpCreationWizardRecord {
    pub wizard_id: String,
    pub mode: String,
    pub state: String,
    pub context: Option<Json>,
    pub pending_task: Option<String>,
    pub create_command_id: Option<i64>,
    pub new_session_uri: Option<String>,
    pub old_binding_endpoint_id: Option<String>,
    pub old_binding_session_uri: Option<String>,
    pub old_binding_host_instance_id: Option<String>,
    pub cancel_requested: bool,
    pub expires_at: i64,
    pub created_at: i64,
    pub updated_at: i64,
}

/// What is told of the dialogue in which a session is made.
#[derive(Debug)]
pub struct AhpCreationWizardStatus {
    pub wizard_id: String,
    pub mode: String,
    pub state: String,
    pub expires_at: i64,
    pub cancel_requested: bool,
}

/// A button of the dialogue in which a session is made.
#[derive(Debug)]
pub struct AhpWizardButtonRecord {
    pub button_data: String,
    pub wizard_id: String,
    pub action_kind: String,
    pub payload: Json,
}

/// A workspace whose trust is asked for.
#[derive(Debug)]
pub struct AhpTrustRequestRecord {
    pub request_id: String,
    pub workspace_uri: String,
    pub open_trust_ui: bool,
    pub trusted: bool,
    pub expires_at: i64,
}

// ---------------------------------------------------------------------------
// What time takes away

/// Whether the dialogue has gone on for too long.
pub open spec fn is_over(w: Option<WizardRow>, now: i64) -> bool {
    w matches Some(row) && row.expires_at <= now
}

/// Whether the button can still be pressed.
pub open spec fn is_live_button(w: Option<WizardRow>, now: i64, r: WizardButtonRow) -> bool {
    r.expires_at > now && r.used_at is None && !(is_over(w, now) && w->0.wizard_id@ == r.wizard_id@)
}

/// The condition that the button can still be pressed.
pub open spec fn live_button(w: Option<WizardRow>, now: i64) -> spec_fn(WizardButtonRow) -> bool {
    |r: WizardButtonRow| is_live_button(w, now, r)
}

/// The condition that trust is still asked for.
pub open spec fn still_asked(now: i64) -> spec_fn(TrustRow) -> bool {
    |r: TrustRow| r.expires_at > now
}

/// Whether `b` is `a` without what time has taken away: a dialogue that went on
/// for too long, buttons that can be pressed no longer, and requests for trust
/// that were not met.
pub open spec fn tidied(a: Database, b: Database, now: i64) -> bool {
    &&& b == (Database {
        wizard: b.wizard,
        wizard_buttons: b.wizard_buttons,
        trust_requests: b.trust_requests,
        ..a
    })
    &&& b.wizard == (if is_over(a.wizard, now) {
        None
    } else {
        a.wizard
    })
    &&& b.wizard_buttons@ == a.wizard_buttons@.filter(live_button(a.wizard, now))
    &&& b.trust_requests@ == a.trust_requests@.filter(still_asked(now))
}

fn is_live(w: &Option<WizardRow>, now: i64, r: &WizardButtonRow) -> (b: bool)
    ensures
        b == is_live_button(*w, now, *r),
{
    if r.expires_at <= now || r.used_at.is_some() {
        return false;
    }
    match w {
        None => true,
        Some(row) => !(row.expires_at <= now && str_eq(
            row.wizard_id.as_str(),
            r.wizard_id.as_str(),
        )),
    }
}

impl Database {
    /// Takes away what time has taken away.
    pub(crate) fn expire_ahp_auxiliary_state(&mut self, now: i64)
        requires
            old(self).wf(),
        ensures
            final(self).wf(),
            tidied(*old(self), *final(self), now),
    {
        let ghost a = *self;
        let wizard = self.wizard.take();
        let w = &wizard;
        let keep = |r: &WizardButtonRow| -> (b: bool)
            ensures
                b == (live_button(*w, now))(*r),
        { is_live(w, now, r) };
        retain(&mut self.wizard_buttons, keep, Ghost(live_button(*w, now)));
        let keep_trust = |r: &TrustRow| -> (b: bool)
            ensures
                b == (still_asked(now))(*r),
        { r.expires_at > now };
        retain(&mut self.trust_requests, keep_trust, Ghost(still_asked(now)));
        let over = match &wizard {
            Some(row) => row.expires_at <= now,
            None => false,
        };
        self.wizard = if over {
            None
        } else {
            wizard
        };
        proof {
            lemma_filter_unique(
                a.wizard_buttons@,
                |r: WizardButtonRow| r.button_data@,
                live_button(a.wizard, now),
            );
            lemma_filter_unique(
                a.trust_requests@,
                |r: TrustRow| r.request_id@,
                still_asked(now),
            );
        }
    }
}

// ---------------------------------------------------------------------------
// The dialogue

/// Whether the record shows the dialogue.
pub open spec fn shows_wizard(row: WizardRow, r: AhpCreationWizardRecord) -> bool {
    &&& r.wizard_id == row.wizard_id
    &&& r.mode == row.mode
    &&& r.state == row.state
    &&& opt_data(r.context) == opt_data(row.context)
    &&& r.pending_task == row.pending_task
    &&& r.create_command_id == row.create_command_id
    &&& r.new_session_uri == row.new_session_uri
    &&& r.old_binding_endpoint_id == row.old_binding_endpoint_id
    &&& r.old_binding_session_uri == row.old_binding_session_uri
    &&& r.old_binding_host_instance_id == row.old_binding_host_instance_id
    &&& r.cancel_requested == row.cancel_requested
    &&& r.expires_at == row.expires_at
    &&& r.created_at == row.created_at
    &&& r.updated_at == row.updated_at
}

/// Whether the row keeps the dialogue.
pub open spec fn keeps_wizard(row: WizardRow, r: AhpCreationWizardRecord) -> bool {
    &&& shows_wizard(WizardRow { context: r.context, ..row }, r)
    &&& opt_data(row.context) == (match r.context {
        Some(j) => Some(canonical(j@)),
        None => None,
    })
}

/// Whether the text names a kind of dialogue.
pub open spec fn is_wizard_mode(mode: Seq<char>) -> bool {
    mode == "quick"@ || mode == "advanced"@
}

/// Whether the text names a step of the dialogue.
pub open spec fn is_wizard_state(state: Seq<char>) -> bool {
    state == "select_target"@ || state == "select_model"@ || state == "select_approval"@ || state
        == "await_task"@ || state == "creating"@ || state == "cancelled"@
}

/// Why the dialogue cannot be kept.
pub open spec fn wizard_fault(db: Database, w: AhpCreationWizardRecord) -> Option<Seq<char>> {
    if !is_wizard_mode(w.mode@) {
        Some("invalid AHP creation wizard mode"@)
    } else if !is_wizard_state(w.state@) {
        Some("invalid AHP creation wizard state"@)
    } else if w.create_command_id matches Some(id) && first(db.commands@, with_command_id(id))
        is None {
        Some(broken_reference())
    } else {
        None
    }
}

/// Whether what is told of the dialogue is so.
pub open spec fn tells_wizard(row: WizardRow, r: AhpCreationWizardStatus) -> bool {
    &&& r.wizard_id == row.wizard_id
    &&& r.mode == row.mode
    &&& r.state == row.state
    &&& r.expires_at == row.expires_at
    &&& r.cancel_requested == row.cancel_requested
}

fn copy_json(value: &Option<Json>) -> (r: Option<Json>)
    ensures
        opt_data(r) == opt_data(*value),
{
    match value {
        Some(j) => Some(j.duplicate()),
        None => None,
    }
}

impl Database {
    /// The dialogue that is going on.
    pub fn ahp_creation_wizard(&mut self, now: i64) -> (r: Option<AhpCreationWizardRecord>)
        requires
            old(self).wf(),
        ensures
            final(self).wf(),
            tidied(*old(self), *final(self), now),
            match final(self).wizard {
                Some(row) => r matches Some(w) && shows_wizard(row, w),
                None => r is None,
            },
    {
        self.expire_ahp_auxiliary_state(now);
        match &self.wizard {
            None => None,
            Some(row) => Some(
                AhpCreationWizardRecord {
                    wizard_id: row.wizard_id.clone(),
                    mode: row.mode.clone(),
                    state: row.state.clone(),
                    context: copy_json(&row.context),
                    pending_task: row.pending_task.clone(),
                    create_command_id: row.create_command_id,
                    new_session_uri: row.new_session_uri.clone(),
                    old_binding_endpoint_id: row.old_binding_endpoint_id.clone(),
                    old_binding_session_uri: row.old_binding_session_uri.clone(),
                    old_binding_host_instance_id: row.old_binding_host_instance_id.clone(),
                    cancel_requested: row.cancel_requested,
                    expires_at: row.expires_at,
                    created_at: row.created_at,
                    updated_at: row.updated_at,
                },
            ),
        }
    }

    /// What is told of the dialogue that is going on.
    pub fn ahp_creation_wizard_status(&mut self, now: i64) -> (r: Option<AhpCreationWizardStatus>)
        requires
            old(self).wf(),
        ensures
            final(self).wf(),
            tidied(*old(self), *final(self), now),
            match final(self).wizard {
                Some(row) => r matches Some(w) && tells_wizard(row, w),
                None => r is None,
            },
    {
        match self.ahp_creation_wizard(now) {
            None => None,
            Some(w) => Some(
                AhpCreationWizardStatus {
                    wizard_id: w.wizard_id,
                    mode: w.mode,
                    state: w.state,
                    expires_at: w.expires_at,
                    cancel_requested: w.cancel_requested,
                },
            ),
        }
    }

    /// Keeps the dialogue, in place of any other.
    pub fn ahp_save_creation_wizard(&mut self, wizard: &AhpCreationWizardRecord) -> (r: Result<
        (),
        Failure,
    >)
        requires
            old(self).wf(),
        ensures
            final(self).wf(),
            match wizard_fault(*old(self), *wizard) {
                Some(message) => *final(self) == *old(self) && (r matches Err(f) && f.message@
                    == message),
                None => {
                    &&& r matches Ok(())
                    &&& *final(self) == (Database { wizard: final(self).wizard, ..*old(self) })
                    &&& final(self).wizard matches Some(row) && keeps_wizard(row, *wizard)
                },
            },
    {
        if !str_eq(wizard.mode.as_str(), "quick") && !str_eq(wizard.mode.as_str(), "advanced") {
            return Err(failure("invalid AHP creation wizard mode"));
        }
        let state = wizard.state.as_str();
        if !str_eq(state, "select_target") && !str_eq(state, "select_model") && !str_eq(
            state,
            "select_approval",
        ) && !str_eq(state, "await_task") && !str_eq(state, "creating") && !str_eq(
            state,
            "cancelled",
        ) {
            return Err(failure("invalid AHP creation wizard state"));
        }
        if let Some(id) = wizard.create_command_id {
            let test = |r: &CommandRow| -> (b: bool)
                ensures
                    b == (with_command_id(id))(*r),
            { r.command_id == id };
            if find(&self.commands, test, Ghost(with_command_id(id))).is_none() {
                return Err(failure("FOREIGN KEY constraint failed"));
            }
        }
        let context = match &wizard.context {
            Some(j) => Some(canonicalize(j)),
            None => None,
        };
        self.wizard = Some(
            WizardRow {
                wizard_id: wizard.wizard_id.clone(),
                mode: wizard.mode.clone(),
                state: wizard.state.clone(),
                context,
                pending_task: wizard.pending_task.clone(),
                create_command_id: wizard.create_command_id,
                new_session_uri: wizard.new_session_uri.clone(),
                old_binding_endpoint_id: wizard.old_binding_endpoint_id.clone(),
                old_binding_session_uri: wizard.old_binding_session_uri.clone(),
                old_binding_host_instance_id: wizard.old_binding_host_instance_id.clone(),
                cancel_requested: wizard.cancel_requested,
                expires_at: wizard.expires_at,
                created_at: wizard.created_at,
                updated_at: wizard.updated_at,
            },
        );
        Ok(())
    }

    /// Ends the dialogue, and takes away its buttons.
    pub fn ahp_clear_creation_wizard(&mut self)
        requires
            old(self).wf(),
        ensures
            final(self).wf(),
            *final(self) == (Database {
                wizard: None,
                wizard_buttons: final(self).wizard_buttons,
                ..*old(self)
            }),
            match old(self).wizard {
                Some(w) => final(self).wizard_buttons@ == old(self).wizard_buttons@.filter(
                    not_of(w.wizard_id@),
                ),
                None => final(self).wizard_buttons == old(self).wizard_buttons,
            },
    {
        match self.wizard.take() {
            None => {},
            Some(w) => self.drop_buttons(w.wizard_id.as_str()),
        }
    }

    fn drop_buttons(&mut self, wizard_id: &str)
        requires
            old(self).wf(),
        ensures
            final(self).wf(),
            *final(self) == (Database {
                wizard_buttons: final(self).wizard_buttons,
                ..*old(self)
            }),
            final(self).wizard_buttons@ == old(self).wizard_buttons@.filter(not_of(wizard_id@)),
    {
        let ghost a = *self;
        let keep = |r: &WizardButtonRow| -> (b: bool)
            ensures
                b == (not_of(wizard_id@))(*r),
        { !str_eq(r.wizard_id.as_str(), wizard_id) };
        retain(&mut self.wizard_buttons, keep, Ghost(not_of(wizard_id@)));
        proof {
            lemma_filter_unique(
                a.wizard_buttons@,
                |r: WizardButtonRow| r.button_data@,
                not_of(wizard_id@),
            );
        }
    }
}

/// The condition of being no button of that dialogue.
pub open spec fn not_of(wizard: Seq<char>) -> spec_fn(WizardButtonRow) -> bool {
    |r: WizardButtonRow| r.wizard_id@ != wizard
}

// ---------------------------------------------------------------------------
// Buttons of the dialogue

/// How many buttons a step of the dialogue has at most.
pub const MAX_WIZARD_BUTTONS: usize = 100;

/// Whether the character is a letter or a digit of the English language.
pub open spec fn is_plain(c: char) -> bool {
    ('0' <= c && c <= '9') || ('a' <= c && c <= 'z') || ('A' <= c && c <= 'Z')
}

/// The condition of being a letter or a digit of the English language.
pub open spec fn plain_char() -> spec_fn(char) -> bool {
    |c: char| is_plain(c)
}

/// The first letters and digits of the text, four at most.
pub open spec fn shortened(s: Seq<char>) -> Seq<char> {
    let all = s.filter(plain_char());
    if all.len() <= 4 {
        all
    } else {
        all.take(4)
    }
}

/// How the data of a button for that kind of action begin.
pub open spec fn button_prefix(kind: Seq<char>) -> Seq<char> {
    if kind == "target"@ {
        "newt"@
    } else if kind == "model"@ {
        "newm"@
    } else if kind == "approval"@ {
        "newa"@
    } else if shortened(kind).len() == 0 {
        "newx"@
    } else {
        "n"@ + shortened(kind)
    }
}

/// How the data of a button for that kind of action begin.
pub fn creation_button_prefix(action_kind: &str) -> (r: String)
    ensures
        r@ == button_prefix(action_kind@),
{
    if str_eq(action_kind, "target") {
        return "newt".to_owned();
    }
    if str_eq(action_kind, "model") {
        return "newm".to_owned();
    }
    if str_eq(action_kind, "approval") {
        return "newa".to_owned();
    }
    let chars = chars_of(action_kind);
    let mut short: Vec<char> = Vec::new();
    let mut i: usize = 0;
    proof {
        reveal(Seq::filter);
        assert(chars@.take(0).filter(plain_char()) =~= Seq::<char>::empty());
    }
    while i < chars.len()
        invariant
            i <= chars@.len(),
            short@ == shortened(chars@.take(i as int)),
        decreases chars@.len() - i,
    {
        let c = chars[i];
        proof {
            let t = chars@.take(i + 1);
            assert(t.drop_last() =~= chars@.take(i as int));
            reveal(Seq::filter);
            assert(t.last() == c);
        }
        if short.len() < 4 && (('0' <= c && c <= '9') || ('a' <= c && c <= 'z') || ('A' <= c && c
            <= 'Z')) {
            short.push(c);
            assert(short@ =~= shortened(chars@.take(i + 1)));
        } else {
            assert(short@ =~= shortened(chars@.take(i + 1)));
        }
        i += 1;
    }
    assert(chars@.take(i as int) =~= action_kind@);
    if short.len() == 0 {
        return "newx".to_owned();
    }
    let rest = text_of(&short);
    cat("n", rest.as_str())
}

/// How the data of buttons for that kind of action begin.
pub open spec fn button_head(kind: Seq<char>) -> Seq<char> {
    button_prefix(kind) + "_"@
}

/// The data of the buttons.
pub open spec fn button_texts(rows: Seq<WizardButtonRow>) -> Seq<Seq<char>> {
    rows.map_values(|r: WizardButtonRow| r.button_data@)
}

/// The buttons that stay when the dialogue gets new ones.
pub open spec fn staying_buttons(db: Database, wizard: Seq<char>, now: i64) -> Seq<WizardButtonRow> {
    db.wizard_buttons@.filter(live_button(db.wizard, now)).filter(not_of(wizard))
}

/// Whether the texts are the data of none of the buttons, and no two are equal.
pub open spec fn tokens_are_new(rows: Seq<WizardButtonRow>, tokens: Seq<String>) -> bool {
    &&& forall|i: int, k: int|
        0 <= i < rows.len() && 0 <= k < tokens.len() ==> (#[trigger] rows[i]).button_data@ != (
        #[trigger] tokens[k])@
    &&& forall|k: int, l: int|
        0 <= k < l < tokens.len() ==> (#[trigger] tokens[k])@ != (#[trigger] tokens[l])@
}

/// Whether the row is a new button.
pub open spec fn is_new_button(
    r: WizardButtonRow,
    data: Seq<char>,
    wizard: Seq<char>,
    kind: Seq<char>,
    payload: Tree,
    expires_at: i64,
    now: i64,
) -> bool {
    &&& r.button_data@ == data
    &&& r.wizard_id@ == wizard
    &&& r.action_kind@ == kind
    &&& r.payload@ == canonical(payload)
    &&& r.expires_at == expires_at
    &&& r.used_at is None
    &&& r.created_at == now
}

/// Whether `b` is `a` with these buttons in place of those that the dialogue
/// had.
pub open spec fn buttons_made(
    a: Database,
    b: Database,
    wizard: Seq<char>,
    kind: Seq<char>,
    payloads: Seq<Json>,
    tokens: Seq<Seq<char>>,
    expires_at: i64,
    now: i64,
    buttons: Seq<AhpWizardButtonRecord>,
) -> bool {
    let kept = a.wizard_buttons@.filter(not_of(wizard));
    &&& b == (Database { wizard_buttons: b.wizard_buttons, ..a })
    &&& buttons.len() == payloads.len()
    &&& b.wizard_buttons@.len() == kept.len() + buttons.len()
    &&& b.wizard_buttons@.take(kept.len() as int) == kept
    &&& forall|k: int|
        0 <= k < buttons.len() ==> {
            &&& (#[trigger] buttons[k]).button_data@ == tokens[k]
            &&& buttons[k].wizard_id@ == wizard
            &&& buttons[k].action_kind@ == kind
            &&& buttons[k].payload@ == payloads[k]@
            &&& is_new_button(
                b.wizard_buttons@[kept.len() + k],
                buttons[k].button_data@,
                wizard,
                kind,
                payloads[k]@,
                expires_at,
                now,
            )
        }
}

/// What comes of making buttons for one step of the dialogue, where these texts were
/// drawn for each of them: each gets the first of its texts that is no button's, and
/// where one gets none nothing happens.
pub open spec fn make_buttons_outcome(
    a: Database,
    b: Database,
    wizard: Seq<char>,
    kind: Seq<char>,
    payloads: Seq<Json>,
    drawn: Seq<Vec<String>>,
    ttl_seconds: u64,
    now: i64,
    r: Result<Vec<AhpWizardButtonRecord>, Failure>,
) -> bool {
    if payloads.len() > MAX_WIZARD_BUTTONS {
        b == a && (r matches Err(f) && f.message@ == "too many AHP creation wizard buttons"@)
    } else if ttl_seconds > i64::MAX {
        b == a && (r matches Err(f) && f.message@ == "wizard button TTL exceeds range"@)
    } else {
        match picks(button_texts(staying_buttons(a, wizard, now)), drawn, payloads.len()) {
            None => b == a && (r matches Err(f) && f.message@
                == "failed to allocate a unique creation wizard token"@),
            Some(tokens) => r matches Ok(buttons) && buttons_put(
                a,
                b,
                wizard,
                kind,
                payloads,
                tokens,
                (now + ttl_seconds) as i64,
                now,
                buttons@,
            ),
        }
    }
}

/// Whether `b` is `a` with these buttons, after what is over was removed.
pub open spec fn buttons_put(
    a: Database,
    b: Database,
    wizard: Seq<char>,
    kind: Seq<char>,
    payloads: Seq<Json>,
    tokens: Seq<Seq<char>>,
    expires_at: i64,
    now: i64,
    buttons: Seq<AhpWizardButtonRecord>,
) -> bool {
    exists|m: Database|
        #[trigger] tidied(a, m, now) && buttons_made(
            m,
            b,
            wizard,
            kind,
            payloads,
            tokens,
            expires_at,
            now,
            buttons,
        )
}

/// Whether the button with these data can still be pressed.
pub open spec fn live_data(
    w: Option<WizardRow>,
    now: i64,
    data: Seq<char>,
) -> spec_fn(WizardButtonRow) -> bool {
    |r: WizardButtonRow| r.button_data@ == data && is_live_button(w, now, r)
}

/// The buttons of one step of the dialogue can be pressed only once.
pub open spec fn spend_buttons(p: WizardButtonRow, wizard: Seq<char>, kind: Seq<char>, now: i64) -> WizardButtonRow {
    if p.wizard_id@ == wizard && p.action_kind@ == kind && p.used_at is None {
        WizardButtonRow {
            used_at: Some(now),
            ..p
        }
    } else {
        p
    }
}

/// Whether each row of `b` is the row of `a` in its place after that change.
pub open spec fn all_spend_buttons(a: Seq<WizardButtonRow>, b: Seq<WizardButtonRow>, wizard: Seq<char>, kind: Seq<char>, now: i64) -> bool {
    a.len() == b.len() && forall|i: int|
        0 <= i < a.len() ==> #[trigger] b[i] == spend_buttons(a[i], wizard, kind, now)
}

pub(crate) fn apply_spend_buttons(rows: &mut Vec<WizardButtonRow>, wizard: &str, kind: &str, now: i64)
    ensures
        all_spend_buttons(old(rows)@, final(rows)@, wizard@, kind@, now),
{
    let ghost a = rows@;
    let mut i: usize = 0;
    while i < rows.len()
        invariant
            i <= rows@.len(),
            rows@.len() == a.len(),
            forall|j: int| 0 <= j < i ==> #[trigger] rows@[j] == spend_buttons(a[j], wizard@, kind@, now),
            forall|j: int| i <= j < rows@.len() ==> #[trigger] rows@[j] == a[j],
        decreases rows@.len() - i,
    {
        if str_eq(rows[i].wizard_id.as_str(), wizard) && str_eq(rows[i].action_kind.as_str(), kind)
            && rows[i].used_at.is_none() {
            rows[i].used_at = Some(now);
        }
        i += 1;
    }
}

/// Whether the record shows the button.
pub open spec fn shows_button(row: WizardButtonRow, r: AhpWizardButtonRecord) -> bool {
    &&& r.button_data == row.button_data
    &&& r.wizard_id == row.wizard_id
    &&& r.action_kind == row.action_kind
    &&& r.payload@ == row.payload@
}

/// What comes of pressing a button of the dialogue.
pub open spec fn press_outcome(
    a: Database,
    b: Database,
    data: Seq<char>,
    now: i64,
    r: Option<AhpWizardButtonRecord>,
) -> bool {
    match first(
        a.wizard_buttons@,
        live_data(a.wizard, now, data),
    ) {
        None => b == a && r is None,
        Some(row) => {
            &&& r matches Some(shown) && shows_button(row, shown)
            &&& exists|m: Database|
                {
                    &&& #[trigger] tidied(a, m, now)
                    &&& b == (Database {
                        wizard_buttons: b.wizard_buttons,
                        ..m
                    })
                    &&& all_spend_buttons(
                        m.wizard_buttons@,
                        b.wizard_buttons@,
                        row.wizard_id@,
                        row.action_kind@,
                        now,
                    )
                }
        },
    }
}

impl Database {
    /// The data of the buttons that stay when the dialogue gets new ones.
    fn staying_texts(&self, wizard_id: &str, now: i64) -> (r: Vec<String>)
        ensures
            views(r@) == button_texts(staying_buttons(*self, wizard_id@, now)),
    {
        let ghost live = live_button(self.wizard, now);
        let ghost other = not_of(wizard_id@);
        let mut r: Vec<String> = Vec::new();
        let mut i: usize = 0;
        proof {
            let none = self.wizard_buttons@.take(0);
            assert(none =~= Seq::<WizardButtonRow>::empty());
            reveal(Seq::filter);
            assert(views(r@) =~= button_texts(none.filter(live).filter(other)));
        }
        while i < self.wizard_buttons.len()
            invariant
                live == live_button(self.wizard, now),
                other == not_of(wizard_id@),
                i <= self.wizard_buttons@.len(),
                views(r@) == button_texts(
                    self.wizard_buttons@.take(i as int).filter(live).filter(other),
                ),
            decreases self.wizard_buttons@.len() - i,
        {
            let row = &self.wizard_buttons[i];
            let ghost before = r@;
            proof {
                let head = self.wizard_buttons@.take(i as int);
                assert(self.wizard_buttons@.take(i + 1) =~= head.push(*row));
                lemma_filter_push(head, *row, live);
                lemma_filter_push(head.filter(live), *row, other);
            }
            if is_live(&self.wizard, now, row) && !str_eq(row.wizard_id.as_str(), wizard_id) {
                r.push(row.button_data.clone());
                assert(views(r@) =~= views(before).push(row.button_data@));
                assert(button_texts(
                    self.wizard_buttons@.take(i + 1).filter(live).filter(other),
                ) =~= button_texts(
                    self.wizard_buttons@.take(i as int).filter(live).filter(other),
                ).push(row.button_data@));
            }
            i += 1;
        }
        assert(self.wizard_buttons@.take(i as int) =~= self.wizard_buttons@);
        r
    }

    /// Makes the buttons for one step of the dialogue, in place of those that it
    /// had.
    pub fn ahp_create_wizard_buttons(
        &mut self,
        wizard_id: &str,
        action_kind: &str,
        payloads: &Vec<Json>,
        ttl_seconds: u64,
        now: i64,
    ) -> (r: Result<Vec<AhpWizardButtonRecord>, Failure>)
        requires
            old(self).wf(),
            ttl_seconds <= i64::MAX ==> now + ttl_seconds <= i64::MAX,
        ensures
            final(self).wf(),
            exists|drawn: Seq<Vec<String>>|
                {
                    &&& payloads@.len() <= MAX_WIZARD_BUTTONS ==> are_token_lists(
                        drawn,
                        button_head(action_kind@),
                        payloads@.len(),
                    )
                    &&& #[trigger] make_buttons_outcome(
                        *old(self),
                        *final(self),
                        wizard_id@,
                        action_kind@,
                        payloads@,
                        drawn,
                        ttl_seconds,
                        now,
                        r,
                    )
                },
    {
        let prefix = creation_button_prefix(action_kind);
        let head = cat(prefix.as_str(), "_");
        let n: usize = if payloads.len() > MAX_WIZARD_BUTTONS {
            0
        } else {
            payloads.len()
        };
        let drawn = draw_token_lists(head.as_str(), n);
        self.create_buttons_with_tokens(wizard_id, action_kind, payloads, &drawn, ttl_seconds, now)
    }

    /// Makes the buttons for one step of the dialogue, in place of those that it
    /// had: each with the first of the texts drawn for it that is no button's.
    pub fn create_buttons_with_tokens(
        &mut self,
        wizard_id: &str,
        action_kind: &str,
        payloads: &Vec<Json>,
        drawn: &Vec<Vec<String>>,
        ttl_seconds: u64,
        now: i64,
    ) -> (r: Result<Vec<AhpWizardButtonRecord>, Failure>)
        requires
            old(self).wf(),
            ttl_seconds <= i64::MAX ==> now + ttl_seconds <= i64::MAX,
            payloads@.len() <= MAX_WIZARD_BUTTONS ==> payloads@.len() <= drawn@.len(),
        ensures
            final(self).wf(),
            make_buttons_outcome(
                *old(self),
                *final(self),
                wizard_id@,
                action_kind@,
                payloads@,
                drawn@,
                ttl_seconds,
                now,
                r,
            ),
    {
        if payloads.len() > MAX_WIZARD_BUTTONS {
            return Err(failure("too many AHP creation wizard buttons"));
        }
        if ttl_seconds > i64::MAX as u64 {
            return Err(failure("wizard button TTL exceeds range"));
        }
        let expires_at: i64 = now + ttl_seconds as i64;
        let taken = self.staying_texts(wizard_id, now);
        let tokens = match pick_each(&taken, drawn, payloads.len()) {
            None => {
                return Err(failure("failed to allocate a unique creation wizard token"));
            },
            Some(tokens) => tokens,
        };
        let ghost picked = views(tokens@);
        proof {
            let kept = staying_buttons(*self, wizard_id@, now);
            picks_are_free(views(taken@), drawn@, payloads@.len());
            assert forall|i: int, k: int| 0 <= i < kept.len() && 0 <= k < tokens@.len() implies (
            #[trigger] kept[i]).button_data@ != (#[trigger] tokens@[k])@ by {
                assert(views(taken@)[i] == kept[i].button_data@);
                assert(picked[k] == tokens@[k]@);
            }
            assert forall|k: int, l: int| 0 <= k < l < tokens@.len() implies (
            #[trigger] tokens@[k])@ != (#[trigger] tokens@[l])@ by {
                assert(picked[k] == tokens@[k]@);
                assert(picked[l] == tokens@[l]@);
            }
        }
        self.expire_ahp_auxiliary_state(now);
        let ghost m = *self;
        self.drop_buttons(wizard_id);
        let ghost kept = self.wizard_buttons@;
        let ghost start = *self;
        let ghost n = kept.len();
        let mut buttons: Vec<AhpWizardButtonRecord> = Vec::new();
        let mut k: usize = 0;
        while k < payloads.len()
            invariant
                k <= payloads@.len(),
                n == kept.len(),
                *self == (Database { wizard_buttons: self.wizard_buttons, ..start }),
                tokens@.len() == payloads@.len(),
                tokens_are_new(kept, tokens@),
                picked == views(tokens@),
                self.wizard_buttons@.len() == n + k,
                forall|i: int| 0 <= i < n ==> #[trigger] self.wizard_buttons@[i] == kept[i],
                forall|i: int|
                    #![trigger self.wizard_buttons@[i]]
                    n <= i < n + k ==> self.wizard_buttons@[i].button_data@ == tokens@[i - n]@,
                buttons@.len() == k,
                forall|l: int|
                    0 <= l < k ==> {
                        &&& (#[trigger] buttons@[l]).button_data@ == picked[l]
                        &&& buttons@[l].wizard_id@ == wizard_id@
                        &&& buttons@[l].action_kind@ == action_kind@
                        &&& buttons@[l].payload@ == payloads@[l]@
                        &&& is_new_button(
                            self.wizard_buttons@[n + l],
                            buttons@[l].button_data@,
                            wizard_id@,
                            action_kind@,
                            payloads@[l]@,
                            expires_at,
                            now,
                        )
                    },
            decreases payloads@.len() - k,
        {
            let ghost rows = self.wizard_buttons@;
            self.wizard_buttons.push(
                WizardButtonRow {
                    button_data: tokens[k].clone(),
                    wizard_id: wizard_id.to_owned(),
                    action_kind: action_kind.to_owned(),
                    payload: canonicalize(&payloads[k]),
                    expires_at,
                    used_at: None,
                    created_at: now,
                },
            );
            buttons.push(
                AhpWizardButtonRecord {
                    button_data: tokens[k].clone(),
                    wizard_id: wizard_id.to_owned(),
                    action_kind: action_kind.to_owned(),
                    payload: payloads[k].duplicate(),
                },
            );
            proof {
                assert forall|l: int| 0 <= l < k implies self.wizard_buttons@[n + l]
                    == #[trigger] rows[n + l] by {}
            }
            k += 1;
        }
        proof {
            assert(self.wizard_buttons@.take(n as int) =~= kept);
            assert forall|i: int, j: int| 0 <= i < j < self.wizard_buttons@.len() implies (
            #[trigger] self.wizard_buttons@[i]).button_data@ != (
            #[trigger] self.wizard_buttons@[j]).button_data@ by {
                if j < n {
                    assert(kept[i].button_data@ != kept[j].button_data@);
                } else if i < n {
                    assert(kept[i].button_data@ != tokens@[j - n]@);
                } else {
                    assert(tokens@[i - n]@ != tokens@[j - n]@);
                }
            }
        }
        let r: Result<Vec<AhpWizardButtonRecord>, Failure> = Ok(buttons);
        assert(buttons_made(
            m,
            *self,
            wizard_id@,
            action_kind@,
            payloads@,
            picked,
            expires_at,
            now,
            r->Ok_0@,
        ));
        r
    }

    /// Presses a button of the dialogue. It works once, and takes its step's other
    /// buttons with it.
    pub fn ahp_consume_wizard_button(&mut self, button_data: &str, now: i64) -> (r: Option<
        AhpWizardButtonRecord,
    >)
        requires
            old(self).wf(),
        ensures
            final(self).wf(),
            press_outcome(
                *old(self),
                *final(self),
                button_data@,
                now,
                r,
            ),
    {
        let w = &self.wizard;
        let test = |r: &WizardButtonRow| -> (b: bool)
            ensures
                b == (live_data(*w, now, button_data@))(*r),
        { str_eq(r.button_data.as_str(), button_data) && is_live(w, now, r) };
        let i = match find(&self.wizard_buttons, test, Ghost(live_data(*w, now, button_data@))) {
            None => {
                return None;
            },
            Some(i) => i,
        };
        let row = &self.wizard_buttons[i];
        let record = AhpWizardButtonRecord {
            button_data: row.button_data.clone(),
            wizard_id: row.wizard_id.clone(),
            action_kind: row.action_kind.clone(),
            payload: row.payload.duplicate(),
        };
        self.expire_ahp_auxiliary_state(now);
        let ghost m = *self;
        apply_spend_buttons(
            &mut self.wizard_buttons,
            record.wizard_id.as_str(),
            record.action_kind.as_str(),
            now,
        );
        assert(tidied(*old(self), m, now));
        Some(record)
    }
}

// ---------------------------------------------------------------------------
// Trust in workspaces

/// The condition of being the request with that identifier.
pub open spec fn with_request(id: Seq<char>) -> spec_fn(TrustRow) -> bool {
    |r: TrustRow| r.request_id@ == id
}

/// The condition of being another request.
pub open spec fn other_request(id: Seq<char>) -> spec_fn(TrustRow) -> bool {
    |r: TrustRow| r.request_id@ != id
}

/// The condition of asking for trust in that workspace.
pub open spec fn for_workspace(uri: Seq<char>, now: i64) -> spec_fn(TrustRow) -> bool {
    |r: TrustRow| r.workspace_uri@ == uri && r.expires_at > now
}

/// Whether the row is a new request.
pub open spec fn is_new_request(
    r: TrustRow,
    id: Seq<char>,
    workspace: Seq<char>,
    open_ui: bool,
    expires_at: i64,
    now: i64,
) -> bool {
    &&& r.request_id@ == id
    &&& r.workspace_uri@ == workspace
    &&& r.open_trust_ui == open_ui
    &&& !r.trusted
    &&& r.expires_at == expires_at
    &&& r.created_at == now
    &&& r.updated_at == now
}

/// Whether `b` is `a` with the request, in place of one with its identifier.
pub open spec fn request_put(
    a: Seq<TrustRow>,
    b: Seq<TrustRow>,
    id: Seq<char>,
    workspace: Seq<char>,
    open_ui: bool,
    expires_at: i64,
    now: i64,
) -> bool {
    if first(a, with_request(id)) is Some {
        changed(
            a,
            b,
            |p: TrustRow, q: TrustRow|
                if p.request_id@ == id {
                    is_new_request(q, id, workspace, open_ui, expires_at, now)
                } else {
                    q == p
                },
        )
    } else {
        b == a.push(b.last()) && is_new_request(b.last(), id, workspace, open_ui, expires_at, now)
    }
}

/// Whether the record shows the request.
pub open spec fn shows_request(row: TrustRow, r: AhpTrustRequestRecord) -> bool {
    &&& r.request_id == row.request_id
    &&& r.workspace_uri == row.workspace_uri
    &&& r.open_trust_ui == row.open_trust_ui
    &&& r.trusted == row.trusted
    &&& r.expires_at == row.expires_at
}

/// What requests are ordered by: their age.
pub open spec fn requests_by_age() -> spec_fn(TrustRow) -> (int, int, Seq<char>) {
    |r: TrustRow| (r.created_at as int, 0int, Seq::<char>::empty())
}

/// Whether the records show the requests, the oldest first.
pub open spec fn lists_requests(
    db: Database,
    picks: Seq<usize>,
    now: i64,
    list: Seq<AhpTrustRequestRecord>,
) -> bool {
    &&& is_selection(db.trust_requests@, still_asked(now), requests_by_age(), false, picks)
    &&& list.len() == picks.len()
    &&& forall|k: int|
        #![trigger picks[k]]
        #![trigger list[k]]
        0 <= k < picks.len() ==> shows_request(db.trust_requests@[picks[k] as int], list[k])
}

/// How many requests the first `n` workspaces meet, each workspace counted as
/// often as it is named; no more than fits the result.
pub open spec fn met(rows: Seq<TrustRow>, uris: Seq<String>, n: nat, now: i64) -> nat
    decreases n,
{
    if n == 0 || n > uris.len() {
        0
    } else {
        let one = count(rows, for_workspace(uris[n - 1]@, now));
        let sum = met(rows, uris, (n - 1) as nat, now) + (if one <= u32::MAX {
            one
        } else {
            0
        });
        if sum <= u32::MAX {
            sum
        } else {
            u32::MAX as nat
        }
    }
}

/// A request for trust in one of the workspaces is answered.
pub open spec fn answer_request(p: TrustRow, uris: Seq<String>, yes: bool, now: i64) -> TrustRow {
    if is_listed(uris, p.workspace_uri@) && p.expires_at > now {
        TrustRow {
            trusted: yes,
            updated_at: now,
            ..p
        }
    } else {
        p
    }
}

/// Whether each row of `b` is the row of `a` in its place after that change.
pub open spec fn all_answer_request(a: Seq<TrustRow>, b: Seq<TrustRow>, uris: Seq<String>, yes: bool, now: i64) -> bool {
    a.len() == b.len() && forall|i: int|
        0 <= i < a.len() ==> #[trigger] b[i] == answer_request(a[i], uris, yes, now)
}

pub(crate) fn apply_answer_request(rows: &mut Vec<TrustRow>, uris: &Vec<String>, yes: bool, now: i64)
    ensures
        all_answer_request(old(rows)@, final(rows)@, uris@, yes, now),
{
    let ghost a = rows@;
    let mut i: usize = 0;
    while i < rows.len()
        invariant
            i <= rows@.len(),
            rows@.len() == a.len(),
            forall|j: int| 0 <= j < i ==> #[trigger] rows@[j] == answer_request(a[j], uris@, yes, now),
            forall|j: int| i <= j < rows@.len() ==> #[trigger] rows@[j] == a[j],
        decreases rows@.len() - i,
    {
        if rows[i].expires_at > now && lists_text(uris, rows[i].workspace_uri.as_str()) {
            rows[i].trusted = yes;
            rows[i].updated_at = now;
        }
        i += 1;
    }
}

fn request_record(row: &TrustRow) -> (r: AhpTrustRequestRecord)
    ensures
        shows_request(*row, r),
{
    AhpTrustRequestRecord {
        request_id: row.request_id.clone(),
        workspace_uri: row.workspace_uri.clone(),
        open_trust_ui: row.open_trust_ui,
        trusted: row.trusted,
        expires_at: row.expires_at,
    }
}

/// What comes of asking for trust in a workspace.
pub open spec fn trust_asked(
    a: Database,
    b: Database,
    request: Seq<char>,
    uri: Seq<char>,
    open_trust_ui: bool,
    ttl_seconds: u64,
    now: i64,
    r: Result<AhpTrustRequestRecord, Failure>,
) -> bool {
    match r {
        Err(f) => b == a && ttl_seconds > i64::MAX && f.message@
            == "trust request TTL exceeds range"@,
        Ok(t) => {
            &&& ttl_seconds <= i64::MAX
            &&& t.request_id@ == request
            &&& t.workspace_uri@ == uri
            &&& t.open_trust_ui == open_trust_ui
            &&& !t.trusted
            &&& t.expires_at == now + ttl_seconds
            &&& exists|m: Database|
                {
                    &&& #[trigger] tidied(a, m, now)
                    &&& b == (Database {
                        trust_requests: b.trust_requests,
                        ..m
                    })
                    &&& request_put(
                        m.trust_requests@,
                        b.trust_requests@,
                        request,
                        uri,
                        open_trust_ui,
                        (now + ttl_seconds) as i64,
                        now,
                    )
                }
        },
    }
}

/// What comes of word on whether workspaces are trusted.
pub open spec fn trust_told(
    a: Database,
    b: Database,
    uris: Seq<String>,
    trusted: bool,
    now: i64,
    r: u32,
) -> bool {
    if uris.len() == 0 {
        b == a && r == 0
    } else {
        exists|m: Database|
            {
                &&& #[trigger] tidied(a, m, now)
                &&& b == (Database {
                    trust_requests: b.trust_requests,
                    ..m
                })
                &&& all_answer_request(
                    m.trust_requests@,
                    b.trust_requests@,
                    uris,
                    trusted,
                    now,
                )
                &&& r == met(
                    m.trust_requests@,
                    uris,
                    uris.len(),
                    now,
                )
            }
    }
}

impl Database {
    fn find_request(&self, request_id: &str) -> (r: Option<usize>)
        ensures
            match r {
                Some(i) => i < self.trust_requests@.len() && first(
                    self.trust_requests@,
                    with_request(request_id@),
                ) == Some(self.trust_requests@[i as int])
                    && self.trust_requests@[i as int].request_id@ == request_id@,
                None => first(self.trust_requests@, with_request(request_id@)) is None && forall|
                    j: int,
                |
                    0 <= j < self.trust_requests@.len() ==> (
                    #[trigger] self.trust_requests@[j]).request_id@ != request_id@,
            },
    {
        let test = |r: &TrustRow| -> (b: bool)
            ensures
                b == (with_request(request_id@))(*r),
        { str_eq(r.request_id.as_str(), request_id) };
        find(&self.trust_requests, test, Ghost(with_request(request_id@)))
    }

    /// Asks for trust in a workspace.
    pub fn ahp_begin_trust_request(
        &mut self,
        request_id: &str,
        workspace_uri: &str,
        open_trust_ui: bool,
        ttl_seconds: u64,
        now: i64,
    ) -> (r: Result<AhpTrustRequestRecord, Failure>)
        requires
            old(self).wf(),
            ttl_seconds <= i64::MAX ==> now + ttl_seconds <= i64::MAX,
        ensures
            final(self).wf(),
            trust_asked(
                *old(self),
                *final(self),
                request_id@,
                workspace_uri@,
                open_trust_ui,
                ttl_seconds,
                now,
                r,
            ),
    {
        if ttl_seconds > i64::MAX as u64 {
            return Err(failure("trust request TTL exceeds range"));
        }
        let expires_at: i64 = now + ttl_seconds as i64;
        self.expire_ahp_auxiliary_state(now);
        let ghost m = *self;
        let row = TrustRow {
            request_id: request_id.to_owned(),
            workspace_uri: workspace_uri.to_owned(),
            open_trust_ui,
            trusted: false,
            expires_at,
            created_at: now,
            updated_at: now,
        };
        let record = request_record(&row);
        match self.find_request(request_id) {
            Some(i) => {
                self.trust_requests.set(i, row);
                proof {
                    assert forall|j: int| 0 <= j < m.trust_requests@.len() && j != i implies (
                    #[trigger] m.trust_requests@[j]).request_id@ != request_id@ by {
                        assert(m.trust_requests@[i as int].request_id@ == request_id@);
                    }
                }
            },
            None => {
                self.trust_requests.push(row);
                assert(self.trust_requests@.last().request_id@ == request_id@);
            },
        }
        assert(tidied(*old(self), m, now));
        Ok(record)
    }

    /// The requests for trust, the oldest first.
    pub fn ahp_pending_trust_requests(&mut self, now: i64) -> (r: Vec<AhpTrustRequestRecord>)
        requires
            old(self).wf(),
        ensures
            final(self).wf(),
            tidied(*old(self), *final(self), now),
            exists|picks: Seq<usize>| #[trigger] lists_requests(*final(self), picks, now, r@),
    {
        self.expire_ahp_auxiliary_state(now);
        let test = |r: &TrustRow| -> (b: bool)
            ensures
                b == (still_asked(now))(*r),
        { r.expires_at > now };
        let key = |r: &TrustRow| -> (s: SortKey)
            ensures
                s@ == (requests_by_age())(*r),
        { SortKey { first: r.created_at as i128, second: 0, text: String::new() } };
        let picks = select(
            &self.trust_requests,
            test,
            key,
            false,
            Ghost(still_asked(now)),
            Ghost(requests_by_age()),
        );
        let ghost m = *self;
        let mut r: Vec<AhpTrustRequestRecord> = Vec::new();
        let mut k: usize = 0;
        while k < picks.len()
            invariant
                k <= picks@.len(),
                *self == m,
                is_selection(
                    m.trust_requests@,
                    still_asked(now),
                    requests_by_age(),
                    false,
                    picks@,
                ),
                r@.len() == k,
                forall|l: int|
                    #![trigger picks@[l]]
                    #![trigger r@[l]]
                    0 <= l < k ==> shows_request(m.trust_requests@[picks@[l] as int], r@[l]),
            decreases picks@.len() - k,
        {
            r.push(request_record(&self.trust_requests[picks[k]]));
            k += 1;
        }
        assert(lists_requests(*self, picks@, now, r@));
        r
    }

    /// The request for trust with that identifier.
    pub fn ahp_trust_request(&mut self, request_id: &str, now: i64) -> (r: Option<
        AhpTrustRequestRecord,
    >)
        requires
            old(self).wf(),
        ensures
            final(self).wf(),
            tidied(*old(self), *final(self), now),
            match first(final(self).trust_requests@, with_request(request_id@)) {
                Some(row) => r matches Some(t) && shows_request(row, t),
                None => r is None,
            },
    {
        self.expire_ahp_auxiliary_state(now);
        match self.find_request(request_id) {
            Some(i) => Some(request_record(&self.trust_requests[i])),
            None => None,
        }
    }

    /// Takes a request for trust back.
    pub fn ahp_delete_trust_request(&mut self, request_id: &str)
        requires
            old(self).wf(),
        ensures
            final(self).wf(),
            *final(self) == (Database {
                trust_requests: final(self).trust_requests,
                ..*old(self)
            }),
            final(self).trust_requests@ == old(self).trust_requests@.filter(
                other_request(request_id@),
            ),
    {
        let ghost a = *self;
        let keep = |r: &TrustRow| -> (b: bool)
            ensures
                b == (other_request(request_id@))(*r),
        { !str_eq(r.request_id.as_str(), request_id) };
        retain(&mut self.trust_requests, keep, Ghost(other_request(request_id@)));
        proof {
            lemma_filter_unique(
                a.trust_requests@,
                |r: TrustRow| r.request_id@,
                other_request(request_id@),
            );
        }
    }

    /// Answers the requests for trust in these workspaces, and counts them.
    pub fn ahp_report_workspace_trust(
        &mut self,
        workspace_uris: &Vec<String>,
        trusted: bool,
        now: i64,
    ) -> (r: u32)
        requires
            old(self).wf(),
        ensures
            final(self).wf(),
            trust_told(
                *old(self),
                *final(self),
                workspace_uris@,
                trusted,
                now,
                r,
            ),
    {
        if workspace_uris.len() == 0 {
            return 0;
        }
        self.expire_ahp_auxiliary_state(now);
        let ghost m = *self;
        let mut total: u32 = 0;
        let mut i: usize = 0;
        while i < workspace_uris.len()
            invariant
                i <= workspace_uris@.len(),
                *self == m,
                total == met(m.trust_requests@, workspace_uris@, i as nat, now),
            decreases workspace_uris@.len() - i,
        {
            let uri = workspace_uris[i].as_str();
            let test = |r: &TrustRow| -> (b: bool)
                ensures
                    b == (for_workspace(uri@, now))(*r),
            { str_eq(r.workspace_uri.as_str(), uri) && r.expires_at > now };
            let n = count_rows(&self.trust_requests, test, Ghost(for_workspace(uri@, now)));
            let one: u64 = if n <= u32::MAX as usize {
                n as u64
            } else {
                0
            };
            let sum: u64 = total as u64 + one;
            total = if sum <= u32::MAX as u64 {
                sum as u32
            } else {
                u32::MAX
            };
            i += 1;
        }
        apply_answer_request(&mut self.trust_requests, workspace_uris, trusted, now);
        assert(tidied(*old(self), m, now));
        total
    }
}

} // verus!
