//! How tables that lack columns, kinds of commands or codes are brought up to date.
use vstd::prelude::*;
use vstd::string::*;

use crate::bindings::lemma_same_commands;
use crate::codes::{are_codes, draw_codes, draw_token, is_token, none_of};
use crate::config::{failure, Failure};
use crate::security::{sha256_hex, text_hash};
use crate::store::{
    is_open_command, BindingRow, BindingState, CatalogRow, CommandRow, CommandState, Database,
    DecisionRow, EventRow, ForegroundRow,
};
use crate::tables::{changed, find, first, lemma_first_holds};
use crate::text::{
    cat, chars_of, contains, is_listed, lists_text, opt_view, slice_text, str_eq, text_contains,
};

verus! {

broadcast use vstd::string::group_string_axioms;

// ---------------------------------------------------------------------------
// Columns

/// A table as it was found.
#[derive(Debug)]
pub struct TableInfo {
    pub name: String,
    pub columns: Vec<String>,
    pub sql: String,
}

/// A column that a table has to have.
#[derive(Debug)]
pub struct Column {
    pub table: &'static str,
    pub name: &'static str,
    pub definition: &'static str,
}

/// A step that brings the tables up to date.
#[derive(Debug)]
pub enum Step {
    /// A column is added by this statement.
    AddColumn(String),
    /// The one tracked session becomes the one in the foreground.
    TakeOverBinding,
    /// The table of commands is made anew, for more kinds of them.
    WidenCommands,
    /// Approvals get the buttons that they lack.
    FillButtons,
    /// Sessions get the codes that they lack.
    FillCodes,
    /// Indexes are made.
    MakeIndexes,
}

/// What a step is about, as values.
pub enum Action {
    AddColumn(Seq<char>),
    TakeOverBinding,
    WidenCommands,
    FillButtons,
    FillCodes,
    MakeIndexes,
}

impl View for Step {
    type V = Action;

    open spec fn view(&self) -> Action {
        match self {
            Step::AddColumn(s) => Action::AddColumn(s@),
            Step::TakeOverBinding => Action::TakeOverBinding,
            Step::WidenCommands => Action::WidenCommands,
            Step::FillButtons => Action::FillButtons,
            Step::FillCodes => Action::FillCodes,
            Step::MakeIndexes => Action::MakeIndexes,
        }
    }
}

/// What the steps are about.
pub open spec fn actions(steps: Seq<Step>) -> Seq<Action> {
    steps.map_values(|s: Step| s@)
}

/// Whether the table was found.
pub open spec fn has_table(tables: Seq<TableInfo>, name: Seq<char>) -> bool {
    exists|i: int| 0 <= i < tables.len() && (#[trigger] tables[i]).name@ == name
}

/// Whether the table was found with the column.
pub open spec fn has_column(tables: Seq<TableInfo>, table: Seq<char>, column: Seq<char>) -> bool {
    exists|i: int|
        0 <= i < tables.len() && (#[trigger] tables[i]).name@ == table && is_listed(
            tables[i].columns@,
            column,
        )
}

/// The statement that adds the column.
pub open spec fn statement(c: (Seq<char>, Seq<char>, Seq<char>)) -> Seq<char> {
    "ALTER TABLE "@ + c.0 + " ADD COLUMN "@ + c.1 + " "@ + c.2
}

/// The steps that add those of the first `n` columns that are missing.
pub open spec fn added(
    tables: Seq<TableInfo>,
    columns: Seq<(Seq<char>, Seq<char>, Seq<char>)>,
    n: nat,
) -> Seq<Action>
    decreases n,
{
    if n == 0 || n > columns.len() {
        Seq::empty()
    } else {
        let before = added(tables, columns, (n - 1) as nat);
        let c = columns[n - 1];
        if has_column(tables, c.0, c.1) {
            before
        } else {
            before.push(Action::AddColumn(statement(c)))
        }
    }
}

/// The columns as values.
pub open spec fn values(columns: Seq<Column>) -> Seq<(Seq<char>, Seq<char>, Seq<char>)> {
    columns.map_values(|c: Column| (c.table@, c.name@, c.definition@))
}

/// The columns that the table of the one tracked session has to have.
pub open spec fn legacy_columns() -> Seq<(Seq<char>, Seq<char>, Seq<char>)> {
    seq![
        ("ahp_binding"@, "active_turn_id"@, "TEXT"@),
        ("ahp_binding"@, "queued_message_count"@, "INTEGER NOT NULL DEFAULT 0"@),
    ]
}

/// The columns that tables have to have before the one tracked session is
/// taken over.
pub open spec fn early_columns() -> Seq<(Seq<char>, Seq<char>, Seq<char>)> {
    seq![
        ("ahp_commands"@, "binding_id"@, "TEXT"@),
        ("ahp_events"@, "binding_id"@, "TEXT"@),
        ("ahp_session_switch_buttons"@, "group_id"@, "TEXT NOT NULL DEFAULT ''"@),
    ]
}

/// The columns that tables have to have in the end.
pub open spec fn late_columns() -> Seq<(Seq<char>, Seq<char>, Seq<char>)> {
    seq![
        ("ahp_events"@, "processed_at"@, "INTEGER"@),
        ("ahp_session_catalog"@, "available"@, "INTEGER NOT NULL DEFAULT 1"@),
        ("ahp_session_catalog"@, "short_code"@, "TEXT NOT NULL DEFAULT ''"@),
        ("ahp_inputs"@, "selection_mode"@, "TEXT NOT NULL DEFAULT 'none'"@),
        ("ahp_events"@, "processing_error"@, "TEXT"@),
        ("ahp_hosts"@, "host_label"@, "TEXT"@),
        ("ahp_hosts"@, "ssh_alias"@, "TEXT"@),
        ("ahp_hosts"@, "target_kind"@, "TEXT"@),
        ("ahp_hosts"@, "target_path"@, "TEXT"@),
        ("ahp_hosts"@, "endpoint_type"@, "TEXT"@),
        ("ahp_hosts"@, "editor_client_tools_available"@, "INTEGER NOT NULL DEFAULT 1"@),
        ("ahp_session_catalog"@, "host_label"@, "TEXT"@),
        ("ahp_session_catalog"@, "ssh_alias"@, "TEXT"@),
        ("ahp_session_catalog"@, "target_kind"@, "TEXT"@),
        ("ahp_session_catalog"@, "target_path"@, "TEXT"@),
        ("ahp_session_catalog"@, "editor_client_tools_available"@, "INTEGER NOT NULL DEFAULT 1"@),
        ("ahp_approvals"@, "allow_button_data"@, "TEXT NOT NULL DEFAULT ''"@),
        ("ahp_approvals"@, "deny_button_data"@, "TEXT NOT NULL DEFAULT ''"@),
        ("ahp_commands"@, "result_json"@, "TEXT"@),
        ("ahp_commands"@, "progress_json"@, "TEXT"@),
        ("ahp_commands"@, "progress_updated_at"@, "INTEGER"@),
        ("ahp_projections"@, "replay_key"@, "TEXT"@),
    ]
}

fn list_legacy_columns() -> (r: Vec<Column>)
    ensures
        values(r@) == legacy_columns(),
{
    let r = vec![
        Column { table: "ahp_binding", name: "active_turn_id", definition: "TEXT" },
        Column { table: "ahp_binding", name: "queued_message_count", definition: "INTEGER NOT NULL DEFAULT 0" },
    ];
    assert(values(r@) =~= legacy_columns());
    r
}

fn list_early_columns() -> (r: Vec<Column>)
    ensures
        values(r@) == early_columns(),
{
    let r = vec![
        Column { table: "ahp_commands", name: "binding_id", definition: "TEXT" },
        Column { table: "ahp_events", name: "binding_id", definition: "TEXT" },
        Column { table: "ahp_session_switch_buttons", name: "group_id", definition: "TEXT NOT NULL DEFAULT ''" },
    ];
    assert(values(r@) =~= early_columns());
    r
}

fn list_late_columns() -> (r: Vec<Column>)
    ensures
        values(r@) == late_columns(),
{
    let r = vec![
        Column { table: "ahp_events", name: "processed_at", definition: "INTEGER" },
        Column { table: "ahp_session_catalog", name: "available", definition: "INTEGER NOT NULL DEFAULT 1" },
        Column { table: "ahp_session_catalog", name: "short_code", definition: "TEXT NOT NULL DEFAULT ''" },
        Column { table: "ahp_inputs", name: "selection_mode", definition: "TEXT NOT NULL DEFAULT 'none'" },
        Column { table: "ahp_events", name: "processing_error", definition: "TEXT" },
        Column { table: "ahp_hosts", name: "host_label", definition: "TEXT" },
        Column { table: "ahp_hosts", name: "ssh_alias", definition: "TEXT" },
        Column { table: "ahp_hosts", name: "target_kind", definition: "TEXT" },
        Column { table: "ahp_hosts", name: "target_path", definition: "TEXT" },
        Column { table: "ahp_hosts", name: "endpoint_type", definition: "TEXT" },
        Column { table: "ahp_hosts", name: "editor_client_tools_available", definition: "INTEGER NOT NULL DEFAULT 1" },
        Column { table: "ahp_session_catalog", name: "host_label", definition: "TEXT" },
        Column { table: "ahp_session_catalog", name: "ssh_alias", definition: "TEXT" },
        Column { table: "ahp_session_catalog", name: "target_kind", definition: "TEXT" },
        Column { table: "ahp_session_catalog", name: "target_path", definition: "TEXT" },
        Column { table: "ahp_session_catalog", name: "editor_client_tools_available", definition: "INTEGER NOT NULL DEFAULT 1" },
        Column { table: "ahp_approvals", name: "allow_button_data", definition: "TEXT NOT NULL DEFAULT ''" },
        Column { table: "ahp_approvals", name: "deny_button_data", definition: "TEXT NOT NULL DEFAULT ''" },
        Column { table: "ahp_commands", name: "result_json", definition: "TEXT" },
        Column { table: "ahp_commands", name: "progress_json", definition: "TEXT" },
        Column { table: "ahp_commands", name: "progress_updated_at", definition: "INTEGER" },
        Column { table: "ahp_projections", name: "replay_key", definition: "TEXT" },
    ];
    assert(values(r@) =~= late_columns());
    r
}

/// Whether the table of commands was made for fewer kinds of them.
pub open spec fn is_narrow(sql: Seq<char>) -> bool {
    !(contains(sql, "'prepare_target'"@) && contains(sql, "'create_session'"@) && contains(
        sql,
        "'dispose_session'"@,
    ))
}

/// Whether the table of commands was found, made for fewer kinds of them.
pub open spec fn has_narrow_commands(tables: Seq<TableInfo>) -> bool {
    exists|i: int|
        0 <= i < tables.len() && (#[trigger] tables[i]).name@ == "ahp_commands"@ && is_narrow(
            tables[i].sql@,
        )
}

/// The steps that bring the tables up to date.
pub open spec fn plan(tables: Seq<TableInfo>) -> Seq<Action> {
    let old = if has_table(tables, "ahp_binding"@) {
        added(tables, legacy_columns(), legacy_columns().len())
    } else {
        Seq::empty()
    };
    let take_over = if has_table(tables, "ahp_binding"@) {
        seq![Action::TakeOverBinding]
    } else {
        Seq::empty()
    };
    let widen = if has_narrow_commands(tables) {
        seq![Action::WidenCommands]
    } else {
        Seq::empty()
    };
    old + added(tables, early_columns(), early_columns().len()) + take_over + added(
        tables,
        late_columns(),
        late_columns().len(),
    ) + widen + seq![Action::FillButtons, Action::FillCodes, Action::MakeIndexes]
}

fn find_table(tables: &Vec<TableInfo>, name: &str) -> (r: bool)
    ensures
        r == has_table(tables@, name@),
{
    let mut i: usize = 0;
    while i < tables.len()
        invariant
            i <= tables@.len(),
            forall|j: int| 0 <= j < i ==> (#[trigger] tables@[j]).name@ != name@,
        decreases tables@.len() - i,
    {
        if str_eq(tables[i].name.as_str(), name) {
            return true;
        }
        i += 1;
    }
    false
}

fn find_column(tables: &Vec<TableInfo>, table: &str, column: &str) -> (r: bool)
    ensures
        r == has_column(tables@, table@, column@),
{
    let mut i: usize = 0;
    while i < tables.len()
        invariant
            i <= tables@.len(),
            forall|j: int|
                0 <= j < i ==> !((#[trigger] tables@[j]).name@ == table@ && is_listed(
                    tables@[j].columns@,
                    column@,
                )),
        decreases tables@.len() - i,
    {
        if str_eq(tables[i].name.as_str(), table) && lists_text(&tables[i].columns, column) {
            return true;
        }
        i += 1;
    }
    false
}

/// Whether the table of commands was made for fewer kinds of them.
pub fn needs_command_kinds(sql: &str) -> (r: bool)
    ensures
        r == is_narrow(sql@),
{
    !(text_contains(sql, "'prepare_target'") && text_contains(sql, "'create_session'")
        && text_contains(sql, "'dispose_session'"))
}

fn find_narrow_commands(tables: &Vec<TableInfo>) -> (r: bool)
    ensures
        r == has_narrow_commands(tables@),
{
    let mut i: usize = 0;
    while i < tables.len()
        invariant
            i <= tables@.len(),
            forall|j: int|
                0 <= j < i ==> !((#[trigger] tables@[j]).name@ == "ahp_commands"@ && is_narrow(
                    tables@[j].sql@,
                )),
        decreases tables@.len() - i,
    {
        if str_eq(tables[i].name.as_str(), "ahp_commands") && needs_command_kinds(
            tables[i].sql.as_str(),
        ) {
            return true;
        }
        i += 1;
    }
    false
}

fn add_columns(steps: &mut Vec<Step>, tables: &Vec<TableInfo>, columns: &Vec<Column>)
    ensures
        actions(final(steps)@) == actions(old(steps)@) + added(
            tables@,
            values(columns@),
            columns@.len(),
        ),
{
    let ghost before = actions(steps@);
    let ghost all = values(columns@);
    let mut i: usize = 0;
    assert(before + added(tables@, all, 0) =~= before);
    while i < columns.len()
        invariant
            i <= columns@.len(),
            all == values(columns@),
            actions(steps@) == before + added(tables@, all, i as nat),
        decreases columns@.len() - i,
    {
        let c = &columns[i];
        let ghost old_steps = steps@;
        assert(all[i as int] == (c.table@, c.name@, c.definition@));
        if !find_column(tables, c.table, c.name) {
            let mut text = cat("ALTER TABLE ", c.table);
            text = cat(text.as_str(), " ADD COLUMN ");
            text = cat(text.as_str(), c.name);
            text = cat(text.as_str(), " ");
            text = cat(text.as_str(), c.definition);
            assert(text@ == statement(all[i as int]));
            steps.push(Step::AddColumn(text));
            assert(actions(steps@) =~= actions(old_steps).push(
                Action::AddColumn(statement(all[i as int])),
            ));
            assert(actions(steps@) =~= before + added(tables@, all, (i + 1) as nat));
        } else {
            assert(added(tables@, all, (i + 1) as nat) == added(tables@, all, i as nat));
        }
        i += 1;
    }
}

fn add_step(steps: &mut Vec<Step>, step: Step)
    ensures
        actions(final(steps)@) == actions(old(steps)@).push(step@),
{
    let ghost before = steps@;
    steps.push(step);
    assert(actions(steps@) =~= actions(before).push(step@));
}

/// The steps that bring the tables up to date.
pub fn migrate_ahp_schema(tables: &Vec<TableInfo>) -> (r: Vec<Step>)
    ensures
        actions(r@) == plan(tables@),
{
    let mut steps: Vec<Step> = Vec::new();
    assert(actions(steps@) =~= Seq::<Action>::empty());
    let ghost one = added(tables@, early_columns(), early_columns().len());
    let ghost two = added(tables@, late_columns(), late_columns().len());
    let legacy = find_table(tables, "ahp_binding");
    if legacy {
        let columns = list_legacy_columns();
        assert(columns@.len() == legacy_columns().len()) by {
            assert(values(columns@).len() == columns@.len());
        }
        add_columns(&mut steps, tables, &columns);
    }
    let ghost old = actions(steps@);
    let columns = list_early_columns();
    assert(columns@.len() == early_columns().len()) by {
        assert(values(columns@).len() == columns@.len());
    }
    add_columns(&mut steps, tables, &columns);
    if legacy {
        add_step(&mut steps, Step::TakeOverBinding);
    }
    let ghost part = actions(steps@);
    let columns = list_late_columns();
    assert(columns@.len() == late_columns().len()) by {
        assert(values(columns@).len() == columns@.len());
    }
    add_columns(&mut steps, tables, &columns);
    if find_narrow_commands(tables) {
        add_step(&mut steps, Step::WidenCommands);
    }
    add_step(&mut steps, Step::FillButtons);
    add_step(&mut steps, Step::FillCodes);
    add_step(&mut steps, Step::MakeIndexes);
    assert(actions(steps@) =~= plan(tables@));
    steps
}

/// Tables that are up to date stay as they are: only what is missing is filled
/// in.
pub proof fn current_tables_gain_no_columns(tables: Seq<TableInfo>)
    requires
        !has_table(tables, "ahp_binding"@),
        !has_narrow_commands(tables),
        forall|i: int|
            0 <= i < early_columns().len() ==> has_column(
                tables,
                (#[trigger] early_columns()[i]).0,
                early_columns()[i].1,
            ),
        forall|i: int|
            0 <= i < late_columns().len() ==> has_column(
                tables,
                (#[trigger] late_columns()[i]).0,
                late_columns()[i].1,
            ),
    ensures
        plan(tables) == seq![Action::FillButtons, Action::FillCodes, Action::MakeIndexes],
{
    lemma_nothing_added(tables, early_columns(), early_columns().len());
    lemma_nothing_added(tables, late_columns(), late_columns().len());
    assert(plan(tables) =~= seq![Action::FillButtons, Action::FillCodes, Action::MakeIndexes]);
}

proof fn lemma_nothing_added(
    tables: Seq<TableInfo>,
    columns: Seq<(Seq<char>, Seq<char>, Seq<char>)>,
    n: nat,
)
    requires
        n <= columns.len(),
        forall|i: int|
            0 <= i < columns.len() ==> has_column(
                tables,
                (#[trigger] columns[i]).0,
                columns[i].1,
            ),
    ensures
        added(tables, columns, n) == Seq::<Action>::empty(),
    decreases n,
{
    if n > 0 {
        lemma_nothing_added(tables, columns, (n - 1) as nat);
        assert(has_column(tables, columns[n - 1].0, columns[n - 1].1));
    }
}

// ---------------------------------------------------------------------------
// The one tracked session

/// The one tracked session of an earlier release.
#[derive(Debug)]
pub struct LegacyBinding {
    pub generation: i64,
    pub endpoint_id: String,
    pub host_instance_id: Option<String>,
    pub session_uri: String,
    pub chat_uri: Option<String>,
    pub state: String,
    pub last_server_sequence: i64,
    pub active_turn_id: Option<String>,
    pub queued_message_count: i64,
    pub error_code: Option<String>,
    pub updated_at: i64,
}

/// The identifier that the one tracked session gets.
pub open spec fn legacy_id(uri: Seq<char>) -> Seq<char> {
    "legacy-"@ + text_hash(uri).take(24)
}

/// Whether the row is the one tracked session.
pub open spec fn takes_over(r: BindingRow, l: LegacyBinding) -> bool {
    &&& r.binding_id@ == legacy_id(l.session_uri@)
    &&& r.generation == l.generation
    &&& r.endpoint_id == l.endpoint_id
    &&& r.host_instance_id == l.host_instance_id
    &&& r.session_uri == l.session_uri
    &&& r.chat_uri == l.chat_uri
    &&& r.state.label() == l.state@
    &&& r.last_server_sequence == l.last_server_sequence
    &&& r.active_turn_id == l.active_turn_id
    &&& r.queued_message_count == l.queued_message_count
    &&& r.error_code == l.error_code
    &&& r.last_activity_at == l.updated_at
    &&& r.created_at == l.updated_at
    &&& r.updated_at == l.updated_at
}

/// Whether a tracked session has that identifier or that address.
pub open spec fn is_taken(rows: Seq<BindingRow>, id: Seq<char>, uri: Seq<char>) -> bool {
    exists|i: int|
        0 <= i < rows.len() && ((#[trigger] rows[i]).binding_id@ == id || rows[i].session_uri@ == uri)
}

/// Whether the text names a state of a tracked session.
pub open spec fn names_state(state: Seq<char>) -> bool {
    exists|s: BindingState| #[trigger] s.label() == state
}

/// Whether `b` is `a` with the one tracked session among them, unless one has its
/// place.
pub open spec fn legacy_added(a: Seq<BindingRow>, b: Seq<BindingRow>, l: LegacyBinding) -> bool {
    if is_taken(a, legacy_id(l.session_uri@), l.session_uri@) || !names_state(l.state@) {
        b == a
    } else {
        b == a.push(b.last()) && takes_over(b.last(), l)
    }
}

/// Whether the number is in the list.
pub open spec fn has_number(list: Seq<i64>, n: i64) -> bool {
    exists|i: int| 0 <= i < list.len() && #[trigger] list[i] == n
}

fn lists_number(list: &Vec<i64>, n: i64) -> (r: bool)
    ensures
        r == has_number(list@, n),
{
    let mut i: usize = 0;
    while i < list.len()
        invariant
            i <= list@.len(),
            forall|j: int| 0 <= j < i ==> #[trigger] list@[j] != n,
        decreases list@.len() - i,
    {
        if list[i] == n {
            return true;
        }
        i += 1;
    }
    false
}

/// The command of an earlier release: it goes to the one tracked session where it
/// is of its time, else it has failed.
pub open spec fn command_settled(
    p: CommandRow,
    q: CommandRow,
    unbound: Seq<i64>,
    heir: Option<(Seq<char>, i64)>,
    now: i64,
) -> bool {
    if !has_number(unbound, p.command_id) {
        q == p
    } else {
        match heir {
            Some((id, generation)) if generation == p.binding_generation => q == (CommandRow {
                binding_id: q.binding_id,
                ..p
            }) && q.binding_id@ == id,
            _ => if is_open_command(p) {
                q == (CommandRow {
                    state: CommandState::Failed,
                    error_code: q.error_code,
                    updated_at: now,
                    ..p
                }) && opt_view(q.error_code) == Some("binding_migration_unresolved"@)
            } else {
                q == p
            },
        }
    }
}

/// The event of an earlier release: it is of the one tracked session where it is
/// of its time.
pub open spec fn event_settled(
    p: EventRow,
    q: EventRow,
    unbound: Seq<String>,
    heir: Option<(Seq<char>, i64)>,
) -> bool {
    match heir {
        Some((id, generation)) if generation == p.binding_generation && is_listed(
            unbound,
            p.event_id@,
        ) => q == (EventRow { binding_id: q.binding_id, ..p }) && q.binding_id@ == id,
        _ => q == p,
    }
}

/// The tracked session at that address.
pub open spec fn bound_at(rows: Seq<BindingRow>, uri: Seq<char>, i: int) -> bool {
    0 <= i < rows.len() && rows[i].session_uri@ == uri
}

/// What comes of taking over the one tracked session, with the commands and
/// events that were not bound to any.
pub open spec fn take_over_outcome(
    a: Database,
    b: Database,
    legacy: Option<LegacyBinding>,
    commands: Seq<i64>,
    events: Seq<String>,
    now: i64,
    r: Result<(), Failure>,
) -> bool {
    match legacy {
        None => {
            &&& r matches Ok(())
            &&& b == (Database { commands: b.commands, ..a })
            &&& changed(
                a.commands@,
                b.commands@,
                |p: CommandRow, q: CommandRow| command_settled(p, q, commands, None, now),
            )
        },
        Some(l) => if (forall|i: int| !#[trigger] bound_at(a.bindings@, l.session_uri@, i)) && (
        is_taken(a.bindings@, legacy_id(l.session_uri@), l.session_uri@) || !names_state(l.state@)) {
            b == a && (r matches Err(f) && f.message@ == "Query returned no rows"@)
        } else {
            &&& r matches Ok(())
            &&& b == (Database {
                bindings: b.bindings,
                foreground: b.foreground,
                commands: b.commands,
                events: b.events,
                ..a
            })
            &&& legacy_added(a.bindings@, b.bindings@, l)
            &&& exists|i: int|
                {
                    let heir = Some((b.bindings@[i].binding_id@, l.generation));
                    &&& #[trigger] bound_at(b.bindings@, l.session_uri@, i)
                    &&& b.foreground matches Some(f) && f.binding_id@ == b.bindings@[i].binding_id@
                        && f.updated_at == l.updated_at
                    &&& changed(
                        a.commands@,
                        b.commands@,
                        |p: CommandRow, q: CommandRow|
                            command_settled(p, q, commands, heir, now),
                    )
                    &&& changed(
                        a.events@,
                        b.events@,
                        |p: EventRow, q: EventRow| event_settled(p, q, events, heir),
                    )
                }
        },
    }
}

fn settle_commands(
    rows: &mut Vec<CommandRow>,
    unbound: &Vec<i64>,
    heir: Option<(&str, i64)>,
    Ghost(shown): Ghost<Option<(Seq<char>, i64)>>,
    now: i64,
)
    requires
        match heir {
            Some((id, generation)) => shown == Some((id@, generation)),
            None => shown is None,
        },
    ensures
        changed(
            old(rows)@,
            final(rows)@,
            |p: CommandRow, q: CommandRow| command_settled(p, q, unbound@, shown, now),
        ),
{
    let ghost a = rows@;
    let mut i: usize = 0;
    while i < rows.len()
        invariant
            i <= rows@.len(),
            rows@.len() == a.len(),
            match heir {
                Some((id, generation)) => shown == Some((id@, generation)),
                None => shown is None,
            },
            forall|j: int|
                0 <= j < i ==> command_settled(a[j], #[trigger] rows@[j], unbound@, shown, now),
            forall|j: int| i <= j < rows@.len() ==> #[trigger] rows@[j] == a[j],
        decreases rows@.len() - i,
    {
        if lists_number(unbound, rows[i].command_id) {
            let taken = match heir {
                Some((id, generation)) => if generation == rows[i].binding_generation {
                    Some(id)
                } else {
                    None
                },
                None => None,
            };
            match taken {
                Some(id) => {
                    rows[i].binding_id = id.to_owned();
                },
                None => {
                    if rows[i].state == CommandState::Pending || rows[i].state
                        == CommandState::Leased {
                        rows[i].state = CommandState::Failed;
                        rows[i].error_code = Some("binding_migration_unresolved".to_owned());
                        rows[i].updated_at = now;
                    }
                },
            }
        }
        i += 1;
    }
}

fn settle_events(
    rows: &mut Vec<EventRow>,
    unbound: &Vec<String>,
    id: &str,
    generation: i64,
    Ghost(heir): Ghost<Option<(Seq<char>, i64)>>,
)
    requires
        heir == Some((id@, generation)),
    ensures
        changed(
            old(rows)@,
            final(rows)@,
            |p: EventRow, q: EventRow| event_settled(p, q, unbound@, heir),
        ),
{
    let ghost a = rows@;
    let mut i: usize = 0;
    while i < rows.len()
        invariant
            i <= rows@.len(),
            rows@.len() == a.len(),
            heir == Some((id@, generation)),
            forall|j: int| 0 <= j < i ==> event_settled(a[j], #[trigger] rows@[j], unbound@, heir),
            forall|j: int| i <= j < rows@.len() ==> #[trigger] rows@[j] == a[j],
        decreases rows@.len() - i,
    {
        if rows[i].binding_generation == generation && lists_text(
            unbound,
            rows[i].event_id.as_str(),
        ) {
            rows[i].binding_id = id.to_owned();
        }
        i += 1;
    }
}

fn any_taken(rows: &Vec<BindingRow>, id: &str, uri: &str) -> (r: bool)
    ensures
        r == is_taken(rows@, id@, uri@),
{
    let mut i: usize = 0;
    while i < rows.len()
        invariant
            i <= rows@.len(),
            forall|j: int|
                0 <= j < i ==> !((#[trigger] rows@[j]).binding_id@ == id@ || rows@[j].session_uri@
                    == uri@),
        decreases rows@.len() - i,
    {
        if str_eq(rows[i].binding_id.as_str(), id) || str_eq(rows[i].session_uri.as_str(), uri) {
            return true;
        }
        i += 1;
    }
    false
}

fn find_bound(rows: &Vec<BindingRow>, uri: &str) -> (r: Option<usize>)
    ensures
        match r {
            Some(i) => bound_at(rows@, uri@, i as int),
            None => forall|i: int| !#[trigger] bound_at(rows@, uri@, i),
        },
{
    let mut i: usize = 0;
    while i < rows.len()
        invariant
            i <= rows@.len(),
            forall|j: int| 0 <= j < i ==> (#[trigger] rows@[j]).session_uri@ != uri@,
        decreases rows@.len() - i,
    {
        if str_eq(rows[i].session_uri.as_str(), uri) {
            return Some(i);
        }
        i += 1;
    }
    None
}

impl Database {
    /// Takes over the one tracked session of an earlier release: it comes to the
    /// foreground, and gets the commands and events of its time. Commands that
    /// nobody gets have failed.
    pub fn migrate_legacy_binding(
        &mut self,
        legacy: Option<LegacyBinding>,
        unbound_commands: &Vec<i64>,
        unbound_events: &Vec<String>,
        now: i64,
    ) -> (r: Result<(), Failure>)
        requires
            old(self).wf(),
        ensures
            final(self).wf(),
            take_over_outcome(
                *old(self),
                *final(self),
                legacy,
                unbound_commands@,
                unbound_events@,
                now,
                r,
            ),
    {
        let ghost a = *self;
        let l = match legacy {
            None => {
                settle_commands(&mut self.commands, unbound_commands, None, Ghost(None), now);
                proof {
                    lemma_same_commands(
                        a.commands@,
                        self.commands@,
                        self.next_command_id,
                    );
                }
                return Ok(());
            },
            Some(l) => l,
        };
        let hash = sha256_hex(l.session_uri.as_str().as_bytes());
        let chars = chars_of(hash.as_str());
        let start = slice_text(&chars, 0, 24);
        let id = cat("legacy-", start.as_str());
        assert(hash@.subrange(0, 24) =~= hash@.take(24));
        assert(id@ == legacy_id(l.session_uri@));
        let state = BindingState::from_label(l.state.as_str());
        let taken = any_taken(&self.bindings, id.as_str(), l.session_uri.as_str());
        let known = find_bound(&self.bindings, l.session_uri.as_str());
        assert(state is None ==> !names_state(l.state@));
        if known.is_none() && (taken || state.is_none()) {
            return Err(failure("Query returned no rows"));
        }
        match state {
            Some(state) => {
                assert(state.label() == l.state@);
                if !taken {
                    self.bindings.push(
                        BindingRow {
                            binding_id: id,
                            generation: l.generation,
                            endpoint_id: l.endpoint_id.clone(),
                            host_instance_id: l.host_instance_id.clone(),
                            session_uri: l.session_uri.clone(),
                            chat_uri: l.chat_uri.clone(),
                            state,
                            last_server_sequence: l.last_server_sequence,
                            active_turn_id: l.active_turn_id.clone(),
                            queued_message_count: l.queued_message_count,
                            error_code: l.error_code.clone(),
                            last_activity_at: l.updated_at,
                            created_at: l.updated_at,
                            updated_at: l.updated_at,
                        },
                    );
                    assert(bound_at(
                        self.bindings@,
                        l.session_uri@,
                        self.bindings@.len() - 1,
                    ));
                } else {
                    assert(self.bindings@ == a.bindings@);
                }
            },
            None => {},
        }
        let found = find_bound(&self.bindings, l.session_uri.as_str());
        let at = found.unwrap();
        let migrated = self.bindings[at].binding_id.clone();
        let ghost heir = Some((self.bindings@[at as int].binding_id@, l.generation));
        self.foreground = Some(
            ForegroundRow { binding_id: migrated.clone(), updated_at: l.updated_at },
        );
        settle_commands(
            &mut self.commands,
            unbound_commands,
            Some((migrated.as_str(), l.generation)),
            Ghost(heir),
            now,
        );
        settle_events(
            &mut self.events,
            unbound_events,
            migrated.as_str(),
            l.generation,
            Ghost(heir),
        );
        proof {
            lemma_same_commands(
                a.commands@,
                self.commands@,
                self.next_command_id,
            );
            assert(bound_at(self.bindings@, l.session_uri@, at as int));
            assert forall|i: int, j: int| 0 <= i < j < self.bindings@.len() implies (
            #[trigger] self.bindings@[i]).binding_id@ != (#[trigger] self.bindings@[j]).binding_id@
                && self.bindings@[i].session_uri@ != self.bindings@[j].session_uri@ by {
                if j < a.bindings@.len() {
                    assert(a.bindings@[i].binding_id@ != a.bindings@[j].binding_id@);
                    assert(a.bindings@[i].session_uri@ != a.bindings@[j].session_uri@);
                } else {
                    assert(!(a.bindings@[i].binding_id@ == legacy_id(l.session_uri@)));
                }
            }
            assert forall|i: int, j: int| 0 <= i < j < self.events@.len() implies (
            #[trigger] self.events@[i]).event_id@ != (#[trigger] self.events@[j]).event_id@ by {
                assert(a.events@[i].event_id@ != a.events@[j].event_id@);
            }
        }
        Ok(())
    }
}

// ---------------------------------------------------------------------------
// What is missing

/// The approval after it got the buttons that it lacked.
pub open spec fn buttons_filled(p: DecisionRow, q: DecisionRow) -> bool {
    if p.allow_button_data@.len() == 0 || p.deny_button_data@.len() == 0 {
        &&& q == (DecisionRow {
            allow_button_data: q.allow_button_data,
            deny_button_data: q.deny_button_data,
            ..p
        })
        &&& is_token(q.allow_button_data@, "appr_"@)
        &&& is_token(q.deny_button_data@, "rejt_"@)
    } else {
        q == p
    }
}

/// Gives approvals the buttons that they lack.
pub fn fill_button_data(rows: &mut Vec<DecisionRow>)
    ensures
        final(rows)@.len() == old(rows)@.len(),
        forall|i: int|
            0 <= i < old(rows)@.len() ==> buttons_filled(
                old(rows)@[i],
                #[trigger] final(rows)@[i],
            ),
{
    let ghost a = rows@;
    let mut i: usize = 0;
    while i < rows.len()
        invariant
            i <= rows@.len(),
            rows@.len() == a.len(),
            forall|j: int| 0 <= j < i ==> buttons_filled(a[j], #[trigger] rows@[j]),
            forall|j: int| i <= j < rows@.len() ==> #[trigger] rows@[j] == a[j],
        decreases rows@.len() - i,
    {
        if rows[i].allow_button_data.as_str().is_empty()
            || rows[i].deny_button_data.as_str().is_empty() {
            let allow = draw_token("appr_");
            let deny = draw_token("rejt_");
            rows[i].allow_button_data = allow;
            rows[i].deny_button_data = deny;
        }
        i += 1;
    }
}

/// The codes of the sessions.
pub open spec fn codes_of(rows: Seq<CatalogRow>) -> Seq<Seq<char>> {
    rows.map_values(|r: CatalogRow| r.short_code@)
}

/// The codes of the sessions once the first `k` of them got those that they lacked,
/// where these were drawn for each: the first that no session has.
pub open spec fn codes_after(codes: Seq<Seq<char>>, drawn: Seq<Vec<String>>, k: nat) -> Seq<Seq<char>>
    decreases k,
{
    if k == 0 {
        codes
    } else {
        let earlier = codes_after(codes, drawn, (k - 1) as nat);
        if earlier[k - 1].len() > 0 {
            earlier
        } else {
            match first(drawn[k - 1]@, none_of(earlier)) {
                None => earlier,
                Some(s) => earlier.update(k - 1, s@),
            }
        }
    }
}

/// Whether the first `n` sessions got the codes that they lacked, and nothing else
/// was done.
pub open spec fn codes_filled(
    a: Seq<CatalogRow>,
    b: Seq<CatalogRow>,
    drawn: Seq<Vec<String>>,
    n: nat,
) -> bool {
    &&& n <= a.len() == b.len()
    &&& codes_of(b) == codes_after(codes_of(a), drawn, n)
    &&& forall|i: int|
        #![trigger b[i]]
        0 <= i < a.len() ==> b[i] == (CatalogRow { short_code: b[i].short_code, ..a[i] })
    &&& forall|i: int| 0 <= i < n ==> (#[trigger] b[i]).short_code@.len() > 0
}

/// What comes of giving sessions the codes that they lack, where these were drawn for
/// each of them: all get one, or those before the first for which none is free.
pub open spec fn fill_outcome(
    a: Seq<CatalogRow>,
    b: Seq<CatalogRow>,
    drawn: Seq<Vec<String>>,
    r: Result<(), Failure>,
) -> bool {
    match r {
        Ok(()) => codes_filled(a, b, drawn, a.len()),
        Err(f) => {
            &&& f.message@ == "failed to allocate a unique AHP Session code"@
            &&& exists|n: nat|
                {
                    &&& #[trigger] codes_filled(a, b, drawn, n)
                    &&& n < a.len()
                    &&& b[n as int].short_code@.len() == 0
                    &&& first(drawn[n as int]@, none_of(codes_of(b))) is None
                }
        },
    }
}

/// Whether codes were drawn for each of the sessions that lack one.
pub open spec fn are_missing_draws(rows: Seq<CatalogRow>, drawn: Seq<Vec<String>>) -> bool {
    &&& drawn.len() == rows.len()
    &&& forall|k: int|
        0 <= k < drawn.len() && rows[k].short_code@.len() == 0 ==> are_codes(
            (#[trigger] drawn[k])@,
            Some('A'),
            4,
        )
}

/// Gives sessions the codes that they lack.
pub fn fill_session_codes(rows: &mut Vec<CatalogRow>) -> (r: Result<(), Failure>)
    ensures
        exists|drawn: Seq<Vec<String>>|
            are_missing_draws(old(rows)@, drawn) && #[trigger] fill_outcome(
                old(rows)@,
                final(rows)@,
                drawn,
                r,
            ),
{
    let mut drawn: Vec<Vec<String>> = Vec::new();
    while drawn.len() < rows.len()
        invariant
            drawn@.len() <= rows@.len(),
            *rows == *old(rows),
            forall|k: int|
                0 <= k < drawn@.len() && rows@[k].short_code@.len() == 0 ==> are_codes(
                    (#[trigger] drawn@[k])@,
                    Some('A'),
                    4,
                ),
        decreases rows@.len() - drawn@.len(),
    {
        let k: usize = drawn.len();
        if rows[k].short_code.as_str().is_empty() {
            drawn.push(draw_codes(Some('A'), 4));
        } else {
            drawn.push(Vec::new());
        }
    }
    fill_with_codes(rows, &drawn)
}

/// Gives sessions the codes that they lack: each the first of those drawn for it that
/// no session has.
pub fn fill_with_codes(rows: &mut Vec<CatalogRow>, drawn: &Vec<Vec<String>>) -> (r: Result<
    (),
    Failure,
>)
    requires
        old(rows)@.len() <= drawn@.len(),
    ensures
        fill_outcome(old(rows)@, final(rows)@, drawn@, r),
{
    let ghost a = rows@;
    let mut i: usize = 0;
    while i < rows.len()
        invariant
            i <= rows@.len() <= drawn@.len(),
            a == old(rows)@,
            codes_filled(a, rows@, drawn@, i as nat),
        decreases rows@.len() - i,
    {
        let ghost before = rows@;
        assert(codes_of(before)[i as int] == before[i as int].short_code@);
        if rows[i].short_code.as_str().is_empty() {
            match find_free_code(rows, &drawn[i]) {
                None => {
                    assert(codes_filled(a, rows@, drawn@, i as nat));
                    return Err(failure("failed to allocate a unique AHP Session code"));
                },
                Some(k) => {
                    let code = drawn[i][k].clone();
                    proof {
                        lemma_first_holds(drawn@[i as int]@, none_of(codes_of(before)));
                        assert(codes_of(before).contains(codes_of(before)[i as int]));
                        if code@.len() == 0 {
                            assert(code@ =~= before[i as int].short_code@);
                        }
                    }
                    rows[i].short_code = code;
                    assert(codes_of(rows@) =~= codes_of(before).update(i as int, code@));
                },
            }
        }
        i += 1;
    }
    Ok(())
}

/// The place of the first of the codes that no session has.
fn find_free_code(rows: &Vec<CatalogRow>, drawn: &Vec<String>) -> (r: Option<usize>)
    ensures
        match r {
            Some(k) => k < drawn@.len() && first(drawn@, none_of(codes_of(rows@))) == Some(
                drawn@[k as int],
            ),
            None => first(drawn@, none_of(codes_of(rows@))) is None,
        },
{
    let test = |s: &String| -> (b: bool)
        ensures
            b == (none_of(codes_of(rows@)))(*s),
    { !has_session_code(rows, s.as_str()) };
    find(drawn, test, Ghost(none_of(codes_of(rows@))))
}

fn has_session_code(rows: &Vec<CatalogRow>, code: &str) -> (r: bool)
    ensures
        r == codes_of(rows@).contains(code@),
{
    let mut i: usize = 0;
    while i < rows.len()
        invariant
            i <= rows@.len(),
            forall|j: int| 0 <= j < i ==> (#[trigger] rows@[j]).short_code@ != code@,
        decreases rows@.len() - i,
    {
        if str_eq(rows[i].short_code.as_str(), code) {
            assert(codes_of(rows@)[i as int] == code@);
            return true;
        }
        i += 1;
    }
    assert forall|j: int| 0 <= j < codes_of(rows@).len() implies codes_of(rows@)[j] != code@ by {
        assert(rows@[j].short_code@ != code@);
    }
    false
}

// ---------------------------------------------------------------------------
// What bringing the tables up to date comes to

/// A column that is missing is added.
pub proof fn missing_columns_are_added(tables: Seq<TableInfo>, i: int)
    ensures
        0 <= i < early_columns().len() && !has_column(
            tables,
            early_columns()[i].0,
            early_columns()[i].1,
        ) ==> plan(tables).contains(Action::AddColumn(statement(early_columns()[i]))),
        0 <= i < late_columns().len() && !has_column(
            tables,
            late_columns()[i].0,
            late_columns()[i].1,
        ) ==> plan(tables).contains(Action::AddColumn(statement(late_columns()[i]))),
        has_table(tables, "ahp_binding"@) && 0 <= i < legacy_columns().len() && !has_column(
            tables,
            legacy_columns()[i].0,
            legacy_columns()[i].1,
        ) ==> plan(tables).contains(Action::AddColumn(statement(legacy_columns()[i]))),
        has_table(tables, "ahp_binding"@) ==> plan(tables).contains(Action::TakeOverBinding),
        has_narrow_commands(tables) ==> plan(tables).contains(Action::WidenCommands),
        plan(tables).contains(Action::FillButtons),
        plan(tables).contains(Action::FillCodes),
        plan(tables).last() == Action::MakeIndexes,
{
    let legacy = has_table(tables, "ahp_binding"@);
    let old = if legacy {
        added(tables, legacy_columns(), legacy_columns().len())
    } else {
        Seq::empty()
    };
    let early = added(tables, early_columns(), early_columns().len());
    let take_over = if legacy {
        seq![Action::TakeOverBinding]
    } else {
        Seq::empty()
    };
    let late = added(tables, late_columns(), late_columns().len());
    let widen = if has_narrow_commands(tables) {
        seq![Action::WidenCommands]
    } else {
        Seq::empty()
    };
    let end = seq![Action::FillButtons, Action::FillCodes, Action::MakeIndexes];
    let p = plan(tables);
    assert(p == old + early + take_over + late + widen + end);
    let a = old.len() as int;
    let b = a + early.len();
    let c = b + take_over.len();
    let d = c + late.len();
    let e = d + widen.len();
    assert forall|k: int| 0 <= k < old.len() implies p[k] == #[trigger] old[k] by {}
    assert forall|k: int| 0 <= k < early.len() implies p[a + k] == #[trigger] early[k] by {}
    assert forall|k: int| 0 <= k < late.len() implies p[c + k] == #[trigger] late[k] by {}
    assert(p[e] == Action::FillButtons && p[e + 1] == Action::FillCodes);
    assert(p[p.len() - 1] == Action::MakeIndexes);
    if legacy {
        assert(p[b] == Action::TakeOverBinding);
    }
    if has_narrow_commands(tables) {
        assert(p[d] == Action::WidenCommands);
    }
    if 0 <= i < early_columns().len() && !has_column(
        tables,
        early_columns()[i].0,
        early_columns()[i].1,
    ) {
        let k = lemma_added(tables, early_columns(), early_columns().len(), i);
        assert(p[a + k] == early[k]);
    }
    if 0 <= i < late_columns().len() && !has_column(
        tables,
        late_columns()[i].0,
        late_columns()[i].1,
    ) {
        let k = lemma_added(tables, late_columns(), late_columns().len(), i);
        assert(p[c + k] == late[k]);
    }
    if legacy && 0 <= i < legacy_columns().len() && !has_column(
        tables,
        legacy_columns()[i].0,
        legacy_columns()[i].1,
    ) {
        let k = lemma_added(tables, legacy_columns(), legacy_columns().len(), i);
        assert(p[k] == old[k]);
    }
}

proof fn lemma_added(
    tables: Seq<TableInfo>,
    columns: Seq<(Seq<char>, Seq<char>, Seq<char>)>,
    n: nat,
    i: int,
) -> (k: int)
    requires
        0 <= i < n <= columns.len(),
        !has_column(tables, columns[i].0, columns[i].1),
    ensures
        0 <= k < added(tables, columns, n).len(),
        added(tables, columns, n)[k] == Action::AddColumn(statement(columns[i])),
    decreases n,
{
    if i == n - 1 {
        added(tables, columns, n).len() - 1
    } else {
        let k = lemma_added(tables, columns, (n - 1) as nat, i);
        assert(added(tables, columns, n)[k] == added(tables, columns, (n - 1) as nat)[k]);
        k
    }
}

/// The one tracked session of an earlier release is among the tracked sessions afterwards
/// and in the foreground, and what was not bound goes to it where it is of its time; what
/// is left over has failed.
pub proof fn the_one_session_is_taken_over(
    a: Database,
    b: Database,
    l: LegacyBinding,
    commands: Seq<i64>,
    events: Seq<String>,
    now: i64,
    k: int,
) -> (i: int)
    requires
        take_over_outcome(a, b, Some(l), commands, events, now, Ok(())),
        0 <= k < a.commands@.len(),
    ensures
        0 <= i < b.bindings@.len(),
        b.bindings@[i].session_uri@ == l.session_uri@,
        b.foreground is Some,
        b.foreground->0.binding_id@ == b.bindings@[i].binding_id@,
        b.commands@.len() == a.commands@.len(),
        (forall|j: int|
            0 <= j < a.bindings@.len() ==> (#[trigger] a.bindings@[j]).session_uri@
                != l.session_uri@) ==> {
            let row = b.bindings@[i];
            &&& row.generation == l.generation
            &&& row.endpoint_id@ == l.endpoint_id@
            &&& row.host_instance_id == l.host_instance_id
            &&& row.chat_uri == l.chat_uri
            &&& row.last_server_sequence == l.last_server_sequence
            &&& row.active_turn_id == l.active_turn_id
            &&& row.queued_message_count == l.queued_message_count
            &&& row.error_code == l.error_code
            &&& row.last_activity_at == l.updated_at
        },
        ({
            let was = a.commands@[k];
            let then = b.commands@[k];
            let loose = exists|j: int| 0 <= j < commands.len() && #[trigger] commands[j]
                == was.command_id;
            &&& !loose ==> then == was
            &&& loose && was.binding_generation == l.generation ==> then.binding_id@
                == b.bindings@[i].binding_id@ && then.state == was.state && then.command_id
                == was.command_id
            &&& loose && was.binding_generation != l.generation && (was.state
                == CommandState::Pending || was.state == CommandState::Leased) ==> then.state
                == CommandState::Failed && opt_view(then.error_code) == Some(
                "binding_migration_unresolved"@,
            )
        }),
{
    let i = choose|i: int|
        {
            let heir = Some((b.bindings@[i].binding_id@, l.generation));
            &&& #[trigger] bound_at(b.bindings@, l.session_uri@, i)
            &&& b.foreground matches Some(f) && f.binding_id@ == b.bindings@[i].binding_id@
                && f.updated_at == l.updated_at
            &&& changed(
                a.commands@,
                b.commands@,
                |p: CommandRow, q: CommandRow| command_settled(p, q, commands, heir, now),
            )
        };
    let then = b.commands@[k];
    if forall|j: int|
        0 <= j < a.bindings@.len() ==> (#[trigger] a.bindings@[j]).session_uri@
            != l.session_uri@ {
        assert forall|j: int| !#[trigger] bound_at(a.bindings@, l.session_uri@, j) by {}
        assert(b.bindings@ == a.bindings@.push(b.bindings@.last()));
        if i < a.bindings@.len() {
            assert(a.bindings@[i] == b.bindings@[i]);
        }
    }
    i
}

/// An approval gets both buttons where it lacked one, and stays as it is where it had
/// both.
pub proof fn lacking_buttons_are_filled(p: DecisionRow, q: DecisionRow)
    requires
        buttons_filled(p, q),
    ensures
        p.allow_button_data@.len() > 0 && p.deny_button_data@.len() > 0 ==> q == p,
        q.approval_key == p.approval_key && q.state == p.state && q.short_code == p.short_code,
        q.allow_button_data@.len() > 0 && q.deny_button_data@.len() > 0,
        p.allow_button_data@.len() == 0 ==> q.allow_button_data@[0] == 'a'
            && q.deny_button_data@[0] == 'r',
{
    reveal_strlit("appr_");
    reveal_strlit("rejt_");
}

/// Sessions that have a code keep it, and each session has one in the end; nothing else
/// about a session changes.
pub proof fn lacking_codes_are_filled(a: Seq<CatalogRow>, b: Seq<CatalogRow>, drawn: Seq<Vec<String>>)
    requires
        fill_outcome(a, b, drawn, Ok(())),
    ensures
        b.len() == a.len(),
        forall|i: int|
            #![trigger b[i]]
            0 <= i < a.len() ==> {
                &&& b[i].short_code@.len() > 0
                &&& a[i].short_code@.len() > 0 ==> b[i].short_code@ == a[i].short_code@
                &&& b[i].session_uri == a[i].session_uri
                &&& b[i].title == a[i].title
                &&& b[i].available == a[i].available
            },
{
    lemma_codes_stay(codes_of(a), drawn, a.len());
    assert forall|i: int|
        #![trigger b[i]]
        0 <= i < a.len() implies {
        &&& b[i].short_code@.len() > 0
        &&& a[i].short_code@.len() > 0 ==> b[i].short_code@ == a[i].short_code@
        &&& b[i].session_uri == a[i].session_uri
        &&& b[i].title == a[i].title
        &&& b[i].available == a[i].available
    } by {
        assert(codes_of(b)[i] == b[i].short_code@);
        assert(codes_of(a)[i] == a[i].short_code@);
    }
}

proof fn lemma_codes_stay(codes: Seq<Seq<char>>, drawn: Seq<Vec<String>>, k: nat)
    requires
        k <= codes.len(),
    ensures
        codes_after(codes, drawn, k).len() == codes.len(),
        forall|i: int|
            0 <= i < codes.len() && (#[trigger] codes[i]).len() > 0 ==> codes_after(
                codes,
                drawn,
                k,
            )[i] == codes[i],
    decreases k,
{
    if k > 0 {
        lemma_codes_stay(codes, drawn, (k - 1) as nat);
    }
}

} // verus!
