//! One connection at a time: whatever is clicked and answered, every connection but the one
//! in use is closed.

use vstd::prelude::*;
use crate::config::ConnectionConfigView;
use crate::edit::{DescribedResultView, RowEditView};
use crate::error::DbErrorView;
use crate::introspect::{
    RelationDetailView, RelationInfoView, SchemaInfoView, SchemaObjectsView,
};
use crate::query::QueryOutcomeView;
use crate::settings::SettingsView;
use crate::tree::TreeItemView;
use crate::types::ConnId;
use crate::workspace::action::{ActionView, ConnAction};
use crate::workspace::conn::ConnFormView;
use crate::workspace::laws::{
    lemma_apply_finished, lemma_command, lemma_commit, lemma_ensure_loads, lemma_on_tab,
    lemma_reveal_relation, lemma_run_active_tab, lemma_run_new_query, lemma_sync_tree,
    lemma_toggle_schema, same_connection,
};
use crate::workspace::state::{EffectView, SchemaTreeView, WorkspaceView};
use crate::workspace::tab::{TabKindView, TabView};
use crate::workspace::tabs::{kind_position, relation_at};

verus! {

// ---- what touches the connection -------------------------------------------------------

/// What can open or close a connection.
pub enum Event {
    /// Something is clicked.
    Click { action: ActionView },
    /// The form for a new connection is confirmed.
    Form { form: ConnFormView },
    /// The window turns to a connection.
    Switch { cfg: ConnectionConfigView },
    /// An attempt to connect has ended.
    Connected { attempt: u64, result: Result<ConnId, DbErrorView>, cfg: ConnectionConfigView },
    /// What is to be done outside is taken out of the outbox.
    Taken,
}

/// The window after an event.
pub open spec fn after(w: WorkspaceView, event: Event) -> WorkspaceView {
    match event {
        Event::Click { action } => w.perform(action),
        Event::Form { form } => w.add_connection(form),
        Event::Switch { cfg } => w.switch_connection(cfg),
        Event::Connected { attempt, result, cfg } => w.connect_finished(attempt, result, cfg),
        Event::Taken => WorkspaceView { outbox: Seq::empty(), ..w },
    }
}

/// The window after some events.
pub open spec fn after_all(w: WorkspaceView, events: Seq<Event>) -> WorkspaceView
    decreases events.len(),
{
    if events.len() == 0 {
        w
    } else {
        after(after_all(w, events.drop_last()), events.last())
    }
}

/// The connection that an event brings.
pub open spec fn received(event: Event) -> Set<ConnId> {
    match event {
        Event::Connected { result: Ok(conn), .. } => Set::empty().insert(conn),
        _ => Set::empty(),
    }
}

/// The connections that are to be closed, by what has come into the outbox.
pub open spec fn closed(w: WorkspaceView, v: WorkspaceView) -> Set<ConnId> {
    Set::new(
        |conn: ConnId|
            exists|i: int|
                w.outbox.len() <= i < v.outbox.len() && #[trigger] v.outbox[i] == (
                EffectView::Disconnect { conn }),
    )
}

/// The connections that are open after some events: those that were received and not
/// closed.
pub open spec fn open_after(w: WorkspaceView, events: Seq<Event>) -> Set<ConnId>
    decreases events.len(),
{
    if events.len() == 0 {
        Set::empty()
    } else {
        let front = events.drop_last();
        let before = after_all(w, front);
        open_after(w, front).union(received(events.last())).difference(
            closed(before, after(before, events.last())),
        )
    }
}

/// Whether no connection is received under the identifier of one that is still open.
pub open spec fn fresh(w: WorkspaceView, events: Seq<Event>) -> bool
    decreases events.len(),
{
    events.len() == 0 || (fresh(w, events.drop_last()) && open_after(
        w,
        events.drop_last(),
    ).disjoint(received(events.last())))
}

/// The connection in use, if there is one.
pub open spec fn in_use(w: WorkspaceView) -> Set<ConnId> {
    match w.conn {
        Some(conn) => Set::empty().insert(conn),
        None => Set::empty(),
    }
}

// ---- what does not ---------------------------------------------------------------------

proof fn lemma_activate(w: WorkspaceView, idx: usize)
    ensures
        same_connection(w, w.activate_tab(idx)),
{
    if idx < w.tabs.len() {
        let v = WorkspaceView { active: Some(idx), ..w.cancel_cell_edit() };
        assert(same_connection(w, v));
        if let TabKindView::Table { schema, table } = v.tabs[idx as int].kind {
            lemma_reveal_relation(v, schema, table);
        }
    }
}

proof fn lemma_open(w: WorkspaceView, t: TabView)
    ensures
        same_connection(w, w.open_tab(t)),
{
    let pushed = WorkspaceView {
        tabs: w.tabs.push(t),
        next_tab_id: (w.next_tab_id + 1) as u64,
        ..w
    };
    lemma_activate(pushed, w.tabs.len() as usize);
}

proof fn lemma_open_table(w: WorkspaceView, schema: Seq<char>, table: Seq<char>)
    ensures
        same_connection(w, w.open_table_tab(schema, table)),
{
    match kind_position(w.tabs, TabKindView::Table { schema, table }) {
        Some(k) => {
            lemma_activate(w, k as usize);
        },
        None => {
            let t = TabView::table(w.next_tab_id, schema, table);
            lemma_open(w, t);
            let opened = w.open_tab(t);
            lemma_run_new_query(opened, w.next_tab_id, opened.table_query(w.next_tab_id));
        },
    }
}

proof fn lemma_focus_scratch(w: WorkspaceView, text: Seq<char>)
    ensures
        same_connection(w, w.focus_scratch_tab(text)),
{
    match kind_position(w.tabs, TabKindView::Scratch) {
        Some(k) => {
            lemma_activate(w, k as usize);
        },
        None => {
            lemma_open(w, TabView::scratch(w.next_tab_id, text));
        },
    }
}

/// Whatever is typed leaves the connection as it is.
pub proof fn law_input_keeps_the_connection(
    w: WorkspaceView,
    id: u64,
    text: Seq<char>,
    cursor: usize,
    items: Seq<TreeItemView>,
    selected: Option<Seq<char>>,
)
    ensures
        same_connection(w, w.editor_changed(id, text, cursor)),
        same_connection(w, w.filter_changed(id, text)),
        same_connection(w, w.apply_where(id)),
        same_connection(w, w.commit_cell_edit()),
        same_connection(w, w.cancel_cell_edit()),
        same_connection(w, w.set_filter(text)),
        same_connection(w, w.on_tree_notify(items, selected)),
        same_connection(w, w.open_selected_tree_node(selected)),
        same_connection(w, w.focus_scratch_tab(text)),
        same_connection(w, w.open_waiting()),
        same_connection(w, w.close_overlays()),
        same_connection(w, w.with_palette(!w.palette_open)),
{
    if let Some(t) = w.tab(id) {
        lemma_run_new_query(w, id, crate::workspace::query::table_sql(t));
    }
    lemma_commit(w);
    lemma_sync_tree(w.with_tree(SchemaTreeView { filter: crate::text::trim(text), ..w.tree }));
    lemma_ensure_loads(
        w.with_tree(
            SchemaTreeView {
                items,
                sel: selected,
                expanded: crate::tree::noted(
                    w.tree.expanded,
                    crate::tree::all_states(items, w.filtering()),
                ),
                ..w.tree
            },
        ),
    );
    if let Some((schema, table)) = relation_at(w.tree.meta, selected) {
        lemma_open_table(w, schema, table);
    }
    lemma_focus_scratch(w, text);
    if let Some((schema, table)) = w.pending_open {
        lemma_open_table(WorkspaceView { pending_open: None, ..w }, schema, table);
    }
}

/// Whatever is answered on a query leaves the connection as it is.
pub proof fn law_query_answers_keep_the_connection(
    w: WorkspaceView,
    id: u64,
    sql: Seq<char>,
    out: QueryOutcomeView,
    answer: Option<DescribedResultView>,
    edits: Seq<RowEditView>,
    reload: Option<Seq<char>>,
    error: Option<DbErrorView>,
)
    ensures
        same_connection(w, w.query_finished(id, sql, out)),
        same_connection(w, w.explain_finished(id, sql, out)),
        same_connection(w, w.described(id, answer)),
        same_connection(w, w.apply_finished(id, edits, sql, reload, error)),
{
    lemma_apply_finished(w, id, edits, sql, reload, error);
}

/// Whatever is answered on the schemas leaves the connection as it is.
pub proof fn law_schema_answers_keep_the_connection(
    w: WorkspaceView,
    schemas: Result<Seq<SchemaInfoView>, DbErrorView>,
    selftest: bool,
    schema: Seq<char>,
    rels: Result<Seq<RelationInfoView>, DbErrorView>,
    objects: Option<SchemaObjectsView>,
    table: Seq<char>,
    detail: Result<RelationDetailView, DbErrorView>,
)
    ensures
        same_connection(w, w.schemas_loaded(schemas, selftest)),
        same_connection(w, w.relations_loaded(schema, rels, objects)),
        same_connection(w, w.detail_loaded(schema, table, detail)),
        same_connection(w, w.selftest_ready()),
{
    if let Ok(found) = schemas {
        lemma_sync_tree(
            w.with_tree(
                SchemaTreeView {
                    schemas: found.map_values(
                        |s: SchemaInfoView| crate::workspace::schema::bare_schema(s),
                    ),
                    expanded: w.tree.expanded.insert("db"@),
                    ..w.tree
                },
            ).with_status(crate::text::decimal(found.len()) + " schema(s)"@),
        );
    }
    let here = SchemaTreeView {
        loads: w.tree.loads.remove(crate::workspace::schema::schema_id(schema)),
        ..w.tree
    };
    lemma_sync_tree(
        match rels {
            Ok(rels) => w.with_tree(
                SchemaTreeView {
                    schemas: crate::workspace::schema::with_relations(
                        here.schemas,
                        schema,
                        rels,
                        objects,
                    ),
                    expanded: here.expanded.insert(crate::workspace::schema::tables_id(schema)),
                    ..here
                },
            ),
            Err(e) => w.with_tree(here).with_status("Failed to load relations: "@ + e.shown()),
        },
    );
    let at = SchemaTreeView {
        loads: w.tree.loads.remove(crate::workspace::schema::relation_id(schema, table)),
        ..w.tree
    };
    lemma_sync_tree(
        match detail {
            Ok(d) => w.with_tree(
                SchemaTreeView {
                    schemas: crate::workspace::schema::with_detail(at.schemas, schema, table, d),
                    ..at
                },
            ),
            Err(e) => w.with_tree(at).with_status(
                "Failed to load relation detail: "@ + e.shown(),
            ),
        },
    );
}

// ---- one at a time ---------------------------------------------------------------------

/// Whether a state of the window follows another in which the connection was left: it is to
/// be closed, and there is none in use.
spec fn left(w: WorkspaceView, v: WorkspaceView) -> bool {
    &&& v.conn is None
    &&& w.conn matches Some(conn) ==> closed(w, v).contains(conn)
}

proof fn lemma_switch(w: WorkspaceView, cfg: ConnectionConfigView)
    ensures
        left(w, w.switch_connection(cfg)),
{
    let v = w.switch_connection(cfg);
    if let Some(conn) = w.conn {
        assert(v.outbox[w.outbox.len() as int] == (EffectView::Disconnect { conn }));
    }
}

proof fn lemma_on_connections(w: WorkspaceView, what: ConnAction)
    ensures
        same_connection(w, w.perform_on_connections(what)) || left(
            w,
            w.perform_on_connections(what),
        ),
{
    reveal(WorkspaceView::perform_on_connections);
    if let ConnAction::Connect { idx } = what {
        if idx < w.settings.connections.len() {
            let entry = w.settings.connections[idx as int];
            lemma_switch(
                w,
                entry.config(crate::workspace::state::password_of(w.passwords, entry.name)),
            );
        }
    }
}

proof fn lemma_click(w: WorkspaceView, action: ActionView)
    ensures
        same_connection(w, w.perform(action)) || left(w, w.perform(action)),
{
    match action {
        ActionView::OnTab { tab, what } => {
            lemma_on_tab(w, tab, what);
        },
        ActionView::OnConnections { what } => {
            lemma_on_connections(w, what);
        },
        ActionView::ToggleSchema { ix } => {
            lemma_toggle_schema(w, ix);
        },
        ActionView::OpenTable { schema, table } => {
            lemma_open_table(w, schema, table);
        },
        ActionView::ActivateTab { idx } => {
            lemma_activate(w, idx);
        },
        ActionView::CloseTab { .. } => {},
        ActionView::NewQuery => {
            let n = crate::workspace::tabs::query_tabs(w.tabs) + 1;
            lemma_open(w, TabView::query(w.next_tab_id, n));
        },
        ActionView::OpenScratch => {},
        ActionView::Run => {
            lemma_run_active_tab(w);
        },
        ActionView::Cancel => {},
        ActionView::Command { cmd } => {
            lemma_command(w, cmd);
        },
    }
}

proof fn lemma_form(w: WorkspaceView, form: ConnFormView)
    ensures
        same_connection(w, w.add_connection(form)) || left(w, w.add_connection(form)),
{
    if let Some(entry) = form.entry() {
        let saved = WorkspaceView {
            settings: SettingsView {
                connections: crate::workspace::conn::without_name(
                    w.settings.connections,
                    entry.name,
                ).push(entry),
                ..w.settings
            },
            ..w
        }.with_effect(EffectView::SaveSettings { report: false });
        let (kept, cfg) = if form.password.len() == 0 {
            (saved, entry.config(None))
        } else {
            (
                WorkspaceView {
                    passwords: saved.passwords.insert(entry.name, form.password),
                    ..saved
                }.with_effect(
                    EffectView::SavePassword { name: entry.name, password: form.password },
                ),
                entry.config(Some(form.password)),
            )
        };
        lemma_switch(kept, cfg);
        let v = w.add_connection(form);
        assert(v == kept.switch_connection(cfg));
        if let Some(conn) = w.conn {
            let i = choose|i: int|
                kept.outbox.len() <= i < v.outbox.len() && #[trigger] v.outbox[i] == (
                EffectView::Disconnect { conn });
            assert(w.outbox.len() <= i);
            assert(closed(w, v).contains(conn));
        }
    }
}

proof fn lemma_connected(
    w: WorkspaceView,
    attempt: u64,
    conn: ConnId,
    cfg: ConnectionConfigView,
)
    ensures
        ({
            let v = w.connect_finished(attempt, Ok(conn), cfg);
            if attempt == w.attempt {
                &&& v.conn == Some(conn)
                &&& forall|c: ConnId|
                    closed(w, v).contains(c) <==> w.conn == Some(c) && c != conn
            } else {
                &&& v.conn == w.conn
                &&& forall|c: ConnId| closed(w, v).contains(c) <==> c == conn
            }
        }),
{
    let v = w.connect_finished(attempt, Ok(conn), cfg);
    let n = w.outbox.len() as int;
    if attempt != w.attempt {
        assert(v.outbox[n] == (EffectView::Disconnect { conn }));
    } else if let Some(before) = w.conn {
        if before != conn {
            assert(v.outbox[n] == (EffectView::Disconnect { conn: before }));
        }
    }
}

/// However often the connection is switched, whenever the attempts to connect end and in
/// whatever order, at most one of the connections that were received is open, and it is the
/// one in use: every other one has been closed.
pub proof fn law_one_connection_at_a_time(
    settings: SettingsView,
    auto: Option<ConnectionConfigView>,
    events: Seq<Event>,
)
    ensures
        ({
            let start = WorkspaceView::opened(settings, auto);
            let w = after_all(start, events);
            &&& open_after(start, events).subset_of(in_use(w))
            &&& fresh(start, events) ==> open_after(start, events) == in_use(w)
        }),
    decreases events.len(),
{
    let start = WorkspaceView::opened(settings, auto);
    if events.len() > 0 {
        let front = events.drop_last();
        law_one_connection_at_a_time(settings, auto, front);
        let w = after_all(start, front);
        let event = events.last();
        let v = after(w, event);
        match event {
            Event::Click { action } => {
                lemma_click(w, action);
            },
            Event::Form { form } => {
                lemma_form(w, form);
            },
            Event::Switch { cfg } => {
                lemma_switch(w, cfg);
            },
            Event::Connected { attempt, result: Ok(conn), cfg } => {
                lemma_connected(w, attempt, conn, cfg);
            },
            _ => {},
        }
        assert(open_after(start, events).subset_of(in_use(v)));
        if fresh(start, events) {
            if let Event::Connected { result: Ok(conn), .. } = event {
                assert(received(event).contains(conn));
                assert(!open_after(start, front).contains(conn));
            }
            assert(open_after(start, events) =~= in_use(v));
        }
    } else {
        assert(open_after(start, events) =~= in_use(start));
    }
}

/// The connection that is taken into use is the one that was asked for last: after a switch
/// no earlier attempt can bring one, and the answer to the new attempt does.
pub proof fn law_the_last_attempt_counts(
    w: WorkspaceView,
    cfg: ConnectionConfigView,
    attempt: u64,
    conn: ConnId,
    used: ConnectionConfigView,
)
    ensures
        ({
            let v = w.switch_connection(cfg);
            let u = v.connect_finished(attempt, Ok(conn), used);
            &&& v.outbox.last() == (EffectView::Connect { attempt: v.attempt, cfg })
            &&& v.attempt != w.attempt
            &&& attempt == v.attempt ==> u.conn == Some(conn) && u.cfg == Some(cfg)
            &&& attempt != v.attempt ==> u == v.with_effect(EffectView::Disconnect { conn })
        }),
{
}

} // verus!
