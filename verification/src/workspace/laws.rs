//! What every state of the window keeps, whatever is clicked, typed or answered.

use vstd::prelude::*;
use crate::config::ConnectionConfigView;
use crate::edit::{DescribedResultView, EditTargetView, RowEditView};
use crate::error::DbErrorView;
use crate::export::{Cell, ExportFormat};
use crate::introspect::{
    RelationDetailView, RelationInfoView, SchemaInfoView, SchemaObjectsView,
};
use crate::query::QueryOutcomeView;
use crate::settings::SettingsView;
use crate::sql::{bare_query, statement_text};
use crate::tree::TreeItemView;
use crate::types::ConnId;
use crate::workspace::action::{ActionView, ConnAction, TabAction};
use crate::workspace::conn::ConnFormView;
use crate::workspace::edit::lemma_same_position;
use crate::workspace::palette::PaletteCmd;
use crate::workspace::query::{next_sort, restarted, sorted_sql};
use crate::workspace::schema::{wanted_schemas, wanted_tables};
use crate::workspace::staging::committed;
use crate::workspace::state::{
    compatible, law_log_keeps_the_most_recent, lemma_position, logged, position, EffectView,
    LogEntryView, SchemaTreeView, WorkspaceView, LOG_CAP,
};
use crate::workspace::tab::{TabKindView, TabView};
use crate::workspace::tabs::{kind_position, lemma_kind_position, relation_at};

verus! {

/// Whether two rows of tabs are the same tabs, whatever is in them.
pub open spec fn same_tabs(a: Seq<TabView>, b: Seq<TabView>) -> bool {
    &&& a.len() == b.len()
    &&& forall|i: int|
        0 <= i < a.len() ==> (#[trigger] a[i]).id == b[i].id && a[i].kind == b[i].kind
}

/// Whether a state of the window follows another with the same connection: none is opened,
/// and none is to be closed.
pub open spec fn same_connection(w: WorkspaceView, v: WorkspaceView) -> bool {
    &&& v.conn == w.conn
    &&& w.outbox.len() <= v.outbox.len()
    &&& forall|i: int| 0 <= i < w.outbox.len() ==> #[trigger] v.outbox[i] == w.outbox[i]
    &&& forall|i: int|
        w.outbox.len() <= i < v.outbox.len() ==> !((#[trigger] v.outbox[i]) is Disconnect)
}

/// Whether a state of the window follows another without a change of its row of tabs and of
/// its connection.
pub open spec fn steady(w: WorkspaceView, v: WorkspaceView) -> bool {
    &&& same_connection(w, v)
    &&& same_tabs(w.tabs, v.tabs)
    &&& v.active == w.active
    &&& v.next_tab_id == w.next_tab_id
    &&& (w.log.len() <= LOG_CAP ==> v.log.len() <= LOG_CAP)
}

proof fn lemma_steady_is_valid(w: WorkspaceView, v: WorkspaceView)
    requires
        w.valid(),
        steady(w, v),
    ensures
        v.valid(),
{
    assert forall|i: int| 0 <= i < v.tabs.len() implies (#[trigger] v.tabs[i]).id
        < v.next_tab_id by {
        assert(w.tabs[i].id == v.tabs[i].id);
    }
    assert forall|i: int, j: int| 0 <= i < j < v.tabs.len() implies compatible(
        #[trigger] v.tabs[i],
        #[trigger] v.tabs[j],
    ) by {
        assert(compatible(w.tabs[i], w.tabs[j]));
        assert(w.tabs[i].id == v.tabs[i].id);
        assert(w.tabs[j].id == v.tabs[j].id);
    }
}

proof fn lemma_steady_step(w: WorkspaceView, v: WorkspaceView, u: WorkspaceView)
    requires
        steady(w, v),
        steady(v, u),
    ensures
        steady(w, u),
{
    assert forall|i: int| 0 <= i < w.tabs.len() implies (#[trigger] w.tabs[i]).id == u.tabs[i].id
        && w.tabs[i].kind == u.tabs[i].kind by {
        assert(v.tabs[i].id == u.tabs[i].id);
    }
}

proof fn lemma_steady_tab(w: WorkspaceView, id: u64, t: TabView)
    requires
        w.tab(id) matches Some(before) ==> t.id == before.id && t.kind == before.kind,
    ensures
        steady(w, w.with_tab(id, t)),
{
    lemma_position(w.tabs, id);
}

// ---- queries ---------------------------------------------------------------------------

proof fn lemma_run_sql(w: WorkspaceView, id: u64, sql: Seq<char>)
    ensures
        steady(w, w.run_sql(id, sql)),
{
    reveal(WorkspaceView::run_sql);
    lemma_position(w.tabs, id);
}

pub(crate) proof fn lemma_run_new_query(w: WorkspaceView, id: u64, base: Seq<char>)
    ensures
        steady(w, w.run_new_query(id, base)),
{
    if let Some(t) = w.tab(id) {
        lemma_position(w.tabs, id);
        let v = w.with_tab(id, restarted(t, base)).with_effect(
            EffectView::ClearSelection { tab: id },
        ).describe_async(id, base);
        lemma_steady_tab(w, id, restarted(t, base));
        assert(steady(w, v));
        lemma_run_sql(v, id, base);
        lemma_steady_step(w, v, v.run_sql(id, base));
    }
}

proof fn lemma_run_explain(w: WorkspaceView, id: u64, sql: Seq<char>)
    ensures
        steady(w, w.run_explain(id, sql)),
{
    lemma_position(w.tabs, id);
}

pub(crate) proof fn lemma_run_active_tab(w: WorkspaceView)
    ensures
        steady(w, w.run_active_tab()),
{
    if let Some(t) = w.active_tab() {
        if t.kind is Table {
            if let Some(u) = w.tab(t.id) {
                if u.kind is Table {
                    lemma_run_new_query(w, t.id, crate::workspace::query::table_sql(u));
                }
            }
        } else {
            lemma_run_new_query(w, t.id, statement_text(t.editor, t.cursor as int));
        }
    }
}

proof fn lemma_explain_active(w: WorkspaceView, analyze: bool)
    ensures
        steady(w, w.explain_active(analyze)),
{
    let sql = bare_query(w.active_sql());
    if let Some(id) = w.active_id() {
        lemma_run_explain(
            w,
            id,
            (if analyze {
                "EXPLAIN (ANALYZE, BUFFERS) "@
            } else {
                "EXPLAIN "@
            }) + sql,
        );
    }
}

proof fn lemma_reload_data(w: WorkspaceView, id: u64)
    ensures
        steady(w, w.reload_data(id)),
{
    if let Some(t) = w.tab(id) {
        if let Some(sql) = t.base_sql {
            lemma_run_new_query(w, id, sql);
        }
    }
}

proof fn lemma_toggle_sort(w: WorkspaceView, id: u64, col: usize)
    ensures
        steady(w, w.toggle_sort(id, col)),
{
    if let Some(t) = w.tab(id) {
        lemma_position(w.tabs, id);
        let next = next_sort(t.sort_state, col);
        let v = w.with_tab(id, TabView { sort_state: next, ..t });
        lemma_steady_tab(w, id, TabView { sort_state: next, ..t });
        if let Some(base) = t.base_sql {
            let sql = sorted_sql(base, t.headers, next);
            lemma_run_sql(v, id, sql);
            lemma_steady_step(w, v, v.run_sql(id, sql));
        }
    }
}

proof fn lemma_format_active(w: WorkspaceView)
    ensures
        steady(w, w.format_active()),
{
}

// ---- edits -----------------------------------------------------------------------------

proof fn lemma_stage(w: WorkspaceView, id: u64, edit: RowEditView, target: EditTargetView)
    ensures
        steady(w, w.stage(id, edit, target)),
{
    lemma_position(w.tabs, id);
}

proof fn lemma_rows(w: WorkspaceView, id: u64)
    ensures
        steady(w, w.add_row(id)),
        steady(w, w.save_new_row(id)),
        steady(w, w.delete_current_row(id)),
{
    lemma_position(w.tabs, id);
    if let Some(t) = w.tab(id) {
        if let (Some(idx), Some(target)) = (t.new_row_idx, t.edit_target) {
            if idx < t.rows.len() {
                let values = crate::workspace::edit::filled_columns(
                    t.edit_cols,
                    t.rows[idx as int],
                );
                lemma_stage(w, id, RowEditView::Insert { values }, target);
            }
        }
        if let (Some(row), Some(target)) = (t.current_row, t.edit_target) {
            if let Some(pk) = t.row_key(row, target) {
                lemma_stage(w, id, RowEditView::Delete { pk }, target);
            }
        }
    }
}

proof fn lemma_pending(w: WorkspaceView, id: u64)
    ensures
        steady(w, w.apply_pending(id)),
        steady(w, w.cancel_pending(id)),
{
    lemma_position(w.tabs, id);
    if let Some(t) = w.tab(id) {
        let empty = TabView { pending: Seq::empty(), edited_cells: Set::empty(), ..t };
        lemma_steady_tab(w, id, empty);
        let v = w.with_tab(id, empty).with_status("Edits discarded"@);
        assert(steady(w, v));
        if let Some(sql) = t.last_sql {
            lemma_run_sql(v, id, sql);
            lemma_steady_step(w, v, v.run_sql(id, sql));
        }
    }
}

proof fn lemma_committed(t: TabView, row: usize, col: usize, value: Cell)
    ensures
        committed(t, row, col, value).id == t.id,
        committed(t, row, col, value).kind == t.kind,
{
}

pub(crate) proof fn lemma_commit(w: WorkspaceView)
    ensures
        steady(w, w.commit_cell_edit()),
{
    if let Some(id) = w.active_id() {
        lemma_position(w.tabs, id);
        if let Some(t) = w.tab(id) {
            if let Some((row, col)) = t.editing {
                let value = crate::workspace::edit::cell_of_text(w.cell_text);
                lemma_committed(t, row, col, value);
                lemma_steady_tab(w, id, committed(t, row, col, value));
            }
        }
    }
}

pub(crate) proof fn lemma_apply_finished(
    w: WorkspaceView,
    id: u64,
    edits: Seq<RowEditView>,
    sql: Seq<char>,
    reload: Option<Seq<char>>,
    error: Option<DbErrorView>,
)
    ensures
        steady(w, w.apply_finished(id, edits, sql, reload, error)),
{
    lemma_position(w.tabs, id);
    if error is None {
        let noted = w.with_log(sql, true);
        assert(steady(w, noted));
        let cleared = match noted.tab(id) {
            Some(t) => noted.with_tab(id, TabView { edited_cells: Set::empty(), ..t }),
            None => noted,
        };
        if let Some(t) = noted.tab(id) {
            lemma_steady_tab(noted, id, TabView { edited_cells: Set::empty(), ..t });
        }
        lemma_steady_step(w, noted, cleared);
        if let Some(s) = reload {
            lemma_run_sql(cleared, id, s);
            lemma_steady_step(w, cleared, cleared.run_sql(id, s));
        }
    }
}

// ---- the tree --------------------------------------------------------------------------

/// Whether a state of the window differs from another in its tree, its status and what is
/// to be done outside, and in nothing else.
pub open spec fn same_but_tree(w: WorkspaceView, v: WorkspaceView) -> bool {
    &&& v == (WorkspaceView { tree: v.tree, status: v.status, outbox: v.outbox, ..w })
    &&& same_connection(w, v)
}

proof fn lemma_load_each(w: WorkspaceView, schemas: Seq<Seq<char>>)
    ensures
        same_but_tree(w, w.load_each(schemas)),
    decreases schemas.len(),
{
    if schemas.len() > 0 {
        lemma_load_each(w, schemas.drop_last());
    }
}

proof fn lemma_detail_each(w: WorkspaceView, tables: Seq<(Seq<char>, Seq<char>)>)
    ensures
        same_but_tree(w, w.detail_each(tables)),
    decreases tables.len(),
{
    if tables.len() > 0 {
        lemma_detail_each(w, tables.drop_last());
    }
}

pub(crate) proof fn lemma_ensure_loads(w: WorkspaceView)
    ensures
        same_but_tree(w, w.ensure_loads()),
{
    let ws = wanted_schemas(w.tree.schemas, w.tree.expanded, w.tree.loads, w.filtering());
    let wt = wanted_tables(w.tree.schemas, w.tree.expanded, w.tree.loads);
    lemma_load_each(w, ws);
    lemma_detail_each(w.load_each(ws), wt);
}

/// Building the tree anew changes nothing but the tree.
pub proof fn lemma_sync_tree(w: WorkspaceView)
    ensures
        same_but_tree(w, w.sync_tree()),
{
    reveal(WorkspaceView::sync_tree);
    lemma_ensure_loads(w);
}

pub(crate) proof fn lemma_reveal_relation(w: WorkspaceView, schema: Seq<char>, table: Seq<char>)
    ensures
        same_but_tree(w, w.reveal_relation(schema, table)),
{
    if w.conn is Some {
        let v = w.with_tree(
            SchemaTreeView {
                expanded: w.tree.expanded.insert("db"@).insert(
                    crate::workspace::schema::schema_id(schema),
                ).insert(crate::workspace::schema::tables_id(schema)),
                pending_reveal: Some(crate::workspace::schema::relation_id(schema, table)),
                ..w.tree
            },
        );
        lemma_sync_tree(v);
    }
}

pub(crate) proof fn lemma_toggle_schema(w: WorkspaceView, ix: usize)
    ensures
        same_but_tree(w, w.toggle_schema(ix)),
{
    if ix < w.tree.schemas.len() {
        let id = crate::workspace::schema::schema_id(w.tree.schemas[ix as int].name);
        let open = w.tree.expanded;
        lemma_sync_tree(
            w.with_tree(
                SchemaTreeView {
                    expanded: if open.contains(id) {
                        open.remove(id)
                    } else {
                        open.insert(id)
                    },
                    ..w.tree
                },
            ),
        );
    }
}

// ---- tabs ------------------------------------------------------------------------------

proof fn lemma_activate(w: WorkspaceView, idx: usize)
    requires
        w.valid(),
    ensures
        w.activate_tab(idx).valid(),
        w.activate_tab(idx).next_tab_id == w.next_tab_id,
{
    if idx < w.tabs.len() {
        let v = WorkspaceView { active: Some(idx), ..w.cancel_cell_edit() };
        let same = WorkspaceView { active: w.active, ..v };
        assert(steady(w, same));
        lemma_steady_is_valid(w, same);
        assert(v.valid());
        if let TabKindView::Table { schema, table } = v.tabs[idx as int].kind {
            lemma_reveal_relation(v, schema, table);
        }
        lemma_steady_is_valid(v, w.activate_tab(idx));
    }
}

proof fn lemma_open_tab(w: WorkspaceView, t: TabView)
    requires
        w.valid(),
        w.next_tab_id < u64::MAX,
        t.id == w.next_tab_id,
        forall|i: int| 0 <= i < w.tabs.len() ==> compatible(#[trigger] w.tabs[i], t),
        w.tabs.len() < usize::MAX,
    ensures
        w.open_tab(t).valid(),
{
    let first = WorkspaceView {
        tabs: w.tabs.push(t),
        next_tab_id: (w.next_tab_id + 1) as u64,
        active: Some(w.tabs.len() as usize),
        ..w
    };
    assert forall|i: int, j: int| 0 <= i < j < first.tabs.len() implies compatible(
        #[trigger] first.tabs[i],
        #[trigger] first.tabs[j],
    ) by {
        if j == w.tabs.len() {
            assert(first.tabs[i] == w.tabs[i]);
        } else {
            assert(first.tabs[i] == w.tabs[i] && first.tabs[j] == w.tabs[j]);
        }
    }
    assert forall|i: int| 0 <= i < first.tabs.len() implies (#[trigger] first.tabs[i]).id
        < first.next_tab_id by {
        if i < w.tabs.len() {
            assert(first.tabs[i] == w.tabs[i]);
        }
    }
    assert(first.valid());
    // The same with the tab that was active before, which is the last step but one.
    let pushed = WorkspaceView { active: w.active, ..first };
    let at = w.tabs.len() as usize;
    let v = WorkspaceView { active: Some(at), ..pushed.cancel_cell_edit() };
    assert(steady(first, v));
    lemma_steady_is_valid(first, v);
    if let TabKindView::Table { schema, table } = v.tabs[at as int].kind {
        lemma_reveal_relation(v, schema, table);
    }
    lemma_steady_is_valid(v, w.open_tab(t));
}

/// Closing a tab leaves the others as they are, in their order. Closing another one than
/// the active one leaves the active one active; closing the active one makes the tab in its
/// place active, or the last one, or none where it was the only one.
pub proof fn law_closing_a_tab(w: WorkspaceView, id: u64)
    requires
        w.valid(),
        w.tabs.len() <= usize::MAX,
        w.tab(id) is Some,
    ensures
        ({
            let k = position(w.tabs, id)->0;
            let v = w.close_tab(id);
            &&& v.valid()
            &&& v.tabs == w.tabs.remove(k)
            &&& v.tab(id) is None
            &&& w.active_id() != Some(id) ==> v.active_id() == w.active_id()
            &&& w.active_id() == Some(id) && w.tabs.len() == 1 ==> v.active is None
            &&& w.active_id() == Some(id) && k < w.tabs.len() - 1 ==> v.active_id() == Some(
                w.tabs[k + 1].id,
            )
            &&& w.active_id() == Some(id) && k == w.tabs.len() - 1 && k > 0 ==> v.active_id()
                == Some(w.tabs[k - 1].id)
        }),
{
    lemma_position(w.tabs, id);
    let k = position(w.tabs, id)->0;
    let v = w.close_tab(id);
    let rest = w.tabs.remove(k);
    assert forall|i: int, j: int| 0 <= i < j < rest.len() implies compatible(
        #[trigger] rest[i],
        #[trigger] rest[j],
    ) by {
        let a = if i < k {
            i
        } else {
            i + 1
        };
        let b = if j < k {
            j
        } else {
            j + 1
        };
        assert(rest[i] == w.tabs[a] && rest[j] == w.tabs[b]);
        assert(compatible(w.tabs[a], w.tabs[b]));
    }
    assert forall|i: int| 0 <= i < rest.len() implies (#[trigger] rest[i]).id
        < w.next_tab_id && rest[i].id != id by {
        let a = if i < k {
            i
        } else {
            i + 1
        };
        assert(rest[i] == w.tabs[a]);
        if a < k {
            assert(compatible(w.tabs[a], w.tabs[k]));
        } else {
            assert(compatible(w.tabs[k], w.tabs[a]));
        }
    }
    lemma_position(rest, id);
    let at = w.active->0 as int;
    let aid = w.active_id()->0;
    if aid != id {
        let b = if at < k {
            at
        } else {
            at - 1
        };
        assert(rest[b] == w.tabs[at]);
        lemma_position(rest, aid);
        let m = position(rest, aid)->0;
        assert(rest[m].id == aid);
    } else {
        // Identifiers differ, so that the active tab is the one that is closed.
        if at < k {
            assert(compatible(w.tabs[at], w.tabs[k]));
        } else if at > k {
            assert(compatible(w.tabs[k], w.tabs[at]));
        }
        assert(at == k);
        if k < rest.len() {
            assert(rest[k] == w.tabs[k + 1]);
        } else if k > 0 {
            assert(rest[k - 1] == w.tabs[k - 1]);
        }
    }
}

/// Making a tab active leaves every tab as it was found, but for an open cell editor of the
/// tab that was active before, which is closed.
pub proof fn law_activating_keeps_the_tabs(w: WorkspaceView, idx: usize)
    requires
        w.valid(),
        idx < w.tabs.len(),
    ensures
        ({
            let v = w.activate_tab(idx);
            &&& v.active == Some(idx)
            &&& v.tabs.len() == w.tabs.len()
            &&& forall|i: int|
                0 <= i < w.tabs.len() ==> v.tabs[i] == (if w.active is Some && w.active->0 == i {
                    TabView { editing: None, ..#[trigger] w.tabs[i] }
                } else {
                    w.tabs[i]
                })
        }),
{
    let v = WorkspaceView { active: Some(idx), ..w.cancel_cell_edit() };
    if let TabKindView::Table { schema, table } = v.tabs[idx as int].kind {
        lemma_reveal_relation(v, schema, table);
    }
}

/// Opening a table that is open already makes its tab active; there is no second one.
pub proof fn law_a_table_has_one_tab(w: WorkspaceView, schema: Seq<char>, table: Seq<char>)
    requires
        w.valid(),
        w.next_tab_id < u64::MAX,
        w.tabs.len() < usize::MAX,
    ensures
        ({
            let kind = TabKindView::Table { schema, table };
            let once = w.open_table_tab(schema, table);
            let twice = once.open_table_tab(schema, table);
            &&& once.valid()
            &&& once.active_tab() is Some
            &&& once.active_tab()->0.kind == kind
            &&& twice.tabs.len() == once.tabs.len()
            &&& twice.active == once.active
            &&& forall|i: int|
                0 <= i < once.tabs.len() && i != once.active->0 ==> (
                #[trigger] once.tabs[i]).kind != kind
        }),
{
    let kind = TabKindView::Table { schema, table };
    lemma_open_table(w, schema, table);
    let once = w.open_table_tab(schema, table);
    let a = once.active->0 as int;
    assert(once.tabs[a].kind == kind);
    assert forall|i: int| 0 <= i < once.tabs.len() && i != a implies (#[trigger] once.tabs[i]).kind
        != kind by {
        if i < a {
            assert(compatible(once.tabs[i], once.tabs[a]));
        } else {
            assert(compatible(once.tabs[a], once.tabs[i]));
        }
    }
    lemma_kind_position(once.tabs, kind);
    assert(kind_position(once.tabs, kind) == Some(a));
    law_activating_keeps_the_tabs(once, a as usize);
}

proof fn lemma_open_table(w: WorkspaceView, schema: Seq<char>, table: Seq<char>)
    requires
        w.valid(),
        w.next_tab_id < u64::MAX,
        w.tabs.len() < usize::MAX,
    ensures
        w.open_table_tab(schema, table).valid(),
        w.open_table_tab(schema, table).active_tab() is Some,
        w.open_table_tab(schema, table).active_tab()->0.kind == (TabKindView::Table {
            schema,
            table,
        }),
{
    let kind = TabKindView::Table { schema, table };
    lemma_kind_position(w.tabs, kind);
    match kind_position(w.tabs, kind) {
        Some(k) => {
            lemma_activate(w, k as usize);
            law_activating_keeps_the_tabs(w, k as usize);
        },
        None => {
            let id = w.next_tab_id;
            let t = TabView::table(id, schema, table);
            assert forall|i: int| 0 <= i < w.tabs.len() implies compatible(
                #[trigger] w.tabs[i],
                t,
            ) by {
                assert(w.tabs[i].id < id);
            }
            lemma_open_tab(w, t);
            lemma_opened_is_active(w, t);
            let opened = w.open_tab(t);
            let sql = opened.table_query(id);
            lemma_run_new_query(opened, id, sql);
            lemma_steady_is_valid(opened, opened.run_new_query(id, sql));
            let at = opened.active->0 as int;
            assert(opened.tabs[at].kind == kind);
        },
    }
}

proof fn lemma_opened_is_active(w: WorkspaceView, t: TabView)
    requires
        w.tabs.len() < usize::MAX,
    ensures
        w.open_tab(t).active == Some(w.tabs.len() as usize),
        w.open_tab(t).tabs.len() == w.tabs.len() + 1,
        w.open_tab(t).tabs.last().kind == t.kind,
        w.open_tab(t).tabs.last().id == t.id,
{
    let pushed = WorkspaceView {
        tabs: w.tabs.push(t),
        next_tab_id: (w.next_tab_id + 1) as u64,
        ..w
    };
    let at = w.tabs.len() as usize;
    let v = WorkspaceView { active: Some(at), ..pushed.cancel_cell_edit() };
    if let TabKindView::Table { schema, table } = v.tabs[at as int].kind {
        lemma_reveal_relation(v, schema, table);
    }
}

/// There is one scratch tab, however often it is asked for.
pub proof fn law_there_is_one_scratch_tab(w: WorkspaceView, text: Seq<char>, again: Seq<char>)
    requires
        w.valid(),
        w.next_tab_id < u64::MAX,
        w.tabs.len() < usize::MAX,
    ensures
        ({
            let once = w.focus_scratch_tab(text);
            let twice = once.focus_scratch_tab(again);
            &&& once.valid()
            &&& once.active_tab() is Some
            &&& once.active_tab()->0.kind is Scratch
            &&& twice.tabs.len() == once.tabs.len()
            &&& twice.active == once.active
            &&& forall|i: int|
                0 <= i < once.tabs.len() && i != once.active->0 ==> !((
                #[trigger] once.tabs[i]).kind is Scratch)
        }),
{
    lemma_focus_scratch(w, text);
    let once = w.focus_scratch_tab(text);
    let a = once.active->0 as int;
    assert forall|i: int| 0 <= i < once.tabs.len() && i != a implies !((
    #[trigger] once.tabs[i]).kind is Scratch) by {
        if i < a {
            assert(compatible(once.tabs[i], once.tabs[a]));
        } else {
            assert(compatible(once.tabs[a], once.tabs[i]));
        }
    }
    lemma_kind_position(once.tabs, TabKindView::Scratch);
    assert(kind_position(once.tabs, TabKindView::Scratch) == Some(a));
    law_activating_keeps_the_tabs(once, a as usize);
}

proof fn lemma_focus_scratch(w: WorkspaceView, text: Seq<char>)
    requires
        w.valid(),
        w.next_tab_id < u64::MAX,
        w.tabs.len() < usize::MAX,
    ensures
        w.focus_scratch_tab(text).valid(),
        w.focus_scratch_tab(text).active_tab() is Some,
        w.focus_scratch_tab(text).active_tab()->0.kind is Scratch,
{
    lemma_kind_position(w.tabs, TabKindView::Scratch);
    match kind_position(w.tabs, TabKindView::Scratch) {
        Some(k) => {
            lemma_activate(w, k as usize);
            law_activating_keeps_the_tabs(w, k as usize);
        },
        None => {
            let t = TabView::scratch(w.next_tab_id, text);
            assert forall|i: int| 0 <= i < w.tabs.len() implies compatible(
                #[trigger] w.tabs[i],
                t,
            ) by {
                assert(w.tabs[i].id < w.next_tab_id);
            }
            lemma_open_tab(w, t);
            lemma_opened_is_active(w, t);
        },
    }
}

// ---- every state of the window ---------------------------------------------------------

/// The window opens in a valid state.
pub proof fn law_the_window_opens_valid(
    settings: SettingsView,
    auto: Option<ConnectionConfigView>,
)
    ensures
        WorkspaceView::opened(settings, auto).valid(),
{
}

proof fn lemma_switch(w: WorkspaceView, cfg: ConnectionConfigView)
    requires
        w.log.len() <= LOG_CAP,
    ensures
        w.switch_connection(cfg).valid(),
{
}

proof fn lemma_connections(w: WorkspaceView, what: ConnAction)
    requires
        w.valid(),
    ensures
        w.perform_on_connections(what).valid(),
{
    reveal(WorkspaceView::perform_on_connections);
    match what {
        ConnAction::Connect { idx } => {
            if idx < w.settings.connections.len() {
                let entry = w.settings.connections[idx as int];
                lemma_switch(
                    w,
                    entry.config(
                        crate::workspace::state::password_of(w.passwords, entry.name),
                    ),
                );
            }
        },
        _ => {
            lemma_steady_is_valid(w, w.perform_on_connections(what));
        },
    }
}

pub(crate) proof fn lemma_on_tab(w: WorkspaceView, tab: u64, what: TabAction)
    ensures
        steady(w, w.perform_on_tab(tab, what)),
{
    reveal(WorkspaceView::perform_on_tab);
    lemma_rows(w, tab);
    lemma_pending(w, tab);
    lemma_reload_data(w, tab);
    if let TabAction::Sort { col } = what {
        lemma_toggle_sort(w, tab, col);
    }
    lemma_position(w.tabs, tab);
}

proof fn lemma_plain_commands(w: WorkspaceView, fmt: ExportFormat)
    ensures
        steady(w, w.export_active(fmt)),
        steady(w, w.copy_active_tsv()),
        steady(w, w.cancel()),
        steady(w, w.toggle_terminal()),
        steady(w, w.toggle_connections()),
        steady(w, w.toggle_settings()),
        steady(w, w.connect_or_refresh()),
{
}

pub(crate) proof fn lemma_command(w: WorkspaceView, cmd: PaletteCmd)
    ensures
        steady(w, w.run_command(cmd)),
{
    let v = w.with_palette(false);
    assert(steady(w, v));
    assert(steady(v, w.run_command(cmd))) by {
        reveal(WorkspaceView::run_command);
        match cmd {
            PaletteCmd::Run => {
                lemma_run_active_tab(v);
            },
            PaletteCmd::Explain => {
                lemma_explain_active(v, false);
            },
            PaletteCmd::ExplainAnalyze => {
                lemma_explain_active(v, true);
            },
            PaletteCmd::Format => {
                lemma_format_active(v);
            },
            PaletteCmd::ExportCsv => {
                lemma_plain_commands(v, ExportFormat::Csv);
            },
            PaletteCmd::ExportJson => {
                lemma_plain_commands(v, ExportFormat::Json);
            },
            _ => {
                lemma_plain_commands(v, ExportFormat::Inserts);
            },
        }
    }
    lemma_steady_step(w, v, w.run_command(cmd));
}

/// Whatever is clicked, the window stays valid.
pub proof fn law_clicks_keep_the_window_valid(w: WorkspaceView, action: ActionView)
    requires
        w.valid(),
        w.next_tab_id < u64::MAX,
        w.tabs.len() < usize::MAX,
    ensures
        w.perform(action).valid(),
{
    match action {
        ActionView::OnTab { tab, what } => {
            lemma_on_tab(w, tab, what);
            lemma_steady_is_valid(w, w.perform_on_tab(tab, what));
        },
        ActionView::OnConnections { what } => {
            lemma_connections(w, what);
        },
        ActionView::ToggleSchema { ix } => {
            lemma_toggle_schema(w, ix);
            lemma_steady_is_valid(w, w.toggle_schema(ix));
        },
        ActionView::OpenTable { schema, table } => {
            lemma_open_table(w, schema, table);
        },
        ActionView::ActivateTab { idx } => {
            lemma_activate(w, idx);
        },
        ActionView::CloseTab { tab } => {
            if w.tab(tab) is Some {
                law_closing_a_tab(w, tab);
            }
        },
        ActionView::NewQuery => {
            let n = crate::workspace::tabs::query_tabs(w.tabs) + 1;
            let t = TabView::query(w.next_tab_id, n);
            assert forall|i: int| 0 <= i < w.tabs.len() implies compatible(
                #[trigger] w.tabs[i],
                t,
            ) by {
                assert(w.tabs[i].id < w.next_tab_id);
            }
            lemma_open_tab(w, t);
        },
        ActionView::OpenScratch => {
            lemma_steady_is_valid(w, w.perform(action));
        },
        ActionView::Run => {
            lemma_run_active_tab(w);
            lemma_steady_is_valid(w, w.perform(action));
        },
        ActionView::Cancel => {
            lemma_steady_is_valid(w, w.perform(action));
        },
        ActionView::Command { cmd } => {
            lemma_command(w, cmd);
            lemma_steady_is_valid(w, w.run_command(cmd));
        },
    }
}

/// Whatever is typed, the window stays valid.
pub proof fn law_input_keeps_the_window_valid(
    w: WorkspaceView,
    id: u64,
    text: Seq<char>,
    cursor: usize,
    form: ConnFormView,
    items: Seq<TreeItemView>,
    selected: Option<Seq<char>>,
)
    requires
        w.valid(),
        w.next_tab_id < u64::MAX,
        w.tabs.len() < usize::MAX,
    ensures
        w.editor_changed(id, text, cursor).valid(),
        w.filter_changed(id, text).valid(),
        w.apply_where(id).valid(),
        w.commit_cell_edit().valid(),
        w.cancel_cell_edit().valid(),
        w.set_filter(text).valid(),
        w.on_tree_notify(items, selected).valid(),
        w.open_selected_tree_node(selected).valid(),
        w.focus_scratch_tab(text).valid(),
        w.add_connection(form).valid(),
        w.open_waiting().valid(),
        w.close_overlays().valid(),
        w.with_palette(!w.palette_open).valid(),
{
    lemma_position(w.tabs, id);
    lemma_steady_is_valid(w, w.editor_changed(id, text, cursor));
    lemma_steady_is_valid(w, w.filter_changed(id, text));
    if let Some(t) = w.tab(id) {
        lemma_run_new_query(w, id, crate::workspace::query::table_sql(t));
    }
    lemma_steady_is_valid(w, w.apply_where(id));
    lemma_commit(w);
    lemma_steady_is_valid(w, w.commit_cell_edit());
    lemma_steady_is_valid(w, w.cancel_cell_edit());
    lemma_tree_input(w, text, items, selected);
    lemma_focus_scratch(w, text);
    if let Some((schema, table)) = relation_at(w.tree.meta, selected) {
        lemma_open_table(w, schema, table);
    }
    if let Some((schema, table)) = w.pending_open {
        let v = WorkspaceView { pending_open: None, ..w };
        lemma_steady_is_valid(w, v);
        lemma_open_table(v, schema, table);
    }
    lemma_add_connection(w, form);
}

proof fn lemma_tree_input(
    w: WorkspaceView,
    text: Seq<char>,
    items: Seq<TreeItemView>,
    selected: Option<Seq<char>>,
)
    requires
        w.valid(),
    ensures
        w.set_filter(text).valid(),
        w.on_tree_notify(items, selected).valid(),
{
    let filtered = w.with_tree(
        SchemaTreeView { filter: crate::text::trim(text), ..w.tree },
    );
    lemma_sync_tree(filtered);
    lemma_steady_is_valid(w, w.set_filter(text));
    let marks = crate::tree::all_states(items, w.filtering());
    let told = w.with_tree(
        SchemaTreeView {
            items,
            sel: selected,
            expanded: crate::tree::noted(w.tree.expanded, marks),
            ..w.tree
        },
    );
    lemma_ensure_loads(told);
    lemma_steady_is_valid(w, w.on_tree_notify(items, selected));
}

proof fn lemma_add_connection(w: WorkspaceView, form: ConnFormView)
    requires
        w.valid(),
    ensures
        w.add_connection(form).valid(),
{
    if let Some(entry) = form.entry() {
        let saved = WorkspaceView {
            settings: SettingsView {
                connections: crate::workspace::conn::without_name(
                    w.settings.connections,
                    entry.name,
                ).push(entry),
                ..w.settings
            },
            ..w
        }.with_effect(EffectView::SaveSettings { report: false });
        if form.password.len() == 0 {
            lemma_switch(saved, entry.config(None));
        } else {
            let kept = WorkspaceView {
                passwords: saved.passwords.insert(entry.name, form.password),
                ..saved
            }.with_effect(
                EffectView::SavePassword { name: entry.name, password: form.password },
            );
            lemma_switch(kept, entry.config(Some(form.password)));
        }
    }
}

/// Whatever the server answers on a query, and whenever, the window stays valid.
pub proof fn law_query_answers_keep_the_window_valid(
    w: WorkspaceView,
    id: u64,
    sql: Seq<char>,
    out: QueryOutcomeView,
    answer: Option<DescribedResultView>,
    edits: Seq<RowEditView>,
    reload: Option<Seq<char>>,
    error: Option<DbErrorView>,
)
    requires
        w.valid(),
    ensures
        w.query_finished(id, sql, out).valid(),
        w.explain_finished(id, sql, out).valid(),
        w.described(id, answer).valid(),
        w.apply_finished(id, edits, sql, reload, error).valid(),
{
    lemma_position(w.tabs, id);
    assert(steady(w, w.query_finished(id, sql, out)));
    lemma_steady_is_valid(w, w.query_finished(id, sql, out));
    assert(steady(w, w.explain_finished(id, sql, out)));
    lemma_steady_is_valid(w, w.explain_finished(id, sql, out));
    lemma_steady_is_valid(w, w.described(id, answer));
    lemma_apply_finished(w, id, edits, sql, reload, error);
    lemma_steady_is_valid(w, w.apply_finished(id, edits, sql, reload, error));
}

/// Whatever comes of connecting, and of the introspection of the schemas, the window stays
/// valid.
pub proof fn law_schema_answers_keep_the_window_valid(
    w: WorkspaceView,
    attempt: u64,
    connected: Result<ConnId, DbErrorView>,
    cfg: ConnectionConfigView,
    schemas: Result<Seq<SchemaInfoView>, DbErrorView>,
    selftest: bool,
    schema: Seq<char>,
    rels: Result<Seq<RelationInfoView>, DbErrorView>,
    objects: Option<SchemaObjectsView>,
    table: Seq<char>,
    detail: Result<RelationDetailView, DbErrorView>,
)
    requires
        w.valid(),
    ensures
        w.connect_finished(attempt, connected, cfg).valid(),
        w.schemas_loaded(schemas, selftest).valid(),
        w.relations_loaded(schema, rels, objects).valid(),
        w.detail_loaded(schema, table, detail).valid(),
        w.selftest_ready().valid(),
{
    assert(same_tabs(w.tabs, w.connect_finished(attempt, connected, cfg).tabs));
    if let Ok(found) = schemas {
        let v = w.with_tree(
            SchemaTreeView {
                schemas: found.map_values(
                    |s: SchemaInfoView| crate::workspace::schema::bare_schema(s),
                ),
                expanded: w.tree.expanded.insert("db"@),
                ..w.tree
            },
        ).with_status(crate::text::decimal(found.len()) + " schema(s)"@);
        lemma_sync_tree(v);
    }
    lemma_steady_is_valid(w, w.schemas_loaded(schemas, selftest));
    lemma_relations_loaded(w, schema, rels, objects);
    lemma_detail_loaded(w, schema, table, detail);
    lemma_steady_is_valid(w, w.selftest_ready());
}

proof fn lemma_relations_loaded(
    w: WorkspaceView,
    schema: Seq<char>,
    rels: Result<Seq<RelationInfoView>, DbErrorView>,
    objects: Option<SchemaObjectsView>,
)
    requires
        w.valid(),
    ensures
        w.relations_loaded(schema, rels, objects).valid(),
{
    let here = SchemaTreeView {
        loads: w.tree.loads.remove(crate::workspace::schema::schema_id(schema)),
        ..w.tree
    };
    let v = match rels {
        Ok(rels) => w.with_tree(
            SchemaTreeView {
                schemas: crate::workspace::schema::with_relations(
                    here.schemas,
                    schema,
                    rels,
                    objects,
                ),
                expanded: here.expanded.insert(crate::workspace::schema::tables_id(schema)),
                ..here
            },
        ),
        Err(e) => w.with_tree(here).with_status("Failed to load relations: "@ + e.shown()),
    };
    lemma_sync_tree(v);
    lemma_steady_is_valid(w, w.relations_loaded(schema, rels, objects));
}

proof fn lemma_detail_loaded(
    w: WorkspaceView,
    schema: Seq<char>,
    table: Seq<char>,
    detail: Result<RelationDetailView, DbErrorView>,
)
    requires
        w.valid(),
    ensures
        w.detail_loaded(schema, table, detail).valid(),
{
    let here = SchemaTreeView {
        loads: w.tree.loads.remove(crate::workspace::schema::relation_id(schema, table)),
        ..w.tree
    };
    let v = match detail {
        Ok(d) => w.with_tree(
            SchemaTreeView {
                schemas: crate::workspace::schema::with_detail(here.schemas, schema, table, d),
                ..here
            },
        ),
        Err(e) => w.with_tree(here).with_status(
            "Failed to load relation detail: "@ + e.shown(),
        ),
    };
    lemma_sync_tree(v);
    lemma_steady_is_valid(w, w.detail_loaded(schema, table, detail));
}

// ---- answers that come late, and connections that are left -----------------------------

/// What is answered to a tab that was closed in the meantime is noted in the log and changes
/// nothing else: the other tabs stay as they are.
pub proof fn law_answers_to_a_closed_tab_are_only_logged(
    w: WorkspaceView,
    id: u64,
    sql: Seq<char>,
    out: QueryOutcomeView,
    answer: Option<DescribedResultView>,
)
    requires
        w.tab(id) is None,
    ensures
        w.query_finished(id, sql, out) == w.with_log(sql, out.error is None),
        w.explain_finished(id, sql, out) == w.with_log(sql, out.error is None),
        w.described(id, answer) == w,
{
}

/// Every query that was run is noted last in the log when its answer comes, with whether it
/// succeeded, whether its tab is still open or not; so are edits that were applied.
pub proof fn law_what_was_run_is_logged(
    w: WorkspaceView,
    id: u64,
    sql: Seq<char>,
    out: QueryOutcomeView,
    edits: Seq<RowEditView>,
    reload: Option<Seq<char>>,
    error: Option<DbErrorView>,
)
    requires
        w.valid(),
    ensures
        w.query_finished(id, sql, out).log == logged(w.log, sql, out.error is None),
        w.query_finished(id, sql, out).log.last() == (LogEntryView {
            sql,
            ok: out.error is None,
        }),
        w.explain_finished(id, sql, out).log == logged(w.log, sql, out.error is None),
        w.explain_finished(id, sql, out).log.last() == (LogEntryView {
            sql,
            ok: out.error is None,
        }),
        w.apply_finished(id, edits, sql, reload, error).log == logged(w.log, sql, error is None),
        w.apply_finished(id, edits, sql, reload, error).log.last() == (LogEntryView {
            sql,
            ok: error is None,
        }),
{
    reveal(WorkspaceView::run_sql);
    law_log_keeps_the_most_recent(w.log, sql, out.error is None);
    law_log_keeps_the_most_recent(w.log, sql, error is None);
}

/// A query that failed leaves the result of its tab as it was.
pub proof fn law_failed_query_keeps_the_result(
    w: WorkspaceView,
    id: u64,
    sql: Seq<char>,
    out: QueryOutcomeView,
)
    requires
        w.tab(id) is Some,
        out.error is Some,
    ensures
        w.query_finished(id, sql, out).tab(id) == Some(
            TabView { running: false, ..w.tab(id)->0 },
        ),
{
    lemma_position(w.tabs, id);
    let k = position(w.tabs, id)->0;
    lemma_same_position(w.tabs, k, TabView { running: false, ..w.tabs[k] }, id);
}

/// Turning to another connection leaves nothing of the one before: it is closed, its tabs
/// and its tree are gone, and nothing runs on it any more.
pub proof fn law_switching_leaves_nothing_behind(w: WorkspaceView, cfg: ConnectionConfigView)
    ensures
        ({
            let v = w.switch_connection(cfg);
            &&& v.conn is None
            &&& v.tabs.len() == 0
            &&& v.active is None
            &&& v.tree.schemas.len() == 0
            &&& v.tree.items.len() == 0
            &&& v.tree.loads == Set::<Seq<char>>::empty()
            &&& v.cfg == Some(cfg)
            &&& v.attempt == w.attempt.wrapping_add(1)
            &&& v.outbox.last() == (EffectView::Connect { attempt: v.attempt, cfg })
            &&& w.conn matches Some(conn) ==> v.outbox.contains(
                EffectView::Disconnect { conn },
            )
        }),
{
    if let Some(conn) = w.conn {
        let v = w.switch_connection(cfg);
        assert(v.outbox[w.outbox.len() as int] == (EffectView::Disconnect { conn }));
    }
}

/// Nothing is sent to the server without a connection: running and explaining say so, and
/// change nothing else.
pub proof fn law_nothing_runs_without_a_connection(w: WorkspaceView, id: u64, sql: Seq<char>)
    requires
        w.conn is None,
    ensures
        w.run_sql(id, sql) == w.with_status("Not connected"@),
        w.run_explain(id, sql) == w.with_status("Not connected"@),
        w.describe_async(id, sql) == w,
        w.apply_pending(id) == w,
        w.load_schemas() == w,
        w.cancel() == w,
{
    reveal(WorkspaceView::run_sql);
}

} // verus!
