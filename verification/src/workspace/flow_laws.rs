//! Opening, connecting, discarding and closing: what each step leaves and what it asks for.

use vstd::prelude::*;
use crate::config::ConnectionConfigView;
use crate::edit::{EditTargetView, RowEditView};
use crate::introspect::SchemaInfoView;
use crate::listing_laws::{answers, law_palette_lists_what_answers, picked};
use crate::script_laws::is_blank;
use crate::settings::SettingsView;
use crate::sql::formatted;
use crate::text::{decimal, lowercase};
use crate::workspace::action::Action;
use crate::workspace::edit::{commit_status, stage_status};
use crate::workspace::laws::lemma_reveal_relation;
use crate::workspace::loading_laws::law_tree_is_built_under_the_filter;
use crate::workspace::palette::{all_commands, labelled, palette_list, PaletteCmd};
use crate::workspace::query::table_sql;
use crate::workspace::query_laws::{
    law_a_query_is_sent_as_it_is, lemma_says_something, lemma_tab_id, lemma_tab_kept,
    says_something,
};
use crate::workspace::result_laws::law_new_query_is_asked_for;
use crate::workspace::staging::committed;
use crate::workspace::state::{
    law_log_keeps_the_most_recent, lemma_position, logged, EffectView, LogEntryView,
    SchemaTreeView, WorkspaceView,
};
use crate::workspace::tab::{TabKindView, TabView};
use crate::workspace::view::{cell_click, conn_subtitle};

verus! {

/// The window opens with what was saved. With a connection that was given it connects to that
/// one, and keeps its password under its name; without one it shows the connection manager, and
/// the form where nothing is saved.
pub proof fn law_window_opens_as_told(settings: SettingsView, auto: Option<ConnectionConfigView>)
    ensures
        ({
            let w = WorkspaceView::opened(settings, auto);
            &&& w.settings == settings
            &&& w.tabs.len() == 0
            &&& w.conn is None
            &&& auto is None ==> w.conn_manager_open && (w.conn_adding
                <==> settings.connections.len() == 0) && w.outbox.len() == 0
            &&& auto matches Some(cfg) ==> {
                &&& w.cfg == Some(cfg)
                &&& w.outbox.len() == 1
                &&& w.outbox[0] == (EffectView::Connect { attempt: w.attempt, cfg })
                &&& cfg.password is Some ==> w.passwords.dom().contains(cfg.name)
                    && w.passwords[cfg.name] == cfg.password->0
                &&& cfg.password is None ==> !w.passwords.dom().contains(cfg.name)
            }
        }),
{
}

/// A button beside the tree shows or hides what it names; the schemas can be loaded again only
/// over a connection.
pub proof fn law_sidebar_buttons_do_what_they_say(w: WorkspaceView)
    ensures
        ({
            let b = w.sidebar().buttons;
            &&& b.len() == (if w.conn is Some {
                3nat
            } else {
                2nat
            })
            &&& b[0].label == "Connections"@ && w.perform(b[0].action) == w.toggle_connections()
            &&& b[1].label == "Settings"@ && w.perform(b[1].action) == w.toggle_settings()
            &&& w.conn is Some ==> b[2].label == "Refresh schemas"@ && w.perform(b[2].action)
                == w.connect_or_refresh()
            &&& (w.conn is Some && w.cfg is Some) ==> w.sidebar().title == w.cfg->0.name
            &&& (w.conn is None || w.cfg is None) ==> w.sidebar().title == "DATABASE"@
        }),
{
    reveal(WorkspaceView::perform_on_connections);
}

/// Showing the connection manager or the settings twice leaves them as they were.
pub proof fn law_toggling_twice(w: WorkspaceView)
    ensures
        w.toggle_settings().settings_open == !w.settings_open,
        w.toggle_settings().toggle_settings() == w,
        w.toggle_connections().conn_manager_open == !w.conn_manager_open,
        w.toggle_connections().toggle_connections().conn_manager_open == w.conn_manager_open,
        w.toggle_connections().outbox == w.outbox,
        !w.conn_manager_open ==> (w.toggle_connections().conn_adding
            <==> w.settings.connections.len() == 0),
{
    assert(w.toggle_settings().toggle_settings() =~= w);
}

/// The connection manager lists the saved connections, each at its place, unless the form is
/// asked for or nothing is saved; its buttons do what they say.
pub proof fn law_connection_manager_lists_what_is_saved(w: WorkspaceView)
    requires
        w.settings.connections.len() <= usize::MAX,
    ensures
        ({
            let m = w.conn_manager();
            let n = w.settings.connections.len();
            &&& (m.list is None <==> w.conn_adding || n == 0)
            &&& m.list matches Some(rows) ==> rows.len() == n && forall|i: int|
                0 <= i < n ==> (#[trigger] rows[i]).name == w.settings.connections[i].name
                    && rows[i].subtitle == conn_subtitle(w.settings.connections[i])
            &&& m.buttons.len() == 2
            &&& m.list is Some ==> m.buttons[0].label == "Add"@ && w.perform(
                m.buttons[0].action,
            ).conn_adding && m.buttons[1].label == "Close"@ && w.perform(m.buttons[1].action)
                == w.toggle_connections()
            &&& m.list is None ==> m.buttons[0].label == "Save & Connect"@ && w.perform(
                m.buttons[0].action,
            ).outbox == w.outbox.push(EffectView::ReadForm)
            &&& (m.list is None && n > 0) ==> m.buttons[1].label == "Back"@ && !w.perform(
                m.buttons[1].action,
            ).conn_adding
            &&& n == 0 ==> m.buttons[1].label == "Close"@ && w.perform(m.buttons[1].action)
                == w.toggle_connections()
        }),
{
    reveal(WorkspaceView::perform_on_connections);
}

/// Without a connection, refreshing connects again as before, or asks which connection to make.
pub proof fn law_refreshing_connects(w: WorkspaceView)
    ensures
        w.conn matches Some(conn) ==> w.connect_or_refresh().outbox == w.outbox.push(
            EffectView::LoadSchemas { conn },
        ),
        (w.conn is None && w.cfg is Some) ==> ({
            let v = w.connect_or_refresh();
            v.outbox == w.outbox.push(EffectView::Connect { attempt: v.attempt, cfg: w.cfg->0 })
        }),
        (w.conn is None && w.cfg is None) ==> w.connect_or_refresh().conn_manager_open
            && w.connect_or_refresh().outbox == w.outbox,
{
}

/// Turning to another connection leaves the old one and everything that came over it: no tab,
/// no tree and no filter stays.
pub proof fn law_turning_leaves_the_old_connection(w: WorkspaceView, cfg: ConnectionConfigView)
    ensures
        ({
            let v = w.switch_connection(cfg);
            &&& v.conn is None
            &&& v.tabs.len() == 0
            &&& v.active is None
            &&& v.tree.schemas.len() == 0
            &&& v.tree.items.len() == 0
            &&& v.tree.filter.len() == 0
            &&& v.tree.loads == Set::<Seq<char>>::empty()
            &&& !v.conn_manager_open
            &&& v.cfg == Some(cfg)
            &&& v.outbox.last() == (EffectView::Connect { attempt: v.attempt, cfg })
            &&& w.conn matches Some(conn) ==> v.outbox.contains(EffectView::Disconnect { conn })
        }),
{
    let v = w.switch_connection(cfg);
    if let Some(conn) = w.conn {
        assert(v.outbox[w.outbox.len() as int] == (EffectView::Disconnect { conn }));
    }
}

/// Discarding takes every staged edit and every mark of a tab away, and loads its rows again.
pub proof fn law_discarded_edits_are_gone(w: WorkspaceView, id: u64)
    requires
        w.conn is Some,
        w.tab(id) is Some,
        w.tab(id)->0.last_sql is Some,
        says_something(w.tab(id)->0.last_sql->0),
    ensures
        ({
            let sql = w.tab(id)->0.last_sql->0;
            let v = w.cancel_pending(id);
            &&& v.tab(id) is Some
            &&& v.tab(id)->0.pending.len() == 0
            &&& v.tab(id)->0.edited_cells == Set::<(usize, usize)>::empty()
            &&& v.tab(id)->0.editing is None
            &&& v.outbox == w.outbox.push(
                EffectView::Query { tab: id, conn: w.conn->0, sql },
            )
        }),
{
    reveal(WorkspaceView::run_sql);
    let t = w.tab(id)->0;
    let sql = t.last_sql->0;
    lemma_says_something(sql);
    lemma_tab_id(w, id);
    let clear = TabView { pending: Seq::empty(), edited_cells: Set::empty(), ..t };
    lemma_tab_kept(w, id, clear);
    let done = w.with_tab(id, clear).with_status("Edits discarded"@);
    assert(done.tab(id) == Some(clear));
    law_a_query_is_sent_as_it_is(done, id, sql);
    lemma_tab_kept(
        done,
        id,
        TabView {
            running: true,
            editing: None,
            new_row_idx: None,
            last_sql: Some(sql),
            ..clear
        },
    );
}

/// The status counts what is staged, and tells why an edit cannot be.
pub proof fn law_status_counts_the_edits(n: nat, edit: RowEditView, target: EditTargetView)
    ensures
        edit.sql(target) is Ok ==> stage_status(n, edit, target) == decimal(n) + (if n == 1 {
            " change"@
        } else {
            " change"@ + "s"@
        }) + " staged \u{2014} review, then Apply."@,
        edit.sql(target) matches Err(e) ==> e.is_suffix_of(stage_status(n, edit, target)),
{
    reveal_strlit("");
    let s = stage_status(n, edit, target);
    match edit.sql(target) {
        Ok(_) => {
            assert(decimal(n) + " change"@ + ""@ =~= decimal(n) + " change"@);
            assert(decimal(n) + " change"@ + "s"@ =~= decimal(n) + (" change"@ + "s"@));
        },
        Err(e) => {
            assert(s.subrange(s.len() - e.len(), s.len() as int) =~= e);
        },
    }
}

/// What is said of an edit of a cell: that it was reverted where it brings the cell back to the
/// value that was loaded, and else how many edits are staged with it.
pub proof fn law_edits_are_reported(
    t: TabView,
    row: usize,
    col: usize,
    value: crate::export::Cell,
)
    requires
        t.new_row_idx != Some(row),
        t.edit_target is Some,
        t.real_column(col) is Some,
        t.row_key(row, t.edit_target->0) is Some,
    ensures
        (row < t.orig_rows.len() && col < t.orig_rows[row as int].len()
            && t.orig_rows[row as int][col as int] == value) ==> commit_status(t, row, col, value)
            == Some(Some("Reverted to original"@)),
        !(row < t.orig_rows.len() && col < t.orig_rows[row as int].len()
            && t.orig_rows[row as int][col as int] == value) ==> commit_status(t, row, col, value)
            == Some(
            Some(
                stage_status(
                    committed(t, row, col, value).pending.len(),
                    crate::workspace::staging::cell_update(
                        t.row_key(row, t.edit_target->0)->0,
                        t.real_column(col)->0,
                        value,
                    ),
                    t.edit_target->0,
                ),
            ),
        ),
{
}

/// Selecting a row selects that row of that tab and changes nothing else.
pub proof fn law_selected_row_is_current(w: WorkspaceView, id: u64, row: usize)
    requires
        w.tab(id) is Some,
    ensures
        w.set_current_row(id, row).tab(id) == Some(
            TabView { current_row: Some(row), ..w.tab(id)->0 },
        ),
        w.set_current_row(id, row).outbox == w.outbox,
{
    lemma_tab_id(w, id);
    lemma_tab_kept(w, id, TabView { current_row: Some(row), ..w.tab(id)->0 });
}

/// Leaving the cell editor without a change leaves the tab as it was, with no editor.
pub proof fn law_left_editor_changes_nothing(w: WorkspaceView)
    requires
        w.active_tab() is Some,
    ensures
        w.cancel_cell_edit().active_tab() == Some(
            TabView { editing: None, ..w.active_tab()->0 },
        ),
        w.cancel_cell_edit().outbox == w.outbox,
{
}

/// The plan of a tab can be put away; the result is what it was.
pub proof fn law_plan_is_put_away(w: WorkspaceView, id: u64)
    requires
        w.tab(id) is Some,
    ensures
        w.close_plan(id).tab(id) == Some(TabView { plan: None, ..w.tab(id)->0 }),
{
    lemma_tab_id(w, id);
    lemma_tab_kept(w, id, TabView { plan: None, ..w.tab(id)->0 });
}

/// Formatting puts the formatted text into the editor of the active tab. A table has no editor,
/// and an editor with nothing in it stays as it is.
pub proof fn law_formatted_text_is_put_in_place(w: WorkspaceView, pretty: Seq<char>)
    requires
        w.active_tab() is Some,
    ensures
        ({
            let t = w.active_tab()->0;
            let v = w.put_formatted(pretty);
            &&& (t.kind is Table || !says_something(t.editor)) ==> v.tabs == w.tabs && v.outbox
                == w.outbox
            &&& (!(t.kind is Table) && says_something(t.editor)) ==> v.active_tab() == Some(
                TabView { editor: pretty, ..t },
            ) && v.outbox == w.outbox.push(EffectView::SetEditor { tab: t.id, text: pretty })
        }),
{
    lemma_says_something(w.active_tab()->0.editor);
}

/// A new query tab stands last, is the active one, and is numbered by how many there are.
pub proof fn law_new_query_tab(w: WorkspaceView)
    requires
        w.valid(),
        w.next_tab_id < u64::MAX,
        w.tabs.len() < usize::MAX,
    ensures
        ({
            let v = w.open_query_tab();
            &&& v.tabs.len() == w.tabs.len() + 1
            &&& v.active == Some(w.tabs.len() as usize)
            &&& v.tabs.last().id == w.next_tab_id
            &&& v.tabs.last().kind == TabKindView::Query
            &&& v.tabs.last().title == "Query "@ + decimal(
                w.tabs.filter(|t: TabView| t.kind is Query).len() + 1,
            )
            &&& v.tabs.last().editor.len() == 0
            &&& v.outbox == w.outbox.push(EffectView::FocusTab { tab: w.next_tab_id })
        }),
{
    crate::listing_laws::law_query_tabs_are_counted(w.tabs);
    let t = TabView::query(w.next_tab_id, crate::workspace::tabs::query_tabs(w.tabs) + 1);
    let more = WorkspaceView {
        tabs: w.tabs.push(t),
        next_tab_id: (w.next_tab_id + 1) as u64,
        ..w
    };
    let idx = w.tabs.len() as usize;
    let left = more.cancel_cell_edit();
    assert(left.tabs.len() == more.tabs.len());
    assert(left.tabs[idx as int] == t);
}

/// The terminal is started once; after that it is shown and hidden in turn.
pub proof fn law_terminal_is_started_once(w: WorkspaceView)
    ensures
        !w.terminal ==> w.toggle_terminal().outbox == w.outbox.push(EffectView::StartTerminal)
            && w.toggle_terminal().terminal_open == w.terminal_open,
        w.terminal ==> w.toggle_terminal().terminal_open == !w.terminal_open,
        (w.terminal && !w.terminal_open) ==> w.toggle_terminal().outbox == w.outbox.push(
            EffectView::FocusTerminal,
        ),
        (w.terminal && w.terminal_open) ==> w.toggle_terminal().outbox == w.outbox,
        w.terminal_started(None).terminal && w.terminal_started(None).terminal_open,
        forall|e: Seq<char>|
            #[trigger] w.terminal_started(Some(e)).terminal == w.terminal && w.terminal_started(
                Some(e),
            ).terminal_open == w.terminal_open,
{
}

/// One click on a cell selects its row; a second one, and any after it, opens the editor on it.
pub proof fn law_second_click_edits(
    w: WorkspaceView,
    tab: u64,
    row: usize,
    col: usize,
    clicks: usize,
    asked: Action,
)
    requires
        call_ensures(cell_click, (tab, row, col, clicks), asked),
    ensures
        clicks >= 2 ==> w.perform(asked.deep_view()) == w.begin_edit(tab, row, col),
        clicks < 2 ==> w.perform(asked.deep_view()) == w.set_current_row(tab, row),
{
    reveal(WorkspaceView::perform_on_tab);
}

/// The last attempt to connect opens its connection: an older one is left, the language server
/// is started for it, and its schemas are asked for. A failed attempt is told and changes
/// neither the connection nor the tabs.
pub proof fn law_connected_window_loads(
    w: WorkspaceView,
    conn: u64,
    cfg: ConnectionConfigView,
    e: crate::error::DbErrorView,
)
    ensures
        ({
            let v = w.connect_finished(w.attempt, Ok(conn), cfg);
            &&& v.conn == Some(conn)
            &&& v.tabs == w.tabs
            &&& v.outbox.len() >= 2
            &&& v.outbox[v.outbox.len() - 2] == (EffectView::StartLsp { cfg })
            &&& v.outbox[v.outbox.len() - 1] == (EffectView::LoadSchemas { conn })
            &&& (w.conn is None || w.conn == Some(conn)) ==> v.outbox.len() == w.outbox.len() + 2
            &&& (w.conn is Some && w.conn != Some(conn)) ==> v.outbox.len() == w.outbox.len() + 3
                && v.outbox[w.outbox.len() as int] == (EffectView::Disconnect {
                conn: w.conn->0,
            })
        }),
        ({
            let v = w.connect_finished(w.attempt, Err(e), cfg);
            v.conn == w.conn && v.tabs == w.tabs && v.outbox == w.outbox && e.shown().is_suffix_of(
                v.status,
            )
        }),
        forall|attempt: u64|
            attempt != w.attempt ==> {
                let v = #[trigger] w.connect_finished(attempt, Ok(conn), cfg);
                v.conn == w.conn && v.outbox == w.outbox.push(EffectView::Disconnect { conn })
            },
{
    let v = w.connect_finished(w.attempt, Err(e), cfg);
    let t = e.shown();
    assert(v.status.subrange(v.status.len() - t.len(), v.status.len() as int) =~= t);
}

/// The schemas that were loaded are listed under their names, in order, with nothing known of
/// them yet.
pub proof fn law_loaded_schemas_are_listed(
    w: WorkspaceView,
    schemas: Seq<SchemaInfoView>,
    selftest: bool,
)
    ensures
        ({
            let v = w.schemas_loaded(Ok(schemas), selftest);
            &&& v.tree.schemas.len() == schemas.len()
            &&& forall|i: int|
                0 <= i < schemas.len() ==> (#[trigger] v.tree.schemas[i]).name == schemas[i].name
                    && v.tree.schemas[i].relations is None && v.tree.schemas[i].objects is None
            &&& v.tree.expanded == w.tree.expanded.insert("db"@)
        }),
{
    let shown = w.with_tree(
        SchemaTreeView {
            schemas: schemas.map_values(
                |s: SchemaInfoView| crate::workspace::schema::bare_schema(s),
            ),
            expanded: w.tree.expanded.insert("db"@),
            ..w.tree
        },
    ).with_status(decimal(schemas.len()) + " schema(s)"@);
    law_tree_is_built_under_the_filter(shown);
}

/// Where there is no scratch tab, one is opened with the text that was kept.
pub proof fn law_scratch_tab_holds_the_text(w: WorkspaceView, text: Seq<char>)
    requires
        w.tabs.len() < usize::MAX,
        forall|i: int| 0 <= i < w.tabs.len() ==> !((#[trigger] w.tabs[i]).kind is Scratch),
    ensures
        ({
            let v = w.focus_scratch_tab(text);
            &&& v.tabs.len() == w.tabs.len() + 1
            &&& v.tabs.last().kind is Scratch
            &&& v.tabs.last().editor == text
            &&& v.active == Some(w.tabs.len() as usize)
        }),
{
    lemma_no_kind(w.tabs, TabKindView::Scratch);
    let t = TabView::scratch(w.next_tab_id, text);
    let more = WorkspaceView {
        tabs: w.tabs.push(t),
        next_tab_id: (w.next_tab_id + 1) as u64,
        ..w
    };
    let idx = w.tabs.len() as usize;
    let left = more.cancel_cell_edit();
    assert(left.tabs.len() == more.tabs.len());
    match more.active_tab() {
        Some(a) => {
            if more.active == Some(idx) {
                assert(a == t);
                assert(left.tabs[idx as int] == (TabView { editing: None, ..t }));
            } else {
                assert(left.tabs[idx as int] == t);
            }
        },
        None => {},
    }
}

proof fn lemma_no_kind(tabs: Seq<TabView>, kind: TabKindView)
    requires
        forall|i: int| 0 <= i < tabs.len() ==> (#[trigger] tabs[i]).kind != kind,
    ensures
        crate::workspace::tabs::kind_position(tabs, kind) is None,
    decreases tabs.len(),
{
    if tabs.len() > 0 {
        let front = tabs.drop_last();
        assert forall|i: int| 0 <= i < front.len() implies (#[trigger] front[i]).kind != kind by {
            assert(front[i] == tabs[i]);
        }
        lemma_no_kind(front, kind);
        assert(tabs[tabs.len() - 1].kind != kind);
    }
}

/// The text of the active editor is formatted with its keywords in upper case.
pub proof fn law_formatting_raises_keywords(w: WorkspaceView)
    requires
        w.active_tab() is Some,
    ensures
        w.format_active() == w.put_formatted(formatted(w.active_tab()->0.editor, true)),
{
}

/// The palette lists the commands whose labels hold what was typed, in whatever case.
pub proof fn law_palette_ignores_case(typed: &str, listed: Vec<(&'static str, PaletteCmd)>)
    requires
        call_ensures(palette_list, (typed,), listed),
    ensures
        labelled(listed@) == picked(
            all_commands(),
            |e: (Seq<char>, PaletteCmd)| answers(e.0, lowercase(typed@)),
            |e: (Seq<char>, PaletteCmd)| e,
        ),
{
    law_palette_lists_what_answers(all_commands(), lowercase(typed@));
}

/// The log holds the last five hundred entries.
pub proof fn law_log_holds_the_last_entries(log: Seq<LogEntryView>, sql: Seq<char>, ok: bool)
    requires
        log.len() <= 500,
    ensures
        logged(log, sql, ok).len() <= 500,
        log.len() < 500 ==> logged(log, sql, ok) == log.push(LogEntryView { sql, ok }),
        log.len() == 500 ==> logged(log, sql, ok) == log.drop_first().push(
            LogEntryView { sql, ok },
        ),
{
    law_log_keeps_the_most_recent(log, sql, ok);
    let all = logged(log, sql, ok);
    assert(all =~= all.drop_last().push(all.last()));
}

/// Opening a table that has no tab opens one behind the others and asks for its first rows,
/// without a filter.
pub proof fn law_opened_table_is_asked_for(
    w: WorkspaceView,
    schema: Seq<char>,
    table: Seq<char>,
)
    requires
        w.valid(),
        w.conn is Some,
        w.next_tab_id < u64::MAX,
        w.tabs.len() < usize::MAX,
        forall|i: int|
            0 <= i < w.tabs.len() ==> (#[trigger] w.tabs[i]).kind != (TabKindView::Table {
                schema,
                table,
            }),
    ensures
        ({
            let v = w.open_table_tab(schema, table);
            let id = w.next_tab_id;
            let sql = table_sql(TabView::table(id, schema, table));
            &&& v.tabs.len() == w.tabs.len() + 1
            &&& v.active == Some(w.tabs.len() as usize)
            &&& v.tabs.last().id == id
            &&& v.tabs.last().kind == (TabKindView::Table { schema, table })
            &&& v.outbox.last() == (EffectView::Query { tab: id, conn: w.conn->0, sql })
        }),
{
    let kind = TabKindView::Table { schema, table };
    lemma_no_kind(w.tabs, kind);
    let id = w.next_tab_id;
    let t = TabView::table(id, schema, table);
    let more = WorkspaceView { tabs: w.tabs.push(t), next_tab_id: (id + 1) as u64, ..w };
    let idx = w.tabs.len() as usize;
    let left = more.cancel_cell_edit();
    assert(left.tabs.len() == more.tabs.len());
    assert(left.tabs[idx as int] == t);
    let switched = WorkspaceView { active: Some(idx), ..left };
    lemma_reveal_relation(switched, schema, table);
    let opened = w.open_tab(t);
    assert(opened.tabs == left.tabs);
    assert forall|i: int| 0 <= i < w.tabs.len() implies (#[trigger] opened.tabs[i]).id != id by {
        assert(w.tabs[i].id < id);
        assert(left.tabs[i].id == w.tabs[i].id);
    }
    lemma_position(opened.tabs, id);
    assert(opened.tabs[idx as int].id == id);
    assert(opened.tab(id) == Some(t));
    let sql = table_sql(t);
    assert(opened.table_query(id) == sql);
    reveal_strlit("SELECT * FROM ");
    assert(sql[0] == 'S');
    assert(!is_blank(sql[0]));
    assert(says_something(sql));
    law_new_query_is_asked_for(opened, id, sql);
    let k = idx as int;
    let v = opened.run_new_query(id, sql);
    reveal(WorkspaceView::run_sql);
    lemma_says_something(sql);
    let fresh = crate::workspace::query::restarted(t, sql);
    let asked = opened.with_tab(id, fresh).with_effect(
        EffectView::ClearSelection { tab: id },
    ).describe_async(id, sql);
    lemma_tab_kept(opened, id, fresh);
    lemma_position(asked.tabs, id);
    assert(asked.tab(id) == Some(fresh));
}

} // verus!
