//! What the window shows and what a click does: labels and what they ask for, exports and what
//! they hold, headers, cells, rows of the sidebar, saved connections and colours.

use vstd::prelude::*;
use crate::config::ConnectionConfigView;
use crate::edit::{ident, EditTargetView, RowEditView};
use crate::export::{Cell, ExportFormat};
use crate::export_laws::{
    holds_rows, law_csv_says_the_cells, law_json_says_the_cells, law_tsv_reads_back, says_rows,
    tells_rows,
};
use crate::introspect::RelationKind;
use crate::listing_laws::{law_other_connections_stay, picked};
use crate::lsp::alphanumeric;
use crate::readback::{read_array, read_records};
use crate::settings::{ConnectionEntryView, Theme};
use crate::statement_laws::{as_read, law_inserts_read_back, read_lines, row_values};
use crate::tree::SchemaNodeView;
use crate::workspace::action::{ActionView, TabAction};
use crate::workspace::conn::ConnFormView;
use crate::workspace::export::{export_name, export_table};
use crate::workspace::palette::{all_commands, PaletteCmd};
use crate::workspace::query_laws::{law_a_header_sorts_as_it_shows, says_something};
use crate::workspace::schema::schema_id;
use crate::workspace::state::{EffectView, LogEntryView, WorkspaceView};
use crate::workspace::tab::{TabKindView, TabView};
use crate::workspace::view::{
    cell_model, chip, header_text, icon_of, log_line, relation_row, schema_rows, sidebar_rows, tab_body,
    CellModelView, SidebarRowView,
};

verus! {

// ---- labels ----------------------------------------------------------------------

/// What a command does once the palette is closed.
pub open spec fn command_done(v: WorkspaceView, cmd: PaletteCmd) -> WorkspaceView {
    match cmd {
        PaletteCmd::Run => v.run_active_tab(),
        PaletteCmd::Explain => v.explain_active(false),
        PaletteCmd::ExplainAnalyze => v.explain_active(true),
        PaletteCmd::Format => v.format_active(),
        PaletteCmd::ExportCsv => v.export_active(ExportFormat::Csv),
        PaletteCmd::ExportJson => v.export_active(ExportFormat::Json),
        PaletteCmd::ExportInserts => v.export_active(ExportFormat::Inserts),
        PaletteCmd::CopyTsv => v.copy_active_tsv(),
        PaletteCmd::Cancel => v.cancel(),
        PaletteCmd::Refresh => v.connect_or_refresh(),
        PaletteCmd::Terminal => v.toggle_terminal(),
        PaletteCmd::Connections => v.toggle_connections(),
        PaletteCmd::Settings => v.toggle_settings(),
    }
}

/// Choosing a command closes the palette and does what the command stands for.
pub proof fn law_commands_are_done(w: WorkspaceView, cmd: PaletteCmd)
    ensures
        w.perform(ActionView::Command { cmd }) == command_done(
            WorkspaceView { palette_open: false, ..w },
            cmd,
        ),
{
    reveal(WorkspaceView::run_command);
}

/// Every command stands once in the palette, under a label that says what it does.
pub proof fn law_commands_are_named(cmd: PaletteCmd)
    ensures
        all_commands().len() == 13,
        exists|k: int|
            0 <= k < 13 && #[trigger] all_commands()[k] == (
                match cmd {
                    PaletteCmd::Run => "Run query"@,
                    PaletteCmd::Explain => "Explain query"@,
                    PaletteCmd::ExplainAnalyze => "Explain analyze (runs query)"@,
                    PaletteCmd::Format => "Format SQL"@,
                    PaletteCmd::ExportCsv => "Export result as CSV"@,
                    PaletteCmd::ExportJson => "Export result as JSON"@,
                    PaletteCmd::ExportInserts => "Export result as SQL INSERTs"@,
                    PaletteCmd::CopyTsv => "Copy result (TSV) to clipboard"@,
                    PaletteCmd::Cancel => "Cancel query"@,
                    PaletteCmd::Refresh => "Refresh schemas"@,
                    PaletteCmd::Connections => "Manage connections"@,
                    PaletteCmd::Settings => "Open settings"@,
                    PaletteCmd::Terminal => "Toggle terminal"@,
                },
                cmd,
            ) && forall|j: int| 0 <= j < 13 && j != k ==> (#[trigger] all_commands()[j]).1 != cmd,
{
    let k: int = match cmd {
        PaletteCmd::Run => 0,
        PaletteCmd::Explain => 1,
        PaletteCmd::ExplainAnalyze => 2,
        PaletteCmd::Format => 3,
        PaletteCmd::ExportCsv => 4,
        PaletteCmd::ExportJson => 5,
        PaletteCmd::ExportInserts => 6,
        PaletteCmd::CopyTsv => 7,
        PaletteCmd::Cancel => 8,
        PaletteCmd::Refresh => 9,
        PaletteCmd::Connections => 10,
        PaletteCmd::Settings => 11,
        PaletteCmd::Terminal => 12,
    };
    assert(all_commands()[k].1 == cmd);
}

/// The buttons of a tab do what they say, to that tab, and can be pressed where there is
/// something to do: rows are added and deleted only where the result can be edited.
pub proof fn law_tab_buttons_do_what_they_say(w: WorkspaceView, t: TabView)
    ensures
        ({
            let b = tab_body(t);
            &&& t.running ==> b.run.label == "Stop"@ && w.perform(b.run.action) == w.cancel()
            &&& !t.running ==> b.run.label == "Run (Ctrl/Cmd+Enter)"@ && w.perform(b.run.action)
                == w.run_active_tab()
            &&& b.add_row.label == "Add row"@
            &&& w.perform(b.add_row.action) == w.add_row(t.id)
            &&& (b.add_row.enabled <==> t.edit_target is Some)
            &&& w.perform(b.delete_row.action) == w.delete_current_row(t.id)
            &&& (b.delete_row.enabled <==> t.edit_target is Some && t.current_row is Some)
            &&& (t.new_row_idx is Some && t.current_row == t.new_row_idx)
                ==> b.delete_row.label == "Discard row"@
            &&& (t.current_row is None || t.current_row != t.new_row_idx)
                ==> b.delete_row.label == "Delete row"@
            &&& b.reload.label == "Refresh data"@
            &&& w.perform(b.reload.action) == w.reload_data(t.id)
            &&& (b.reload.enabled <==> t.base_sql is Some)
            &&& (b.save_row is Some <==> t.new_row_idx is Some)
            &&& b.save_row is Some ==> b.save_row->0.label == "Save row"@ && b.save_row->0.enabled
                && w.perform(b.save_row->0.action) == w.save_new_row(t.id)
            &&& (b.editor <==> !(t.kind is Table))
            &&& b.plan == t.plan
        }),
{
    reveal(WorkspaceView::perform_on_tab);
}

/// A chip of the tab strip bears the title of its tab, is marked where the tab is the active
/// one, and brings that tab to the front or closes it.
pub proof fn law_chips_are_about_their_tabs(w: WorkspaceView, idx: usize)
    requires
        idx < w.tabs.len(),
    ensures
        ({
            let t = w.tabs[idx as int];
            let c = chip(t, idx, w.active);
            &&& c.title == t.title
            &&& (c.active <==> w.active == Some(idx))
            &&& w.perform(c.activate) == w.activate_tab(idx)
            &&& w.perform(c.close) == w.close_tab(t.id)
        }),
{
}

// ---- exports ---------------------------------------------------------------------

/// Whether a result can be exported: it has columns, and no row is without cells.
pub open spec fn has_cells(t: TabView) -> bool {
    &&& t.headers.len() > 0
    &&& forall|i: int| 0 <= i < t.rows.len() ==> (#[trigger] t.rows[i]).len() > 0
}

proof fn lemma_ends_in(name: Seq<char>, kind: Seq<char>)
    ensures
        ("."@ + kind).is_suffix_of(name + "."@ + kind),
{
    let all = name + "."@ + kind;
    let end = "."@ + kind;
    assert(all.subrange(all.len() - end.len(), all.len() as int) =~= end);
}

/// An export of the result that is shown is saved under a name with the ending of its format,
/// and read back it is that result: CSV and JSON say its columns and cells, `INSERT`s put its
/// rows into the table that it comes from. The result itself stays as it is.
pub proof fn law_export_holds_the_result(w: WorkspaceView)
    requires
        w.active_tab() is Some,
        has_cells(w.active_tab()->0),
    ensures
        ({
            let t = w.active_tab()->0;
            &&& ({
                let v = w.export_active(ExportFormat::Csv);
                &&& v.tabs == w.tabs
                &&& v.outbox.len() == w.outbox.len() + 1
                &&& v.outbox.last() matches EffectView::SaveFile { suggested, data }
                &&& ("."@ + "csv"@).is_suffix_of(suggested)
                &&& says_rows(read_records(data, 0), t.headers, t.rows)
            })
            &&& ({
                let v = w.export_active(ExportFormat::Json);
                &&& v.tabs == w.tabs
                &&& v.outbox.len() == w.outbox.len() + 1
                &&& v.outbox.last() matches EffectView::SaveFile { suggested, data }
                &&& ("."@ + "json"@).is_suffix_of(suggested)
                &&& read_array(data) is Some
                &&& holds_rows(read_array(data)->0, t.headers, t.rows)
            })
            &&& ({
                let v = w.export_active(ExportFormat::Inserts);
                &&& v.tabs == w.tabs
                &&& v.outbox.len() == w.outbox.len() + 1
                &&& v.outbox.last() matches EffectView::SaveFile { suggested, data }
                &&& ("."@ + "sql"@).is_suffix_of(suggested)
                &&& t.kind matches TabKindView::Table { schema, table } ==> inserts_into(
                    data,
                    schema,
                    table,
                    t,
                )
                &&& !(t.kind is Table) && t.edit_target is Some ==> inserts_into(
                    data,
                    t.edit_target->0.schema,
                    t.edit_target->0.table,
                    t,
                )
            })
        }),
{
    let t = w.active_tab()->0;
    law_csv_says_the_cells(t.headers, t.rows);
    law_json_says_the_cells(t.headers, t.rows);
    lemma_ends_in(export_name(t), "csv"@);
    lemma_ends_in(export_name(t), "json"@);
    lemma_ends_in(export_name(t), "sql"@);
    match t.kind {
        TabKindView::Table { schema, table } => lemma_inserts_into(t, schema, table),
        _ => if let Some(target) = t.edit_target {
            lemma_inserts_into(t, target.schema, target.table);
        },
    }
}

/// Whether statements put the rows of a result into a table: one for each row, in order, with
/// every column under its name.
pub open spec fn inserts_into(
    data: Seq<char>,
    schema: Seq<char>,
    table: Seq<char>,
    t: TabView,
) -> bool {
    let target = EditTargetView { schema, table, pk_columns: Seq::empty() };
    read_lines(data, Seq::empty()) == Some(
        t.rows.map_values(
            |r: Seq<Cell>|
                as_read(target, RowEditView::Insert { values: row_values(t.headers, r) }),
        ),
    )
}

proof fn lemma_inserts_into(t: TabView, schema: Seq<char>, table: Seq<char>)
    requires
        t.headers.len() > 0,
        export_table(t) == ident(schema) + "."@ + ident(table),
    ensures
        inserts_into(
            crate::workspace::export::export_text(t, ExportFormat::Inserts),
            schema,
            table,
            t,
        ),
{
    let target = EditTargetView { schema, table, pk_columns: Seq::empty() };
    law_inserts_read_back(target, t.headers, t.rows);
    let a = |r: Seq<Cell>|
        as_read(target, RowEditView::Insert { values: row_values(t.headers, r) });
    assert(t.rows.map_values(a) =~= t.rows.map_values(
        |r: Seq<Cell>|
            as_read(target, RowEditView::Insert { values: row_values(t.headers, r) }),
    ));
}

/// What is copied reads back as the result that is shown.
pub proof fn law_copy_holds_the_result(w: WorkspaceView)
    requires
        w.active_tab() is Some,
        has_cells(w.active_tab()->0),
    ensures
        ({
            let t = w.active_tab()->0;
            let v = w.copy_active_tsv();
            &&& v.tabs == w.tabs
            &&& v.outbox.len() == w.outbox.len() + 1
            &&& v.outbox.last() matches EffectView::Copy { text }
            &&& tells_rows(text, t.headers, t.rows)
        }),
{
    let t = w.active_tab()->0;
    law_tsv_reads_back(t.headers, t.rows);
}

/// Without a result there is nothing to export and nothing to copy.
pub proof fn law_nothing_is_exported_without_a_result(w: WorkspaceView, fmt: ExportFormat)
    requires
        w.active_tab() is None || w.active_tab()->0.headers.len() == 0,
    ensures
        w.export_active(fmt).outbox == w.outbox,
        w.copy_active_tsv().outbox == w.outbox,
{
}

/// The name of an export has no character but letters, numbers, dots, underscores and dashes;
/// it is the title of the tab, or the name of its table, with underscores for the others.
pub proof fn law_export_names_are_plain(t: TabView)
    ensures
        ({
            let raw = match t.kind {
                TabKindView::Table { schema, table } => schema + "."@ + table,
                _ => t.title,
            };
            let name = export_name(t);
            &&& raw.len() == 0 ==> name == "export"@
            &&& raw.len() > 0 ==> name.len() == raw.len()
            &&& raw.len() > 0 ==> forall|i: int|
                0 <= i < raw.len() ==> #[trigger] name[i] == (if alphanumeric(raw[i]) || raw[i]
                    == '.' || raw[i] == '_' || raw[i] == '-' {
                    raw[i]
                } else {
                    '_'
                })
        }),
{
}

// ---- the grid --------------------------------------------------------------------

/// The arrow on a header tells the order that its query asks for: up for ascending, down for
/// descending, and none on the bare name where it does not order.
pub proof fn law_arrow_tells_the_order(w: WorkspaceView, id: u64, col: usize)
    requires
        w.conn is Some,
        w.tab(id) is Some,
        w.tab(id)->0.base_sql is Some,
        says_something(w.tab(id)->0.base_sql->0),
        col < w.tab(id)->0.headers.len(),
    ensures
        ({
            let name = w.tab(id)->0.headers[col as int];
            let v = w.perform(ActionView::OnTab { tab: id, what: TabAction::Sort { col } });
            let shown = header_text(v.tab(id)->0, col);
            &&& v.tab(id) is Some
            &&& v.outbox.last() matches EffectView::Query { sql, .. }
            &&& shown == name + seq![' ', '\u{25b2}'] || shown == name + seq![' ', '\u{25bc}'] || shown
                == name
            &&& shown == name + seq![' ', '\u{25b2}'] ==> (ident(name) + " ASC"@).is_suffix_of(sql)
            &&& shown == name + seq![' ', '\u{25bc}'] ==> (ident(name) + " DESC"@).is_suffix_of(sql)
            &&& shown == name ==> sql == w.tab(id)->0.base_sql->0
        }),
{
    reveal(WorkspaceView::perform_on_tab);
    law_a_header_sorts_as_it_shows(w, id, col);
    reveal_strlit(" \u{25b2}");
    reveal_strlit(" \u{25bc}");
    reveal_strlit("");
    let t = w.tab(id)->0;
    let name = t.headers[col as int];
    let v = w.toggle_sort(id, col);
    let u = v.tab(id)->0;
    assert(" \u{25b2}"@ =~= seq![' ', '\u{25b2}']);
    assert(" \u{25bc}"@ =~= seq![' ', '\u{25bc}']);
    let up = name + seq![' ', '\u{25b2}'];
    let down = name + seq![' ', '\u{25bc}'];
    assert(up.last() == '\u{25b2}' && down.last() == '\u{25bc}');
    assert(up.len() == name.len() + 2 && down.len() == name.len() + 2);
    assert(header_text(u, col) =~= match u.sort_state {
        Some((_, true)) => down,
        Some((_, false)) => up,
        None => name,
    });
}

/// A cell shows its text, or NULL for NULL, or the editor where it is being edited. Only a cell
/// with a staged edit is marked, and only one whose column is a column of the table can be
/// edited.
pub proof fn law_cells_show_their_values(t: TabView, row: usize, col: usize)
    ensures
        (match cell_model(t, row, col) {
            CellModelView::Editor => t.editing == Some((row, col)),
            CellModelView::Shown { text, null, editable, edited } => {
                &&& t.editing != Some((row, col))
                &&& (editable <==> col < t.edit_cols.len() && t.edit_cols[col as int] is Some)
                &&& (edited <==> editable && t.edited_cells.contains((row, col)))
                &&& (row < t.rows.len() && col < t.rows[row as int].len()) ==> (
                match t.rows[row as int][col as int] {
                    Some(s) => text == s && !null,
                    None => text == "NULL"@ && null,
                })
                &&& (row >= t.rows.len() || col >= t.rows[row as int].len()) ==> text.len() == 0
                    && !null
            },
        }),
{
    reveal_strlit("");
}

// ---- the sidebar -----------------------------------------------------------------

proof fn lemma_sidebar_front(nodes: Seq<SchemaNodeView>, open: Set<Seq<char>>, k: int)
    requires
        0 <= k < nodes.len(),
        nodes.len() <= usize::MAX,
    ensures
        ({
            let start = sidebar_rows(nodes.take(k), open).len() as int;
            let own = schema_rows(nodes[k], k as usize, open.contains(schema_id(nodes[k].name)));
            &&& start + own.len() <= sidebar_rows(nodes, open).len()
            &&& forall|i: int|
                0 <= i < own.len() ==> sidebar_rows(nodes, open)[#[trigger] (start + i)] == own[i]
        }),
    decreases nodes.len(),
{
    let front = nodes.drop_last();
    let start = sidebar_rows(nodes.take(k), open).len() as int;
    let own = schema_rows(nodes[k], k as usize, open.contains(schema_id(nodes[k].name)));
    if k < front.len() {
        lemma_sidebar_front(front, open, k);
        assert(front.take(k) =~= nodes.take(k));
        assert forall|i: int| 0 <= i < own.len() implies sidebar_rows(nodes, open)[#[trigger] (start
            + i)] == own[i] by {
            assert(sidebar_rows(front, open)[start + i] == own[i]);
        }
    } else {
        assert(nodes.take(k) =~= front);
    }
}

/// Whether a row of the sidebar opens or closes a schema and bears its name.
pub open spec fn is_schema_row(
    row: SidebarRowView,
    w: WorkspaceView,
    ix: usize,
    name: Seq<char>,
) -> bool {
    row matches SidebarRowView::Schema { name: n, action, .. } && n == name && w.perform(action)
        == w.toggle_schema(ix)
}

/// Whether a row of the sidebar opens a relation and bears its name.
pub open spec fn is_relation_row(
    row: SidebarRowView,
    w: WorkspaceView,
    schema: Seq<char>,
    name: Seq<char>,
) -> bool {
    row matches SidebarRowView::Relation { name: n, action, .. } && n == name && w.perform(action)
        == w.open_table_tab(schema, name)
}

/// The sidebar has a row for every schema, which opens or closes it, and behind the row of one
/// that is open a row for each of its relations, in order, which opens that relation of that
/// schema.
pub proof fn law_sidebar_rows_open_what_they_name(w: WorkspaceView, k: int)
    requires
        0 <= k < w.tree.schemas.len(),
        w.tree.schemas.len() <= usize::MAX,
    ensures
        ({
            let nodes = w.tree.schemas;
            let rows = sidebar_rows(nodes, w.tree.expanded);
            let start = sidebar_rows(nodes.take(k), w.tree.expanded).len() as int;
            let open = w.tree.expanded.contains(schema_id(nodes[k].name));
            &&& start < rows.len()
            &&& is_schema_row(rows[start], w, k as usize, nodes[k].name)
            &&& (open && nodes[k].relations is Some) ==> {
                let rels = nodes[k].relations->0;
                &&& start + rels.len() < rows.len()
                &&& forall|j: int|
                    0 <= j < rels.len() ==> is_relation_row(
                        rows[start + 1 + j],
                        w,
                        nodes[k].name,
                        (#[trigger] rels[j]).name,
                    )
            }
        }),
{
    let nodes = w.tree.schemas;
    let expanded = w.tree.expanded;
    let rows = sidebar_rows(nodes, expanded);
    let start = sidebar_rows(nodes.take(k), expanded).len() as int;
    let open = expanded.contains(schema_id(nodes[k].name));
    let own = schema_rows(nodes[k], k as usize, open);
    lemma_sidebar_front(nodes, expanded, k);
    assert(rows[start + 0] == own[0]);
    if open && nodes[k].relations is Some {
        let rels = nodes[k].relations->0;
        assert forall|j: int| 0 <= j < rels.len() implies is_relation_row(
            rows[start + 1 + j],
            w,
            nodes[k].name,
            (#[trigger] rels[j]).name,
        ) by {
            assert(rows[start + (1 + j)] == own[1 + j]);
            assert(own[1 + j] == relation_row(nodes[k].name, rels[j]));
        }
    }
}

// ---- connections and settings ----------------------------------------------------

/// Whether a connection is made as a saved one says, with a password.
pub open spec fn is_made_as_saved(
    cfg: ConnectionConfigView,
    e: ConnectionEntryView,
    password: Option<Seq<char>>,
) -> bool {
    &&& cfg.name == e.name
    &&& cfg.host == e.host
    &&& cfg.port == e.port
    &&& cfg.dbname == e.dbname
    &&& cfg.user == e.user
    &&& cfg.password == password
}

/// A row of the connection manager says where the connection leads, and connects there, with
/// the password that is known for its name. It is marked where it is the open one.
pub proof fn law_rows_connect_where_they_say(w: WorkspaceView, idx: usize)
    requires
        idx < w.settings.connections.len(),
    ensures
        ({
            let e = w.settings.connections[idx as int];
            let row = w.conn_row(idx);
            let v = w.perform(row.action);
            &&& row.name == e.name
            &&& row.subtitle == e.user + "@"@ + e.host + ":"@ + crate::text::decimal(e.port as nat)
                + "/"@ + e.dbname
            &&& (row.active <==> w.conn is Some && w.cfg is Some && w.cfg->0.name == e.name)
            &&& v.outbox.last() matches EffectView::Connect { attempt, cfg }
            &&& attempt == v.attempt
            &&& v.cfg == Some(cfg)
            &&& is_made_as_saved(
                cfg,
                e,
                if w.passwords.dom().contains(e.name) {
                    Some(w.passwords[e.name])
                } else {
                    None
                },
            )
        }),
{
    reveal(WorkspaceView::perform_on_connections);
}

/// A connection that is saved stands last among the saved ones, in place of one with its name,
/// and all the others stay. It is connected to with the password that was typed, which is kept
/// where there is one.
pub proof fn law_saved_connection_is_kept_and_opened(w: WorkspaceView, form: ConnFormView)
    requires
        form.entry() is Some,
    ensures
        ({
            let e = form.entry()->0;
            let v = w.add_connection(form);
            let others = picked(
                w.settings.connections,
                |c: ConnectionEntryView| c.name != e.name,
                |c: ConnectionEntryView| c,
            );
            &&& v.settings.connections == others.push(e)
            &&& v.settings.theme == w.settings.theme
            &&& v.settings.keymap == w.settings.keymap
            &&& v.outbox[w.outbox.len() as int] == (EffectView::SaveSettings { report: false })
            &&& form.password.len() > 0 ==> v.passwords == w.passwords.insert(
                e.name,
                form.password,
            ) && v.outbox[(w.outbox.len() + 1) as int] == (EffectView::SavePassword {
                name: e.name,
                password: form.password,
            })
            &&& form.password.len() == 0 ==> v.passwords == w.passwords
            &&& v.outbox.last() matches EffectView::Connect { attempt, cfg }
            &&& attempt == v.attempt
            &&& is_made_as_saved(
                cfg,
                e,
                if form.password.len() > 0 {
                    Some(form.password)
                } else {
                    None
                },
            )
        }),
{
    law_other_connections_stay(w.settings.connections, form.entry()->0.name);
}

/// Each choice of colours sets the colours that it names; the one that is in use is marked.
pub proof fn law_colours_are_as_chosen(w: WorkspaceView, path: Option<Seq<char>>)
    ensures
        ({
            let themes = w.settings_pane(path).themes;
            &&& themes.len() == 2
            &&& themes[0].label == "Light"@
            &&& themes[1].label == "Dark"@
            &&& w.perform(themes[0].action).settings.theme == Theme::Light
            &&& w.perform(themes[1].action).settings.theme == Theme::Dark
            &&& (themes[0].selected <==> w.settings.theme == Theme::Light)
            &&& (themes[1].selected <==> w.settings.theme == Theme::Dark)
            &&& w.settings.theme == Theme::Light ==> w.perform(themes[1].action).outbox
                == w.outbox.push(EffectView::SetTheme { theme: Theme::Dark }).push(
                EffectView::SaveSettings { report: true },
            )
            &&& w.settings.theme == Theme::Dark ==> w.perform(themes[0].action).outbox
                == w.outbox.push(EffectView::SetTheme { theme: Theme::Light }).push(
                EffectView::SaveSettings { report: true },
            )
        }),
{
    reveal(WorkspaceView::perform_on_connections);
}

/// A line of the log begins with a check mark where the query succeeded and with a cross where
/// it failed.
pub proof fn law_log_marks_failures(e: LogEntryView)
    ensures
        log_line(e).len() >= 3,
        e.ok ==> log_line(e)[0] == '\u{2713}',
        !e.ok ==> log_line(e)[0] == '\u{2717}',
        log_line(e).skip(3) == crate::sql::line_text(e.sql),
{
    reveal_strlit("\u{2713}");
    reveal_strlit("\u{2717}");
    reveal_strlit("  ");
    assert(log_line(e).skip(3) =~= crate::sql::line_text(e.sql));
}

/// A relation has the icon of its kind.
pub proof fn law_icons_tell_the_kind(kind: RelationKind)
    ensures
        (kind == RelationKind::View || kind == RelationKind::MaterializedView) ==> icon_of(kind)
            == "icons/eye.svg"@,
        kind == RelationKind::ForeignTable ==> icon_of(kind) == "icons/database.svg"@,
        (kind == RelationKind::Table || kind == RelationKind::Other) ==> icon_of(kind)
            == "icons/table.svg"@,
{
}

} // verus!
