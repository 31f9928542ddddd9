//! What the panels of the window show, and what a click on each part asks for.

use vstd::prelude::*;
use crate::introspect::RelationKind;
use crate::settings::{ConnectionEntryView, Theme};
use crate::sql::{line_text, oneline};
use crate::text::{decimal, decimal_text};
use crate::tree::{node2, RelNodeView, SchemaNode, SchemaNodeView};
use crate::export::Cell;
use crate::ids::IdSet;
use crate::types::CellValue;
use crate::workspace::action::{Action, ActionView, ConnAction, TabAction};
use crate::workspace::schema::schema_id;
use crate::workspace::staging::grid_cell;
use crate::workspace::state::{
    law_log_keeps_the_most_recent, logged, LogEntry, LogEntryView, QueryLog, Workspace,
    WorkspaceView, LOG_CAP,
};
use crate::workspace::tab::{Tab, TabKind, TabKindView, TabView};

verus! {

// ---- buttons ---------------------------------------------------------------------------

/// A button: its icon, what it says, whether it can be pressed, and what that asks for.
#[derive(Debug)]
pub struct Button {
    pub icon: &'static str,
    pub label: &'static str,
    pub enabled: bool,
    pub action: Action,
}

/// What a [`Button`] says.
pub struct ButtonView {
    pub icon: Seq<char>,
    pub label: Seq<char>,
    pub enabled: bool,
    pub action: ActionView,
}

impl DeepView for Button {
    type V = ButtonView;

    open spec fn deep_view(&self) -> ButtonView {
        ButtonView {
            icon: self.icon@,
            label: self.label@,
            enabled: self.enabled,
            action: self.action.deep_view(),
        }
    }
}

/// A button that can be pressed.
pub open spec fn button(icon: Seq<char>, label: Seq<char>, action: ActionView) -> ButtonView {
    ButtonView { icon, label, enabled: true, action }
}

/// A button about connections and settings.
pub open spec fn conn_button(icon: Seq<char>, label: Seq<char>, what: ConnAction) -> ButtonView {
    button(icon, label, ActionView::OnConnections { what })
}

/// A button of a tab.
pub open spec fn tab_button(
    icon: Seq<char>,
    label: Seq<char>,
    enabled: bool,
    tab: u64,
    what: TabAction,
) -> ButtonView {
    ButtonView { icon, label, enabled, action: ActionView::OnTab { tab, what } }
}

fn make_conn_button(icon: &'static str, label: &'static str, what: ConnAction) -> (r: Button)
    ensures
        r.deep_view() == conn_button(icon@, label@, what),
{
    Button { icon, label, enabled: true, action: Action::OnConnections { what } }
}

fn make_tab_button(
    icon: &'static str,
    label: &'static str,
    enabled: bool,
    tab: u64,
    what: TabAction,
) -> (r: Button)
    ensures
        r.deep_view() == tab_button(icon@, label@, enabled, tab, what),
{
    Button { icon, label, enabled, action: Action::OnTab { tab, what } }
}

// ---- the sidebar -----------------------------------------------------------------------

/// The icon of a relation.
pub open spec fn icon_of(kind: RelationKind) -> Seq<char> {
    match kind {
        RelationKind::View | RelationKind::MaterializedView => "icons/eye.svg"@,
        RelationKind::ForeignTable => "icons/database.svg"@,
        _ => "icons/table.svg"@,
    }
}

/// The icon of a relation.
pub fn rel_icon(kind: RelationKind) -> (r: &'static str)
    ensures
        r@ == icon_of(kind),
{
    match kind {
        RelationKind::Table => "icons/table.svg",
        RelationKind::View | RelationKind::MaterializedView => "icons/eye.svg",
        RelationKind::ForeignTable => "icons/database.svg",
        RelationKind::Other => "icons/table.svg",
    }
}

/// A row of the sidebar.
#[derive(Debug)]
pub enum SidebarRow {
    /// A schema, with its chevron.
    Schema { chevron: &'static str, name: String, action: Action },
    /// What stands in place of relations.
    Note { text: &'static str },
    /// A relation of the schema above.
    Relation { icon: &'static str, name: String, action: Action },
}

/// What a [`SidebarRow`] says.
pub enum SidebarRowView {
    Schema { chevron: Seq<char>, name: Seq<char>, action: ActionView },
    Note { text: Seq<char> },
    Relation { icon: Seq<char>, name: Seq<char>, action: ActionView },
}

impl DeepView for SidebarRow {
    type V = SidebarRowView;

    open spec fn deep_view(&self) -> SidebarRowView {
        match self {
            SidebarRow::Schema { chevron, name, action } => SidebarRowView::Schema {
                chevron: chevron@,
                name: name@,
                action: action.deep_view(),
            },
            SidebarRow::Note { text } => SidebarRowView::Note { text: text@ },
            SidebarRow::Relation { icon, name, action } => SidebarRowView::Relation {
                icon: icon@,
                name: name@,
                action: action.deep_view(),
            },
        }
    }
}

/// The row of a relation.
pub open spec fn relation_row(schema: Seq<char>, rel: RelNodeView) -> SidebarRowView {
    SidebarRowView::Relation {
        icon: icon_of(rel.kind),
        name: rel.name,
        action: ActionView::OpenTable { schema, table: rel.name },
    }
}

/// The rows of a schema: its own and, where it is open, those of its relations.
pub open spec fn schema_rows(
    n: SchemaNodeView,
    ix: usize,
    open: bool,
) -> Seq<SidebarRowView> {
    let own = SidebarRowView::Schema {
        chevron: if open {
            "icons/chevron-down.svg"@
        } else {
            "icons/chevron-right.svg"@
        },
        name: n.name,
        action: ActionView::ToggleSchema { ix },
    };
    seq![own] + (if !open {
        Seq::empty()
    } else {
        match n.relations {
            None => seq![SidebarRowView::Note { text: "loading\u{2026}"@ }],
            Some(rels) => if rels.len() == 0 {
                seq![SidebarRowView::Note { text: "(no tables)"@ }]
            } else {
                rels.map_values(|rel: RelNodeView| relation_row(n.name, rel))
            },
        }
    })
}

/// The rows of the sidebar.
pub open spec fn sidebar_rows(
    nodes: Seq<SchemaNodeView>,
    open: Set<Seq<char>>,
) -> Seq<SidebarRowView>
    decreases nodes.len(),
{
    if nodes.len() == 0 {
        Seq::empty()
    } else {
        sidebar_rows(nodes.drop_last(), open) + schema_rows(
            nodes.last(),
            (nodes.len() - 1) as usize,
            open.contains(schema_id(nodes.last().name)),
        )
    }
}

/// The sidebar.
#[derive(Debug)]
pub struct Sidebar {
    pub title: String,
    pub buttons: Vec<Button>,
    pub rows: Vec<SidebarRow>,
}

/// What a [`Sidebar`] says.
#[verifier::ext_equal]
pub struct SidebarView {
    pub title: Seq<char>,
    pub buttons: Seq<ButtonView>,
    pub rows: Seq<SidebarRowView>,
}

impl DeepView for Sidebar {
    type V = SidebarView;

    open spec fn deep_view(&self) -> SidebarView {
        SidebarView {
            title: self.title@,
            buttons: self.buttons.deep_view(),
            rows: self.rows.deep_view(),
        }
    }
}

impl WorkspaceView {
    /// The name of the connection, or another text where there is none.
    pub open spec fn connection_name(self, otherwise: Seq<char>) -> Seq<char> {
        match (self.conn, self.cfg) {
            (Some(_), Some(cfg)) => cfg.name,
            _ => otherwise,
        }
    }

    /// The sidebar.
    pub open spec fn sidebar(self) -> SidebarView {
        let always = seq![
            conn_button("icons/globe.svg"@, "Connections"@, ConnAction::Manage),
            conn_button("icons/settings.svg"@, "Settings"@, ConnAction::Settings),
        ];
        SidebarView {
            title: self.connection_name("DATABASE"@),
            buttons: if self.conn is Some {
                always.push(
                    conn_button(
                        "icons/refresh-cw.svg"@,
                        "Refresh schemas"@,
                        ConnAction::Refresh,
                    ),
                )
            } else {
                always
            },
            rows: sidebar_rows(self.tree.schemas, self.tree.expanded),
        }
    }
}

fn push_schema_rows(n: &SchemaNode, ix: usize, open: bool, out: &mut Vec<SidebarRow>)
    ensures
        final(out).deep_view() == old(out).deep_view() + schema_rows(n.deep_view(), ix, open),
{
    let ghost start = out.deep_view();
    let ghost nv = n.deep_view();
    let own = SidebarRow::Schema {
        chevron: if open {
            "icons/chevron-down.svg"
        } else {
            "icons/chevron-right.svg"
        },
        name: n.name.clone(),
        action: Action::ToggleSchema { ix },
    };
    let ghost ov = own.deep_view();
    out.push(own);
    proof {
        assert(out.deep_view() =~= start + seq![ov]);
    }
    if !open {
        proof {
            assert(out.deep_view() =~= start + schema_rows(nv, ix, open));
        }
        return;
    }
    match &n.relations {
        None => {
            out.push(SidebarRow::Note { text: "loading\u{2026}" });
            proof {
                assert(out.deep_view() =~= start + schema_rows(nv, ix, open));
            }
        },
        Some(rels) => {
            if rels.len() == 0 {
                out.push(SidebarRow::Note { text: "(no tables)" });
                proof {
                    assert(nv.relations->0.len() == 0);
                    assert(out.deep_view() =~= start + schema_rows(nv, ix, open));
                }
                return;
            }
            let ghost rv = rels.deep_view();
            let ghost rows = rv.map_values(|rel: RelNodeView| relation_row(nv.name, rel));
            let ghost head = out.deep_view();
            proof {
                assert(head + rows.take(0) =~= head);
            }
            let mut i: usize = 0;
            while i < rels.len()
                invariant
                    i <= rels@.len(),
                    rv == rels.deep_view(),
                    nv == n.deep_view(),
                    rows == rv.map_values(|rel: RelNodeView| relation_row(nv.name, rel)),
                    out.deep_view() == head + rows.take(i as int),
                decreases rels@.len() - i,
            {
                let rel = &rels[i];
                let row = SidebarRow::Relation {
                    icon: rel_icon(rel.kind),
                    name: rel.name.clone(),
                    action: Action::OpenTable { schema: n.name.clone(), table: rel.name.clone() },
                };
                let ghost before = out.deep_view();
                let ghost w = row.deep_view();
                out.push(row);
                proof {
                    assert(rv[i as int] == rel.deep_view());
                    assert(w == rows[i as int]);
                    assert(out.deep_view() =~= before.push(w));
                    assert(head + rows.take(i + 1) =~= (head + rows.take(i as int)).push(w));
                }
                i += 1;
            }
            proof {
                assert(rows.take(i as int) =~= rows);
                assert(out.deep_view() =~= start + schema_rows(nv, ix, open));
            }
        },
    }
}

fn rows_of_sidebar(nodes: &Vec<SchemaNode>, open: &IdSet) -> (r: Vec<SidebarRow>)
    ensures
        r.deep_view() == sidebar_rows(nodes.deep_view(), open.deep_view()),
{
    let ghost nv = nodes.deep_view();
    let mut r: Vec<SidebarRow> = Vec::new();
    proof {
        assert(r.deep_view() =~= sidebar_rows(nv.take(0), open.deep_view()));
    }
    let mut i: usize = 0;
    while i < nodes.len()
        invariant
            i <= nodes@.len(),
            nv == nodes.deep_view(),
            r.deep_view() == sidebar_rows(nv.take(i as int), open.deep_view()),
        decreases nodes@.len() - i,
    {
        let n = &nodes[i];
        proof {
            assert(nv.take(i + 1).drop_last() =~= nv.take(i as int));
            assert(nv.take(i + 1).last() == n.deep_view());
        }
        let is_open = open.contains(node2("sch", n.name.as_str()).as_str());
        push_schema_rows(n, i, is_open, &mut r);
        i += 1;
    }
    proof {
        assert(nv.take(i as int) =~= nv);
    }
    r
}

// ---- tabs ------------------------------------------------------------------------------

/// One tab of the tab strip.
#[derive(Debug)]
pub struct Chip {
    pub icon: &'static str,
    pub title: String,
    pub active: bool,
    /// What a click on the title asks for.
    pub activate: Action,
    /// What a click on the cross asks for.
    pub close: Action,
}

/// What a [`Chip`] says.
pub struct ChipView {
    pub icon: Seq<char>,
    pub title: Seq<char>,
    pub active: bool,
    pub activate: ActionView,
    pub close: ActionView,
}

impl DeepView for Chip {
    type V = ChipView;

    open spec fn deep_view(&self) -> ChipView {
        ChipView {
            icon: self.icon@,
            title: self.title@,
            active: self.active,
            activate: self.activate.deep_view(),
            close: self.close.deep_view(),
        }
    }
}

/// How a tab is shown in the tab strip.
pub open spec fn chip(t: TabView, idx: usize, active: Option<usize>) -> ChipView {
    ChipView {
        icon: if t.kind is Table {
            "icons/table.svg"@
        } else {
            "icons/file.svg"@
        },
        title: t.title,
        active: active == Some(idx),
        activate: ActionView::ActivateTab { idx },
        close: ActionView::CloseTab { tab: t.id },
    }
}

/// The body of a tab: its buttons, and which parts it has.
#[derive(Debug)]
pub struct TabBody {
    /// Runs the tab, or stops what is running.
    pub run: Button,
    pub add_row: Button,
    pub delete_row: Button,
    pub reload: Button,
    /// Only while a new row is not saved.
    pub save_row: Option<Button>,
    /// What stands before the filter of a table.
    pub filter_label: Option<String>,
    /// Whether there is an editor above the result.
    pub editor: bool,
    /// A plan that is shown in place of the result.
    pub plan: Option<String>,
}

/// What a [`TabBody`] says.
#[verifier::ext_equal]
pub struct TabBodyView {
    pub run: ButtonView,
    pub add_row: ButtonView,
    pub delete_row: ButtonView,
    pub reload: ButtonView,
    pub save_row: Option<ButtonView>,
    pub filter_label: Option<Seq<char>>,
    pub editor: bool,
    pub plan: Option<Seq<char>>,
}

impl DeepView for TabBody {
    type V = TabBodyView;

    open spec fn deep_view(&self) -> TabBodyView {
        TabBodyView {
            run: self.run.deep_view(),
            add_row: self.add_row.deep_view(),
            delete_row: self.delete_row.deep_view(),
            reload: self.reload.deep_view(),
            save_row: self.save_row.deep_view(),
            filter_label: self.filter_label.deep_view(),
            editor: self.editor,
            plan: self.plan.deep_view(),
        }
    }
}

/// The body of a tab.
pub open spec fn tab_body(t: TabView) -> TabBodyView {
    let editable = t.edit_target is Some;
    TabBodyView {
        run: if t.running {
            button("icons/circle-x.svg"@, "Stop"@, ActionView::Cancel)
        } else {
            button("icons/play.svg"@, "Run (Ctrl/Cmd+Enter)"@, ActionView::Run)
        },
        add_row: tab_button("icons/plus.svg"@, "Add row"@, editable, t.id, TabAction::AddRow),
        delete_row: tab_button(
            "icons/minus.svg"@,
            if t.current_row is Some && t.current_row == t.new_row_idx {
                "Discard row"@
            } else {
                "Delete row"@
            },
            editable && t.current_row is Some,
            t.id,
            TabAction::DeleteRow,
        ),
        reload: tab_button(
            "icons/refresh-cw.svg"@,
            "Refresh data"@,
            t.base_sql is Some,
            t.id,
            TabAction::Reload,
        ),
        save_row: if t.new_row_idx is Some {
            Some(tab_button("icons/check.svg"@, "Save row"@, true, t.id, TabAction::SaveRow))
        } else {
            None
        },
        filter_label: match t.kind {
            TabKindView::Table { schema, table } => Some(schema + "."@ + table + "  WHERE"@),
            _ => None,
        },
        editor: !(t.kind is Table),
        plan: t.plan,
    }
}

/// The body of a tab.
pub fn body_of(t: &Tab) -> (r: TabBody)
    ensures
        r.deep_view() == tab_body(t.deep_view()),
{
    let editable = t.edit_target.is_some();
    let run = if t.running {
        Button { icon: "icons/circle-x.svg", label: "Stop", enabled: true, action: Action::Cancel }
    } else {
        Button {
            icon: "icons/play.svg",
            label: "Run (Ctrl/Cmd+Enter)",
            enabled: true,
            action: Action::Run,
        }
    };
    let on_new_row = match (t.current_row, t.new_row_idx) {
        (Some(a), Some(b)) => a == b,
        _ => false,
    };
    TabBody {
        run,
        add_row: make_tab_button("icons/plus.svg", "Add row", editable, t.id, TabAction::AddRow),
        delete_row: make_tab_button(
            "icons/minus.svg",
            if on_new_row {
                "Discard row"
            } else {
                "Delete row"
            },
            editable && t.current_row.is_some(),
            t.id,
            TabAction::DeleteRow,
        ),
        reload: make_tab_button(
            "icons/refresh-cw.svg",
            "Refresh data",
            t.base_sql.is_some(),
            t.id,
            TabAction::Reload,
        ),
        save_row: if t.new_row_idx.is_some() {
            Some(make_tab_button("icons/check.svg", "Save row", true, t.id, TabAction::SaveRow))
        } else {
            None
        },
        filter_label: match &t.kind {
            TabKind::Table { schema, table } => Some(
                schema.clone().concat(".").concat(table.as_str()).concat("  WHERE"),
            ),
            _ => None,
        },
        editor: !t.is_table(),
        plan: match &t.plan {
            Some(p) => Some(p.clone()),
            None => None,
        },
    }
}

// ---- the grid --------------------------------------------------------------------------

/// The header of a column: its name, with an arrow where the result is ordered by it.
pub open spec fn header_text(t: TabView, col: usize) -> Seq<char> {
    (if col < t.headers.len() {
        t.headers[col as int]
    } else {
        Seq::empty()
    }) + (match t.sort_state {
        Some((c, desc)) => if c == col {
            if desc {
                " \u{25bc}"@
            } else {
                " \u{25b2}"@
            }
        } else {
            ""@
        },
        None => ""@,
    })
}

/// What the grid shows for a cell.
#[derive(Debug)]
pub enum CellModel {
    /// The cell editor.
    Editor,
    /// A text. A cell that can be edited reacts to clicks; one with a staged edit is
    /// marked.
    Shown { text: String, null: bool, editable: bool, edited: bool },
}

/// What a [`CellModel`] says.
pub enum CellModelView {
    Editor,
    Shown { text: Seq<char>, null: bool, editable: bool, edited: bool },
}

impl DeepView for CellModel {
    type V = CellModelView;

    open spec fn deep_view(&self) -> CellModelView {
        match self {
            CellModel::Editor => CellModelView::Editor,
            CellModel::Shown { text, null, editable, edited } => CellModelView::Shown {
                text: text@,
                null: *null,
                editable: *editable,
                edited: *edited,
            },
        }
    }
}

/// The text that is shown for a cell: NULL for one without a value, nothing where there is
/// no cell.
pub open spec fn shown_text(cell: Option<Cell>) -> Seq<char> {
    match cell {
        Some(Some(s)) => s,
        Some(None) => "NULL"@,
        None => ""@,
    }
}

/// What the grid of a tab shows for a cell.
pub open spec fn cell_model(t: TabView, row: usize, col: usize) -> CellModelView {
    if t.editing == Some((row, col)) {
        CellModelView::Editor
    } else {
        let editable = t.real_column(col) is Some;
        CellModelView::Shown {
            text: shown_text(grid_cell(t.rows, row, col)),
            null: grid_cell(t.rows, row, col) == Some(None::<Seq<char>>),
            editable,
            edited: editable && t.edited_cells.contains((row, col)),
        }
    }
}

/// What a click on a cell that can be edited asks for: a second click opens the editor.
pub fn cell_click(tab: u64, row: usize, col: usize, clicks: usize) -> (r: Action)
    ensures
        r.deep_view() == (ActionView::OnTab {
            tab,
            what: if clicks >= 2 {
                TabAction::EditCell { row, col }
            } else {
                TabAction::SelectRow { row }
            },
        }),
{
    Action::OnTab {
        tab,
        what: if clicks >= 2 {
            TabAction::EditCell { row, col }
        } else {
            TabAction::SelectRow { row }
        },
    }
}

impl Tab {
    /// The header of a column.
    pub fn header_text(&self, col: usize) -> (r: String)
        ensures
            r@ == header_text(self.deep_view(), col),
    {
        let name = if col < self.headers.len() {
            self.headers[col].clone()
        } else {
            String::new()
        };
        let arrow = match self.sort_state {
            Some((c, desc)) => if c == col {
                if desc {
                    " \u{25bc}"
                } else {
                    " \u{25b2}"
                }
            } else {
                ""
            },
            None => "",
        };
        name.concat(arrow)
    }

    /// What the grid shows for a cell.
    pub fn cell_model(&self, row: usize, col: usize) -> (r: CellModel)
        ensures
            r.deep_view() == cell_model(self.deep_view(), row, col),
    {
        let editing = match self.editing {
            Some((a, b)) => a == row && b == col,
            None => false,
        };
        if editing {
            return CellModel::Editor;
        }
        let editable = col < self.edit_cols.len() && self.edit_cols[col].is_some();
        let edited = editable && self.edited_cells.contains((row, col));
        let (text, null) = if row < self.rows.len() && col < self.rows[row].len() {
            match &self.rows[row][col] {
                CellValue::Text(s) => (s.clone(), false),
                CellValue::Null => ("NULL".to_owned(), true),
            }
        } else {
            ("".to_owned(), false)
        };
        CellModel::Shown { text, null, editable, edited }
    }
}

// ---- the bottom ------------------------------------------------------------------------

/// A line of the query log.
pub open spec fn log_line(e: LogEntryView) -> Seq<char> {
    (if e.ok {
        "\u{2713}"@
    } else {
        "\u{2717}"@
    }) + "  "@ + line_text(e.sql)
}

impl LogEntry {
    /// The entry as a line of the query log.
    pub fn line(&self) -> (r: String)
        ensures
            r@ == log_line(self.deep_view()),
    {
        let glyph = if self.ok {
            "\u{2713}"
        } else {
            "\u{2717}"
        };
        glyph.to_owned().concat("  ").concat(oneline(self.sql.as_str()).as_str())
    }
}

/// The lines of the query log, the latest one first, each with whether the query succeeded.
pub open spec fn log_lines(log: Seq<LogEntryView>) -> Seq<(Seq<char>, bool)> {
    Seq::new(
        log.len(),
        |i: int| (log_line(log[log.len() - 1 - i]), log[log.len() - 1 - i].ok),
    )
}

impl QueryLog {
    /// The lines of the query log, the latest one first, each with whether the query
    /// succeeded.
    pub fn lines(&self) -> (r: Vec<(String, bool)>)
        ensures
            r.deep_view() == log_lines(self.deep_view()),
    {
        let ghost log = self.deep_view();
        let mut r: Vec<(String, bool)> = Vec::new();
        let mut i: usize = self.entries.len();
        while i > 0
            invariant
                i <= self.entries@.len(),
                log == self.deep_view(),
                r.deep_view() == log_lines(log).take(log.len() - i),
            decreases i,
        {
            i -= 1;
            let e = &self.entries[i];
            let ghost before = r.deep_view();
            let line = e.line();
            r.push((line, e.ok));
            proof {
                assert(log[i as int] == e.deep_view());
                assert(r.deep_view() =~= before.push((line@, e.ok)));
                assert(r.deep_view() =~= log_lines(log).take(log.len() - i));
            }
        }
        proof {
            assert(log_lines(log).take(log.len() as int) =~= log_lines(log));
        }
        r
    }
}

/// What was run last stands first in the query log.
pub proof fn law_the_latest_query_is_shown_first(log: Seq<LogEntryView>, sql: Seq<char>, ok: bool)
    requires
        log.len() <= LOG_CAP,
    ensures
        log_lines(logged(log, sql, ok))[0] == (log_line(LogEntryView { sql, ok }), ok),
        forall|i: int|
            0 < i < log_lines(logged(log, sql, ok)).len() ==> #[trigger] log_lines(
                logged(log, sql, ok),
            )[i] == log_lines(log)[i - 1],
{
    law_log_keeps_the_most_recent(log, sql, ok);
    let all = logged(log, sql, ok);
    assert forall|i: int| 0 < i < log_lines(all).len() implies #[trigger] log_lines(all)[i]
        == log_lines(log)[i - 1] by {
        assert(all[all.len() - 1 - i] == all.drop_last()[all.len() - 1 - i]);
    }
}

/// What stands beside the query log.
#[derive(Debug)]
pub enum Review {
    /// The staged edits of the active tab, to be reviewed.
    Pending { header: String, sql: String, apply: Action, discard: Action },
    /// The status.
    Messages { text: String },
}

/// What a [`Review`] says.
pub enum ReviewView {
    Pending { header: Seq<char>, sql: Seq<char>, apply: ActionView, discard: ActionView },
    Messages { text: Seq<char> },
}

impl DeepView for Review {
    type V = ReviewView;

    open spec fn deep_view(&self) -> ReviewView {
        match self {
            Review::Pending { header, sql, apply, discard } => ReviewView::Pending {
                header: header@,
                sql: sql@,
                apply: apply.deep_view(),
                discard: discard.deep_view(),
            },
            Review::Messages { text } => ReviewView::Messages { text: text@ },
        }
    }
}

impl WorkspaceView {
    /// What stands beside the query log: the staged edits of the active tab where there are
    /// any, else the status.
    pub open spec fn review(self) -> ReviewView {
        match self.active_tab() {
            Some(t) => if t.pending.len() > 0 {
                ReviewView::Pending {
                    header: "PENDING \u{2014} "@ + decimal(t.pending.len())
                        + " CHANGE(S), REVIEW THEN APPLY"@,
                    sql: match self.pending_sql(t.id) {
                        Some(sql) => sql,
                        None => Seq::empty(),
                    },
                    apply: ActionView::OnTab { tab: t.id, what: TabAction::Apply },
                    discard: ActionView::OnTab { tab: t.id, what: TabAction::Discard },
                }
            } else {
                ReviewView::Messages { text: self.status }
            },
            None => ReviewView::Messages { text: self.status },
        }
    }
}

// ---- the connection manager ------------------------------------------------------------

/// A saved connection in the connection manager.
#[derive(Debug)]
pub struct ConnRow {
    pub name: String,
    pub subtitle: String,
    /// Whether it is the connection of the window.
    pub active: bool,
    pub action: Action,
}

/// What a [`ConnRow`] says.
pub struct ConnRowView {
    pub name: Seq<char>,
    pub subtitle: Seq<char>,
    pub active: bool,
    pub action: ActionView,
}

impl DeepView for ConnRow {
    type V = ConnRowView;

    open spec fn deep_view(&self) -> ConnRowView {
        ConnRowView {
            name: self.name@,
            subtitle: self.subtitle@,
            active: self.active,
            action: self.action.deep_view(),
        }
    }
}

/// The connection manager: its buttons, and the saved connections where it lists them.
#[derive(Debug)]
pub struct ConnManager {
    pub header: &'static str,
    /// The saved connections; none where the form is shown.
    pub list: Option<Vec<ConnRow>>,
    pub buttons: Vec<Button>,
}

/// What a [`ConnManager`] says.
#[verifier::ext_equal]
pub struct ConnManagerView {
    pub header: Seq<char>,
    pub list: Option<Seq<ConnRowView>>,
    pub buttons: Seq<ButtonView>,
}

impl DeepView for ConnManager {
    type V = ConnManagerView;

    open spec fn deep_view(&self) -> ConnManagerView {
        ConnManagerView {
            header: self.header@,
            list: self.list.deep_view(),
            buttons: self.buttons.deep_view(),
        }
    }
}

/// How a saved connection is described.
pub open spec fn conn_subtitle(e: ConnectionEntryView) -> Seq<char> {
    e.user + "@"@ + e.host + ":"@ + decimal(e.port as nat) + "/"@ + e.dbname
}

impl WorkspaceView {
    /// The row of a saved connection.
    pub open spec fn conn_row(self, idx: usize) -> ConnRowView {
        let e = self.settings.connections[idx as int];
        ConnRowView {
            name: e.name,
            subtitle: conn_subtitle(e),
            active: self.conn is Some && self.cfg is Some && self.cfg->0.name == e.name,
            action: ActionView::OnConnections { what: ConnAction::Connect { idx } },
        }
    }

    /// The connection manager: the form where it was asked for or nothing is saved, else
    /// the list.
    pub open spec fn conn_manager(self) -> ConnManagerView {
        let n = self.settings.connections.len();
        if self.conn_adding || n == 0 {
            ConnManagerView {
                header: "ADD CONNECTION"@,
                list: None,
                buttons: seq![
                    conn_button(""@, "Save & Connect"@, ConnAction::Save),
                    if n == 0 {
                        conn_button(""@, "Close"@, ConnAction::Manage)
                    } else {
                        conn_button(""@, "Back"@, ConnAction::ShowList)
                    },
                ],
            }
        } else {
            ConnManagerView {
                header: "CONNECTIONS"@,
                list: Some(Seq::new(n, |i: int| self.conn_row(i as usize))),
                buttons: seq![
                    conn_button(""@, "Add"@, ConnAction::ShowForm),
                    conn_button(""@, "Close"@, ConnAction::Manage),
                ],
            }
        }
    }
}

// ---- the settings ----------------------------------------------------------------------

/// A choice of colours in the settings.
#[derive(Debug)]
pub struct ThemeChoice {
    pub label: &'static str,
    pub selected: bool,
    pub action: Action,
}

/// What a [`ThemeChoice`] says.
pub struct ThemeChoiceView {
    pub label: Seq<char>,
    pub selected: bool,
    pub action: ActionView,
}

impl DeepView for ThemeChoice {
    type V = ThemeChoiceView;

    open spec fn deep_view(&self) -> ThemeChoiceView {
        ThemeChoiceView {
            label: self.label@,
            selected: self.selected,
            action: self.action.deep_view(),
        }
    }
}

/// The settings dialog.
#[derive(Debug)]
pub struct SettingsPane {
    pub themes: Vec<ThemeChoice>,
    /// What keys do.
    pub keys: Vec<(&'static str, &'static str)>,
    /// Where the settings are kept.
    pub path: String,
    pub close: Button,
}

/// What a [`SettingsPane`] says.
#[verifier::ext_equal]
pub struct SettingsPaneView {
    pub themes: Seq<ThemeChoiceView>,
    pub keys: Seq<(Seq<char>, Seq<char>)>,
    pub path: Seq<char>,
    pub close: ButtonView,
}

impl DeepView for SettingsPane {
    type V = SettingsPaneView;

    open spec fn deep_view(&self) -> SettingsPaneView {
        SettingsPaneView {
            themes: self.themes.deep_view(),
            keys: self.keys.deep_view(),
            path: self.path@,
            close: self.close.deep_view(),
        }
    }
}

/// A choice of colours.
pub open spec fn theme_choice(label: Seq<char>, theme: Theme, now: Theme) -> ThemeChoiceView {
    ThemeChoiceView {
        label,
        selected: theme == now,
        action: ActionView::OnConnections { what: ConnAction::SetTheme { theme } },
    }
}

/// What keys do, as the settings list it.
pub open spec fn key_list() -> Seq<(Seq<char>, Seq<char>)> {
    seq![
        ("Run query"@, "Ctrl+Enter"@),
        ("Command palette"@, "Ctrl+Shift+P"@),
        ("Connections"@, "Ctrl+Shift+O"@),
        ("Scratch editor"@, "Ctrl+Shift+E"@),
        ("Terminal"@, "Ctrl+`"@),
        ("Cancel query"@, "Esc"@),
    ]
}

impl WorkspaceView {
    /// The settings dialog, given where the settings are kept.
    pub open spec fn settings_pane(self, path: Option<Seq<char>>) -> SettingsPaneView {
        SettingsPaneView {
            themes: seq![
                theme_choice("Light"@, Theme::Light, self.settings.theme),
                theme_choice("Dark"@, Theme::Dark, self.settings.theme),
            ],
            keys: key_list(),
            path: match path {
                Some(p) => p,
                None => "(unavailable)"@,
            },
            close: conn_button(""@, "Close"@, ConnAction::Settings),
        }
    }
}

fn choice(label: &'static str, theme: Theme, now: Theme) -> (r: ThemeChoice)
    ensures
        r.deep_view() == theme_choice(label@, theme, now),
{
    ThemeChoice {
        label,
        selected: theme == now,
        action: Action::OnConnections { what: ConnAction::SetTheme { theme } },
    }
}

// ---- the panels ------------------------------------------------------------------------

/// The icon of the button that makes the window as large as the screen, or as it was.
pub fn max_icon(maximized: bool) -> (r: &'static str)
    ensures
        r@ == (if maximized {
            "icons/window-restore.svg"@
        } else {
            "icons/window-maximize.svg"@
        }),
{
    if maximized {
        "icons/window-restore.svg"
    } else {
        "icons/window-maximize.svg"
    }
}

impl Workspace {
    /// The name of the connection, or another text where there is none.
    pub fn connection_name(&self, otherwise: &str) -> (r: String)
        ensures
            r@ == self.deep_view().connection_name(otherwise@),
    {
        match (&self.conn, &self.cfg) {
            (Some(_), Some(cfg)) => cfg.name.clone(),
            _ => otherwise.to_owned(),
        }
    }

    /// The sidebar: its title, its buttons, and the schemas with their relations.
    pub fn sidebar(&self) -> (r: Sidebar)
        ensures
            r.deep_view() == self.deep_view().sidebar(),
    {
        let mut buttons: Vec<Button> = Vec::new();
        buttons.push(make_conn_button("icons/globe.svg", "Connections", ConnAction::Manage));
        buttons.push(make_conn_button("icons/settings.svg", "Settings", ConnAction::Settings));
        if self.conn.is_some() {
            buttons.push(
                make_conn_button("icons/refresh-cw.svg", "Refresh schemas", ConnAction::Refresh),
            );
        }
        proof {
            assert(buttons.deep_view() =~= self.deep_view().sidebar().buttons);
        }
        Sidebar {
            title: self.connection_name("DATABASE"),
            buttons,
            rows: rows_of_sidebar(&self.tree.schemas, &self.tree.expanded),
        }
    }

    /// The title bar: the name of the connection, and whether there is one.
    pub fn titlebar(&self) -> (r: (String, bool))
        ensures
            r.0@ == self.deep_view().connection_name("Not connected"@),
            r.1 == (self.deep_view().conn is Some),
    {
        (self.connection_name("Not connected"), self.conn.is_some())
    }

    /// The tabs of the tab strip.
    pub fn tab_strip(&self) -> (r: Vec<Chip>)
        ensures
            r.deep_view() == Seq::new(
                self.deep_view().tabs.len(),
                |i: int| chip(self.deep_view().tabs[i], i as usize, self.deep_view().active),
            ),
    {
        let mut r: Vec<Chip> = Vec::new();
        let mut i: usize = 0;
        while i < self.tabs.len()
            invariant
                i <= self.tabs@.len(),
                r@.len() == i,
                forall|j: int|
                    0 <= j < i ==> (#[trigger] r@[j]).deep_view() == chip(
                        self.tabs@[j].deep_view(),
                        j as usize,
                        self.active,
                    ),
            decreases self.tabs@.len() - i,
        {
            let t = &self.tabs[i];
            let active = match self.active {
                Some(k) => k == i,
                None => false,
            };
            r.push(
                Chip {
                    icon: if t.is_table() {
                        "icons/table.svg"
                    } else {
                        "icons/file.svg"
                    },
                    title: t.title.clone(),
                    active,
                    activate: Action::ActivateTab { idx: i },
                    close: Action::CloseTab { tab: t.id },
                },
            );
            i += 1;
        }
        proof {
            let w = self.deep_view();
            assert(r.deep_view() =~= Seq::new(
                w.tabs.len(),
                |i: int| chip(w.tabs[i], i as usize, w.active),
            ));
        }
        r
    }

    /// The body of the active tab; without one, the welcome pane is shown.
    pub fn center(&self) -> (r: Option<TabBody>)
        ensures
            r.deep_view() == (match self.deep_view().active_tab() {
                Some(t) => Some(tab_body(t)),
                None => None,
            }),
    {
        match self.active_tab() {
            Some(t) => Some(body_of(t)),
            None => None,
        }
    }

    /// What stands beside the query log.
    pub fn review(&self) -> (r: Review)
        ensures
            r.deep_view() == self.deep_view().review(),
    {
        if let Some(t) = self.active_tab() {
            if t.pending.len() > 0 {
                let sql = match self.pending_sql(t.id) {
                    Some(sql) => sql,
                    None => String::new(),
                };
                return Review::Pending {
                    header: "PENDING \u{2014} ".to_owned().concat(
                        decimal_text(t.pending.len() as u64).as_str(),
                    ).concat(" CHANGE(S), REVIEW THEN APPLY"),
                    sql,
                    apply: Action::OnTab { tab: t.id, what: TabAction::Apply },
                    discard: Action::OnTab { tab: t.id, what: TabAction::Discard },
                };
            }
        }
        Review::Messages { text: self.status.clone() }
    }

    /// The connection manager.
    pub fn conn_manager(&self) -> (r: ConnManager)
        ensures
            r.deep_view() == self.deep_view().conn_manager(),
    {
        let none = self.settings.connections.len() == 0;
        let mut buttons: Vec<Button> = Vec::new();
        if self.conn_adding || none {
            buttons.push(make_conn_button("", "Save & Connect", ConnAction::Save));
            buttons.push(
                if none {
                    make_conn_button("", "Close", ConnAction::Manage)
                } else {
                    make_conn_button("", "Back", ConnAction::ShowList)
                },
            );
            proof {
                assert(buttons.deep_view() =~= self.deep_view().conn_manager().buttons);
            }
            return ConnManager { header: "ADD CONNECTION", list: None, buttons };
        }
        buttons.push(make_conn_button("", "Add", ConnAction::ShowForm));
        buttons.push(make_conn_button("", "Close", ConnAction::Manage));
        proof {
            assert(buttons.deep_view() =~= self.deep_view().conn_manager().buttons);
        }
        ConnManager { header: "CONNECTIONS", list: Some(self.conn_rows()), buttons }
    }

    fn conn_rows(&self) -> (r: Vec<ConnRow>)
        ensures
            r.deep_view() == Seq::new(
                self.deep_view().settings.connections.len(),
                |i: int| self.deep_view().conn_row(i as usize),
            ),
    {
        let mut rows: Vec<ConnRow> = Vec::new();
        let mut i: usize = 0;
        while i < self.settings.connections.len()
            invariant
                i <= self.settings.connections@.len(),
                rows@.len() == i,
                forall|j: int|
                    0 <= j < i ==> (#[trigger] rows@[j]).deep_view() == self.deep_view().conn_row(
                        j as usize,
                    ),
            decreases self.settings.connections@.len() - i,
        {
            let e = &self.settings.connections[i];
            let same = match &self.cfg {
                Some(cfg) => cfg.name == e.name,
                None => false,
            };
            let subtitle = e.user.clone().concat("@").concat(e.host.as_str()).concat(":").concat(
                decimal_text(e.port as u64).as_str(),
            ).concat("/").concat(e.dbname.as_str());
            rows.push(
                ConnRow {
                    name: e.name.clone(),
                    subtitle,
                    active: self.conn.is_some() && same,
                    action: Action::OnConnections { what: ConnAction::Connect { idx: i } },
                },
            );
            proof {
                let w = self.deep_view();
                assert(w.settings.connections[i as int] == e.deep_view());
                assert(rows@[i as int].deep_view() == w.conn_row(i));
            }
            i += 1;
        }
        proof {
            let w = self.deep_view();
            assert(rows.deep_view() =~= Seq::new(
                w.settings.connections.len(),
                |i: int| w.conn_row(i as usize),
            ));
        }
        rows
    }

    /// The settings dialog, given where the settings are kept.
    pub fn settings_pane(&self, path: Option<String>) -> (r: SettingsPane)
        ensures
            r.deep_view() == self.deep_view().settings_pane(path.deep_view()),
    {
        let themes = vec![
            choice("Light", Theme::Light, self.settings.theme),
            choice("Dark", Theme::Dark, self.settings.theme),
        ];
        let keys: Vec<(&'static str, &'static str)> = vec![
            ("Run query", "Ctrl+Enter"),
            ("Command palette", "Ctrl+Shift+P"),
            ("Connections", "Ctrl+Shift+O"),
            ("Scratch editor", "Ctrl+Shift+E"),
            ("Terminal", "Ctrl+`"),
            ("Cancel query", "Esc"),
        ];
        proof {
            assert(themes.deep_view() =~= self.deep_view().settings_pane(
                path.deep_view(),
            ).themes);
            assert(keys.deep_view() =~= key_list());
        }
        SettingsPane {
            themes,
            keys,
            path: match path {
                Some(p) => p,
                None => "(unavailable)".to_owned(),
            },
            close: make_conn_button("", "Close", ConnAction::Settings),
        }
    }

    /// Whether the terminal is shown.
    pub fn terminal_shown(&self) -> (r: bool)
        ensures
            r == (self.deep_view().terminal && self.deep_view().terminal_open),
    {
        self.terminal && self.terminal_open
    }
}

} // verus!
