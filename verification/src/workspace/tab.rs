//! A tab: its texts, its result, and the edits that are staged on it.

use vstd::prelude::*;
use crate::edit::{EditTarget, EditTargetView, RowEdit, RowEditView};
use crate::export::Cell;
use crate::ids::CellSet;
use crate::text::{decimal, decimal_text};
use crate::types::CellValue;

verus! {

/// What a tab shows.
#[derive(Debug)]
pub enum TabKind {
    /// SQL editor and results.
    Query,
    /// The single SQL editor whose text is kept between runs.
    Scratch,
    /// A table from the schema tree, with a filter.
    Table { schema: String, table: String },
}

/// What a [`TabKind`] says.
pub enum TabKindView {
    Query,
    Scratch,
    Table { schema: Seq<char>, table: Seq<char> },
}

impl DeepView for TabKind {
    type V = TabKindView;

    open spec fn deep_view(&self) -> TabKindView {
        match self {
            TabKind::Query => TabKindView::Query,
            TabKind::Scratch => TabKindView::Scratch,
            TabKind::Table { schema, table } => TabKindView::Table {
                schema: schema@,
                table: table@,
            },
        }
    }
}

/// One tab. It owns everything that belongs to it, so that it is found again as it was
/// left.
pub struct Tab {
    pub id: u64,
    pub kind: TabKind,
    pub title: String,
    /// The text in the SQL editor.
    pub editor: String,
    /// Where the cursor stands in it, in bytes.
    pub cursor: usize,
    /// The text in the filter of a table tab.
    pub filter: String,
    // The result that is shown.
    pub headers: Vec<String>,
    pub rows: Vec<Vec<CellValue>>,
    pub orig_rows: Vec<Vec<CellValue>>,
    pub base_sql: Option<String>,
    pub last_sql: Option<String>,
    /// The column that the result is ordered by, and whether it descends.
    pub sort_state: Option<(usize, bool)>,
    // How the result of `base_sql` can be edited.
    pub edit_target: Option<EditTarget>,
    pub edit_cols: Vec<Option<String>>,
    // Inline editing.
    pub editing: Option<(usize, usize)>,
    pub current_row: Option<usize>,
    pub new_row_idx: Option<usize>,
    pub pending: Vec<RowEdit>,
    pub edited_cells: CellSet,
    /// Whether a query of this tab is running.
    pub running: bool,
    /// A query plan that is shown in place of the result.
    pub plan: Option<String>,
}

/// What a [`Tab`] holds.
#[verifier::ext_equal]
pub struct TabView {
    pub id: u64,
    pub kind: TabKindView,
    pub title: Seq<char>,
    pub editor: Seq<char>,
    pub cursor: usize,
    pub filter: Seq<char>,
    pub headers: Seq<Seq<char>>,
    pub rows: Seq<Seq<Cell>>,
    pub orig_rows: Seq<Seq<Cell>>,
    pub base_sql: Option<Seq<char>>,
    pub last_sql: Option<Seq<char>>,
    pub sort_state: Option<(usize, bool)>,
    pub edit_target: Option<EditTargetView>,
    pub edit_cols: Seq<Option<Seq<char>>>,
    pub editing: Option<(usize, usize)>,
    pub current_row: Option<usize>,
    pub new_row_idx: Option<usize>,
    pub pending: Seq<RowEditView>,
    pub edited_cells: Set<(usize, usize)>,
    pub running: bool,
    pub plan: Option<Seq<char>>,
}

impl DeepView for Tab {
    type V = TabView;

    open spec fn deep_view(&self) -> TabView {
        TabView {
            id: self.id,
            kind: self.kind.deep_view(),
            title: self.title@,
            editor: self.editor@,
            cursor: self.cursor,
            filter: self.filter@,
            headers: self.headers.deep_view(),
            rows: self.rows.deep_view(),
            orig_rows: self.orig_rows.deep_view(),
            base_sql: self.base_sql.deep_view(),
            last_sql: self.last_sql.deep_view(),
            sort_state: self.sort_state,
            edit_target: self.edit_target.deep_view(),
            edit_cols: self.edit_cols.deep_view(),
            editing: self.editing,
            current_row: self.current_row,
            new_row_idx: self.new_row_idx,
            pending: self.pending.deep_view(),
            edited_cells: self.edited_cells.deep_view(),
            running: self.running,
            plan: self.plan.deep_view(),
        }
    }
}

impl TabView {
    /// A tab without a result.
    pub open spec fn blank(
        id: u64,
        kind: TabKindView,
        title: Seq<char>,
        editor: Seq<char>,
    ) -> TabView {
        TabView {
            id,
            kind,
            title,
            editor,
            cursor: 0,
            filter: Seq::empty(),
            headers: Seq::empty(),
            rows: Seq::empty(),
            orig_rows: Seq::empty(),
            base_sql: None,
            last_sql: None,
            sort_state: None,
            edit_target: None,
            edit_cols: Seq::empty(),
            editing: None,
            current_row: None,
            new_row_idx: None,
            pending: Seq::empty(),
            edited_cells: Set::empty(),
            running: false,
            plan: None,
        }
    }

    /// A blank query tab, with its number.
    pub open spec fn query(id: u64, n: nat) -> TabView {
        TabView::blank(id, TabKindView::Query, "Query "@ + decimal(n), Seq::empty())
    }

    /// The scratch tab, with the text that was kept.
    pub open spec fn scratch(id: u64, text: Seq<char>) -> TabView {
        TabView::blank(id, TabKindView::Scratch, "Scratch"@, text)
    }

    /// The tab of a table.
    pub open spec fn table(id: u64, schema: Seq<char>, table: Seq<char>) -> TabView {
        TabView::blank(
            id,
            TabKindView::Table { schema, table },
            schema + "."@ + table,
            Seq::empty(),
        )
    }
}

impl Tab {
    fn base(id: u64, kind: TabKind, title: String, editor: String) -> (r: Self)
        ensures
            r.deep_view() == TabView::blank(id, kind.deep_view(), title@, editor@),
    {
        let r = Tab {
            id,
            kind,
            title,
            editor,
            cursor: 0,
            filter: String::new(),
            headers: Vec::new(),
            rows: Vec::new(),
            orig_rows: Vec::new(),
            base_sql: None,
            last_sql: None,
            sort_state: None,
            edit_target: None,
            edit_cols: Vec::new(),
            editing: None,
            current_row: None,
            new_row_idx: None,
            pending: Vec::new(),
            edited_cells: CellSet::new(),
            running: false,
            plan: None,
        };
        proof {
            assert(r.deep_view() =~= TabView::blank(id, kind.deep_view(), title@, editor@));
        }
        r
    }

    /// A blank query tab ("Query N").
    pub fn query(id: u64, n: u64) -> (r: Self)
        ensures
            r.deep_view() == TabView::query(id, n as nat),
    {
        Tab::base(
            id,
            TabKind::Query,
            "Query ".to_owned().concat(decimal_text(n).as_str()),
            String::new(),
        )
    }

    /// The scratch tab, with the text that was kept.
    pub fn scratch(id: u64, text: String) -> (r: Self)
        ensures
            r.deep_view() == TabView::scratch(id, text@),
    {
        Tab::base(id, TabKind::Scratch, "Scratch".to_owned(), text)
    }

    /// The tab of a table.
    pub fn table(id: u64, schema: String, table: String) -> (r: Self)
        ensures
            r.deep_view() == TabView::table(id, schema@, table@),
    {
        let title = schema.clone().concat(".").concat(table.as_str());
        Tab::base(id, TabKind::Table { schema, table }, title, String::new())
    }

    /// Whether the tab shows a table.
    pub fn is_table(&self) -> (r: bool)
        ensures
            r == (self.deep_view().kind is Table),
    {
        match &self.kind {
            TabKind::Table { .. } => true,
            _ => false,
        }
    }
}

} // verus!
