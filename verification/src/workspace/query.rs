//! Running queries: what is asked of the server, and what becomes of its answers.

use vstd::prelude::*;
use crate::dup::Duplicate;
use crate::edit::{ident, quote_ident, DescribedResult, DescribedResultView};
use crate::error::DbError;
use crate::export::Cell;
use crate::query::{QueryOutcome, QueryOutcomeView};
use crate::sql::{
    bare, bare_query, format_sql, formatted, order_by_sql, ordered_query, statement_at,
    statement_text, ColumnSort,
};
use crate::text::{decimal, decimal_text, join, joined, trim, trimmed};
use crate::types::{CellValue, Row};
use crate::workspace::state::{Effect, EffectView, Workspace, WorkspaceView};
use crate::workspace::tab::{Tab, TabKind, TabKindView, TabView};

verus! {

/// The number of rows that a table tab asks for.
pub const ROW_LIMIT: u64 = 500;

/// What `Debug` writes of a `std::time::Duration` with these seconds and nanoseconds.
pub uninterp spec fn duration_text(secs: u64, nanos: u32) -> Seq<char>;

/// `Debug` of `std::time::Duration`, made by `Duration::new`: the text depends on the
/// duration alone.
#[verifier::external_body]
fn show_duration(secs: u64, nanos: u32) -> (r: String)
    requires
        nanos < 1_000_000_000,
    ensures
        r@ == duration_text(secs, nanos),
{
    format!("{:?}", std::time::Duration::new(secs, nanos))
}

/// The query of a table tab: all columns, the filter as its condition, a limited number
/// of rows. Another tab has none.
pub open spec fn table_sql(t: TabView) -> Seq<char> {
    match t.kind {
        TabKindView::Table { schema, table } => {
            let w = trim(t.filter);
            "SELECT * FROM "@ + ident(schema) + "."@ + ident(table) + (if w.len() == 0 {
                Seq::empty()
            } else {
                " WHERE "@ + w
            }) + " LIMIT "@ + decimal(ROW_LIMIT as nat)
        },
        _ => Seq::empty(),
    }
}

fn table_sql_of(t: &Tab) -> (r: String)
    ensures
        r@ == table_sql(t.deep_view()),
{
    match &t.kind {
        TabKind::Table { schema, table } => {
            let w = trimmed(t.filter.as_str());
            let base = "SELECT * FROM ".to_owned().concat(
                quote_ident(schema.as_str()).as_str(),
            ).concat(".").concat(quote_ident(table.as_str()).as_str());
            let with_filter = if w.as_str().is_empty() {
                proof {
                    assert(base@ + Seq::<char>::empty() =~= base@);
                }
                base
            } else {
                let cond = " WHERE ".to_owned().concat(w.as_str());
                base.concat(cond.as_str())
            };
            with_filter.concat(" LIMIT ").concat(decimal_text(ROW_LIMIT).as_str())
        },
        _ => String::new(),
    }
}

/// A tab that starts a new query: the query is the one that sorting starts from; how the
/// result before could be edited, and everything staged on it, is gone.
pub open spec fn restarted(t: TabView, base: Seq<char>) -> TabView {
    TabView {
        base_sql: Some(base),
        sort_state: None,
        edit_target: None,
        edit_cols: Seq::empty(),
        editing: None,
        current_row: None,
        pending: Seq::empty(),
        edited_cells: Set::empty(),
        plan: None,
        ..t
    }
}

/// The next state of the sort when the header of a column is clicked: ascending,
/// descending, none.
pub open spec fn next_sort(sort: Option<(usize, bool)>, col: usize) -> Option<(usize, bool)> {
    match sort {
        Some((c, desc)) => if c == col {
            if desc {
                None
            } else {
                Some((col, true))
            }
        } else {
            Some((col, false))
        },
        None => Some((col, false)),
    }
}

/// Three clicks on a header bring the sort back to where it was, wherever it stood on
/// that column.
pub proof fn law_sort_cycles(sort: Option<(usize, bool)>, col: usize)
    requires
        sort matches Some(at) ==> at.0 == col,
    ensures
        next_sort(next_sort(next_sort(sort, col), col), col) == sort,
{
    if let Some((c, desc)) = sort {
        assert(sort == Some((c, desc)));
    }
}

/// The SQL for a state of the sort.
pub open spec fn sorted_sql(
    base: Seq<char>,
    headers: Seq<Seq<char>>,
    sort: Option<(usize, bool)>,
) -> Seq<char> {
    match sort {
        Some((c, desc)) => ordered_query(
            base,
            if c < headers.len() {
                headers[c as int]
            } else {
                Seq::empty()
            },
            if desc {
                ColumnSort::Descending
            } else {
                ColumnSort::Ascending
            },
        ),
        None => base,
    }
}

/// The lines of a plan: the first cell of each row that is not NULL.
pub open spec fn plan_lines(rows: Seq<Seq<Cell>>) -> Seq<Seq<char>>
    decreases rows.len(),
{
    if rows.len() == 0 {
        Seq::empty()
    } else {
        let before = plan_lines(rows.drop_last());
        let last = rows.last();
        if last.len() > 0 && last[0] is Some {
            before.push(last[0]->0)
        } else {
            before
        }
    }
}

/// The status that tells of a result.
pub open spec fn result_status(out: QueryOutcomeView) -> Seq<char> {
    let took = duration_text(out.elapsed.secs, out.elapsed.nanos);
    if out.headers.len() > 0 {
        decimal(out.rows.len()) + " row(s) in "@ + took
    } else {
        decimal(out.affected as nat) + " row(s) affected in "@ + took
    }
}

impl WorkspaceView {
    /// The query of a table tab, by its identifier.
    pub open spec fn table_query(self, id: u64) -> Seq<char> {
        match self.tab(id) {
            Some(t) => table_sql(t),
            None => Seq::empty(),
        }
    }

    /// The SQL that the active tab would run: the query of a table, else what is in the
    /// editor.
    pub open spec fn active_sql(self) -> Seq<char> {
        match self.active_tab() {
            None => Seq::empty(),
            Some(t) => if t.kind is Table {
                self.table_query(t.id)
            } else {
                t.editor
            },
        }
    }

    /// A query is run for display in a tab.
    #[verifier::opaque]
    pub open spec fn run_sql(self, id: u64, sql: Seq<char>) -> WorkspaceView {
        match self.conn {
            None => self.with_status("Not connected"@),
            Some(conn) => if trim(sql).len() == 0 {
                (match self.tab(id) {
                    Some(t) => self.with_tab(id, TabView { running: false, ..t }),
                    None => self,
                }).with_status("Nothing to run"@)
            } else {
                match self.tab(id) {
                    None => self,
                    Some(t) => self.with_tab(
                        id,
                        TabView {
                            running: true,
                            editing: None,
                            new_row_idx: None,
                            last_sql: Some(sql),
                            ..t
                        },
                    ).with_status("Running\u{2026}"@).with_effect(
                        EffectView::Query { tab: id, conn, sql },
                    ),
                }
            },
        }
    }

    /// It is asked how the result of a query can be edited.
    pub open spec fn describe_async(self, id: u64, sql: Seq<char>) -> WorkspaceView {
        match self.conn {
            None => self,
            Some(conn) => self.with_effect(EffectView::Describe { tab: id, conn, sql }),
        }
    }

    /// A new query is started in a tab.
    pub open spec fn run_new_query(self, id: u64, base: Seq<char>) -> WorkspaceView {
        match self.tab(id) {
            None => self,
            Some(t) => self.with_tab(id, restarted(t, base)).with_effect(
                EffectView::ClearSelection { tab: id },
            ).describe_async(id, base).run_sql(id, base),
        }
    }

    /// The answer to how a result can be edited has come.
    pub open spec fn described(
        self,
        id: u64,
        answer: Option<DescribedResultView>,
    ) -> WorkspaceView {
        match self.tab(id) {
            None => self,
            Some(t) => self.with_tab(
                id,
                match answer {
                    Some(d) => TabView {
                        edit_target: Some(d.target),
                        edit_cols: d.columns,
                        ..t
                    },
                    None => TabView { edit_target: None, edit_cols: Seq::empty(), ..t },
                },
            ),
        }
    }

    /// A query has finished, which is noted in the log. Its rows replace those of the tab,
    /// unless it failed or the tab is gone.
    pub open spec fn query_finished(
        self,
        id: u64,
        sql: Seq<char>,
        out: QueryOutcomeView,
    ) -> WorkspaceView {
        match self.tab(id) {
            None => self.with_log(sql, out.error is None),
            Some(t) => match out.error {
                Some(e) => self.with_tab(id, TabView { running: false, ..t }).with_log(
                    sql,
                    false,
                ).with_status("Error: "@ + e),
                None => self.with_tab(
                    id,
                    TabView {
                        running: false,
                        headers: out.headers,
                        rows: out.rows,
                        orig_rows: out.rows,
                        current_row: None,
                        ..t
                    },
                ).with_effect(EffectView::ClearSelection { tab: id }).with_effect(
                    EffectView::ShowGrid { tab: id },
                ).with_log(sql, true).with_status(result_status(out)),
            },
        }
    }

    /// The plan of a query is asked for.
    pub open spec fn run_explain(self, id: u64, sql: Seq<char>) -> WorkspaceView {
        match self.conn {
            None => self.with_status("Not connected"@),
            Some(conn) => (match self.tab(id) {
                Some(t) => self.with_tab(id, TabView { running: true, ..t }),
                None => self,
            }).with_status("Explaining\u{2026}"@).with_effect(
                EffectView::Explain { tab: id, conn, sql },
            ),
        }
    }

    /// The plan of the query of the active tab is asked for.
    pub open spec fn explain_active(self, analyze: bool) -> WorkspaceView {
        let sql = bare_query(self.active_sql());
        if sql.len() == 0 {
            self.with_status("Nothing to explain"@)
        } else {
            match self.active_id() {
                None => self,
                Some(id) => self.run_explain(
                    id,
                    (if analyze {
                        "EXPLAIN (ANALYZE, BUFFERS) "@
                    } else {
                        "EXPLAIN "@
                    }) + sql,
                ),
            }
        }
    }

    /// A plan has come, which is noted in the log. It is shown in the tab, unless that is
    /// gone; the result of the tab stays as it is.
    pub open spec fn explain_finished(
        self,
        id: u64,
        sql: Seq<char>,
        out: QueryOutcomeView,
    ) -> WorkspaceView {
        match self.tab(id) {
            None => self.with_log(sql, out.error is None),
            Some(t) => match out.error {
                Some(e) => self.with_tab(
                    id,
                    TabView { running: false, plan: Some("Error: "@ + e), ..t },
                ).with_log(sql, false).with_status("Error: "@ + e),
                None => self.with_tab(
                    id,
                    TabView {
                        running: false,
                        plan: Some(joined(plan_lines(out.rows), "\n"@)),
                        ..t
                    },
                ).with_log(sql, true).with_status(
                    "Plan: "@ + decimal(plan_lines(out.rows).len()) + " line(s)"@,
                ),
            },
        }
    }

    /// The plan is put away.
    pub open spec fn close_plan(self, id: u64) -> WorkspaceView {
        match self.tab(id) {
            None => self,
            Some(t) => self.with_tab(id, TabView { plan: None, ..t }),
        }
    }

    /// The query of a tab is run anew; staged edits are gone.
    pub open spec fn reload_data(self, id: u64) -> WorkspaceView {
        match self.tab(id) {
            None => self,
            Some(t) => match t.base_sql {
                None => self,
                Some(sql) => self.run_new_query(id, sql),
            },
        }
    }

    /// The filter of a table tab is applied.
    pub open spec fn apply_where(self, id: u64) -> WorkspaceView {
        match self.tab(id) {
            None => self,
            Some(t) => if t.kind is Table {
                self.run_new_query(id, table_sql(t))
            } else {
                self
            },
        }
    }

    /// The active tab is run: a table with the filter as it is now, an editor with the
    /// statement at the cursor.
    pub open spec fn run_active_tab(self) -> WorkspaceView {
        match self.active_tab() {
            None => self,
            Some(t) => if t.kind is Table {
                self.apply_where(t.id)
            } else {
                self.run_new_query(t.id, statement_text(t.editor, t.cursor as int))
            },
        }
    }

    /// What is running is cancelled.
    pub open spec fn cancel(self) -> WorkspaceView {
        match self.conn {
            None => self,
            Some(conn) => self.with_effect(EffectView::Cancel { conn }).with_status(
                "Cancel requested"@,
            ),
        }
    }

    /// The text of the active editor becomes `pretty`; a table has no editor, and a blank
    /// text stays.
    pub open spec fn put_formatted(self, pretty: Seq<char>) -> WorkspaceView {
        match self.active_tab() {
            None => self,
            Some(t) => if t.kind is Table {
                self.with_status("Nothing to format"@)
            } else if trim(t.editor).len() == 0 {
                self
            } else {
                self.with_tab_at(
                    self.active->0 as int,
                    TabView { editor: pretty, ..t },
                ).with_effect(EffectView::SetEditor { tab: t.id, text: pretty })
            },
        }
    }

    /// The SQL in the active editor is pretty-printed in place.
    pub open spec fn format_active(self) -> WorkspaceView {
        match self.active_tab() {
            None => self,
            Some(t) => self.put_formatted(formatted(t.editor, true)),
        }
    }

    /// The header of a column was clicked.
    pub open spec fn toggle_sort(self, id: u64, col: usize) -> WorkspaceView {
        match self.tab(id) {
            None => self,
            Some(t) => {
                let next = next_sort(t.sort_state, col);
                let noted = self.with_tab(id, TabView { sort_state: next, ..t });
                match t.base_sql {
                    None => noted,
                    Some(base) => noted.run_sql(id, sorted_sql(base, t.headers, next)),
                }
            },
        }
    }
}

/// How a result can be edited, as far as an answer says so.
pub open spec fn editability(
    answer: Result<Option<DescribedResult>, DbError>,
) -> Option<DescribedResultView> {
    match answer {
        Ok(Some(d)) => Some(d.deep_view()),
        _ => None,
    }
}

fn plan_of(rows: &Vec<Row>) -> (r: Vec<String>)
    ensures
        r.deep_view() == plan_lines(rows.deep_view()),
{
    let ghost rv = rows.deep_view();
    let mut lines: Vec<String> = Vec::new();
    proof {
        assert(lines.deep_view() =~= plan_lines(rv.take(0)));
    }
    let mut i: usize = 0;
    while i < rows.len()
        invariant
            i <= rows@.len(),
            rv == rows.deep_view(),
            lines.deep_view() == plan_lines(rv.take(i as int)),
        decreases rows@.len() - i,
    {
        let ghost before = lines.deep_view();
        proof {
            assert(rv.take(i + 1).drop_last() =~= rv.take(i as int));
            assert(rv.take(i + 1).last() == rows@[i as int].deep_view());
        }
        if rows[i].len() > 0 {
            if let CellValue::Text(s) = &rows[i][0] {
                lines.push(s.clone());
                proof {
                    assert(lines.deep_view() =~= before.push(s@));
                }
            }
        }
        i += 1;
    }
    proof {
        assert(rv.take(i as int) =~= rv);
    }
    lines
}

impl Workspace {
    /// `SELECT * FROM <table> [WHERE ..] LIMIT n` for a table tab.
    pub fn table_query(&self, id: u64) -> (r: String)
        ensures
            r@ == self.deep_view().table_query(id),
    {
        match self.tab_index(id) {
            Some(i) => table_sql_of(&self.tabs[i]),
            None => String::new(),
        }
    }

    /// The SQL that the active tab would run.
    pub fn active_sql(&self) -> (r: String)
        ensures
            r@ == self.deep_view().active_sql(),
    {
        match self.active_tab() {
            None => String::new(),
            Some(t) => if t.is_table() {
                self.table_query(t.id)
            } else {
                t.editor.clone()
            },
        }
    }

    /// Runs a query for display in a tab. It changes neither how the result can be edited
    /// nor what sorting starts from.
    pub fn run_sql(&mut self, id: u64, sql: String)
        ensures
            final(self).deep_view() == old(self).deep_view().run_sql(id, sql@),
    {
        proof {
            reveal(WorkspaceView::run_sql);
        }
        let conn = match self.conn {
            None => {
                self.set_status("Not connected".to_owned());
                return;
            },
            Some(conn) => conn,
        };
        if trimmed(sql.as_str()).as_str().is_empty() {
            if let Some(i) = self.tab_index(id) {
                self.tabs[i].running = false;
                proof {
                    assert(self.deep_view().tabs =~= old(self).deep_view().tabs.update(
                        i as int,
                        TabView { running: false, ..old(self).deep_view().tabs[i as int] },
                    ));
                }
            }
            self.set_status("Nothing to run".to_owned());
            return;
        }
        let i = match self.tab_index(id) {
            None => {
                return;
            },
            Some(i) => i,
        };
        let tab = &mut self.tabs[i];
        tab.running = true;
        tab.editing = None;
        tab.new_row_idx = None;
        tab.last_sql = Some(sql.clone());
        proof {
            assert(self.deep_view().tabs =~= old(self).deep_view().tabs.update(
                i as int,
                TabView {
                    running: true,
                    editing: None,
                    new_row_idx: None,
                    last_sql: Some(sql@),
                    ..old(self).deep_view().tabs[i as int]
                },
            ));
        }
        self.set_status("Running\u{2026}".to_owned());
        self.emit(Effect::Query { tab: id, conn, sql });
    }

    /// Asks how the result of a query can be edited.
    pub fn describe_async(&mut self, id: u64, sql: String)
        ensures
            final(self).deep_view() == old(self).deep_view().describe_async(id, sql@),
    {
        if let Some(conn) = self.conn {
            self.emit(Effect::Describe { tab: id, conn, sql });
        }
    }

    /// Starts a new query in a tab.
    pub fn run_new_query(&mut self, id: u64, base: String)
        ensures
            final(self).deep_view() == old(self).deep_view().run_new_query(id, base@),
    {
        let i = match self.tab_index(id) {
            None => {
                return;
            },
            Some(i) => i,
        };
        let tab = &mut self.tabs[i];
        tab.base_sql = Some(base.clone());
        tab.sort_state = None;
        tab.edit_target = None;
        tab.edit_cols.clear();
        tab.editing = None;
        tab.current_row = None;
        tab.pending.clear();
        tab.edited_cells.clear();
        tab.plan = None;
        proof {
            assert(self.tabs@[i as int].deep_view() =~= restarted(
                old(self).deep_view().tabs[i as int],
                base@,
            ));
            assert(self.deep_view().tabs =~= old(self).deep_view().tabs.update(
                i as int,
                restarted(old(self).deep_view().tabs[i as int], base@),
            ));
        }
        self.emit(Effect::ClearSelection { tab: id });
        self.describe_async(id, base.clone());
        self.run_sql(id, base);
    }

    /// Takes in the answer to how a result can be edited. An error means that it cannot.
    pub fn described(&mut self, id: u64, answer: Result<Option<DescribedResult>, DbError>)
        ensures
            final(self).deep_view() == old(self).deep_view().described(id, editability(answer)),
    {
        let i = match self.tab_index(id) {
            None => {
                return;
            },
            Some(i) => i,
        };
        let ghost found = editability(answer);
        let tab = &mut self.tabs[i];
        match answer {
            Ok(Some(d)) => {
                tab.edit_target = Some(d.target);
                tab.edit_cols = d.columns;
            },
            _ => {
                tab.edit_target = None;
                tab.edit_cols.clear();
            },
        }
        proof {
            let t = old(self).deep_view().tabs[i as int];
            let after = match found {
                Some(d) => TabView { edit_target: Some(d.target), edit_cols: d.columns, ..t },
                None => TabView { edit_target: None, edit_cols: Seq::empty(), ..t },
            };
            assert(self.tabs@[i as int].deep_view() =~= after);
            assert(self.deep_view().tabs =~= old(self).deep_view().tabs.update(i as int, after));
        }
    }

    /// Takes in the outcome of a query that was run for display.
    pub fn query_finished(&mut self, id: u64, sql: &str, out: QueryOutcome)
        requires
            out.elapsed.valid(),
        ensures
            final(self).deep_view() == old(self).deep_view().query_finished(
                id,
                sql@,
                out.deep_view(),
            ),
    {
        let i = match self.tab_index(id) {
            None => {
                self.note(sql, out.error.is_none());
                return;
            },
            Some(i) => i,
        };
        match out.error {
            Some(e) => {
                self.tabs[i].running = false;
                proof {
                    assert(self.deep_view().tabs =~= old(self).deep_view().tabs.update(
                        i as int,
                        TabView { running: false, ..old(self).deep_view().tabs[i as int] },
                    ));
                }
                self.note(sql, false);
                self.set_status("Error: ".to_owned().concat(e.as_str()));
            },
            None => {
                let took = show_duration(out.elapsed.secs, out.elapsed.nanos);
                let status = if out.headers.len() > 0 {
                    decimal_text(out.rows.len() as u64).concat(" row(s) in ").concat(took.as_str())
                } else {
                    decimal_text(out.affected).concat(" row(s) affected in ").concat(
                        took.as_str(),
                    )
                };
                let tab = &mut self.tabs[i];
                tab.running = false;
                tab.headers = out.headers;
                tab.orig_rows = out.rows.dup();
                tab.rows = out.rows;
                tab.current_row = None;
                proof {
                    let after = TabView {
                        running: false,
                        headers: out.deep_view().headers,
                        rows: out.deep_view().rows,
                        orig_rows: out.deep_view().rows,
                        current_row: None,
                        ..old(self).deep_view().tabs[i as int]
                    };
                    assert(self.tabs@[i as int].deep_view() =~= after);
                    assert(self.deep_view().tabs =~= old(self).deep_view().tabs.update(
                        i as int,
                        after,
                    ));
                }
                self.emit(Effect::ClearSelection { tab: id });
                self.emit(Effect::ShowGrid { tab: id });
                self.note(sql, true);
                self.set_status(status);
            },
        }
    }

    /// Asks for the plan of a query, which is shown in place of the result.
    pub fn run_explain(&mut self, id: u64, sql: String)
        ensures
            final(self).deep_view() == old(self).deep_view().run_explain(id, sql@),
    {
        let conn = match self.conn {
            None => {
                self.set_status("Not connected".to_owned());
                return;
            },
            Some(conn) => conn,
        };
        if let Some(i) = self.tab_index(id) {
            self.tabs[i].running = true;
            proof {
                assert(self.deep_view().tabs =~= old(self).deep_view().tabs.update(
                    i as int,
                    TabView { running: true, ..old(self).deep_view().tabs[i as int] },
                ));
            }
        }
        self.set_status("Explaining\u{2026}".to_owned());
        self.emit(Effect::Explain { tab: id, conn, sql });
    }

    /// Asks for the plan of the query of the active tab. `EXPLAIN` alone does not run the
    /// query; with `ANALYZE` it is run.
    pub fn explain_active(&mut self, analyze: bool)
        ensures
            final(self).deep_view() == old(self).deep_view().explain_active(analyze),
    {
        let sql = bare(self.active_sql().as_str());
        if sql.as_str().is_empty() {
            self.set_status("Nothing to explain".to_owned());
            return;
        }
        let prefix = if analyze {
            "EXPLAIN (ANALYZE, BUFFERS) "
        } else {
            "EXPLAIN "
        };
        if let Some(id) = self.active_id() {
            self.run_explain(id, prefix.to_owned().concat(sql.as_str()));
        }
    }

    /// Takes in a plan: one line of text for each row.
    pub fn explain_finished(&mut self, id: u64, sql: &str, out: QueryOutcome)
        ensures
            final(self).deep_view() == old(self).deep_view().explain_finished(
                id,
                sql@,
                out.deep_view(),
            ),
    {
        let i = match self.tab_index(id) {
            None => {
                self.note(sql, out.error.is_none());
                return;
            },
            Some(i) => i,
        };
        match out.error {
            Some(e) => {
                let text = "Error: ".to_owned().concat(e.as_str());
                let tab = &mut self.tabs[i];
                tab.running = false;
                tab.plan = Some(text.clone());
                proof {
                    assert(self.deep_view().tabs =~= old(self).deep_view().tabs.update(
                        i as int,
                        TabView {
                            running: false,
                            plan: Some(text@),
                            ..old(self).deep_view().tabs[i as int]
                        },
                    ));
                }
                self.note(sql, false);
                self.set_status(text);
            },
            None => {
                let lines = plan_of(&out.rows);
                proof {
                    assert(lines@.len() == plan_lines(out.deep_view().rows).len());
                }
                let n: u64 = lines.len() as u64;
                let plan = join(&lines, "\n");
                let tab = &mut self.tabs[i];
                tab.running = false;
                tab.plan = Some(plan);
                proof {
                    assert(self.deep_view().tabs =~= old(self).deep_view().tabs.update(
                        i as int,
                        TabView {
                            running: false,
                            plan: Some(plan@),
                            ..old(self).deep_view().tabs[i as int]
                        },
                    ));
                }
                self.note(sql, true);
                self.set_status(
                    "Plan: ".to_owned().concat(decimal_text(n).as_str()).concat(" line(s)"),
                );
            },
        }
    }

    /// Puts the plan away; the editor and the result are shown again.
    pub fn close_plan(&mut self, id: u64)
        ensures
            final(self).deep_view() == old(self).deep_view().close_plan(id),
    {
        if let Some(i) = self.tab_index(id) {
            self.tabs[i].plan = None;
            proof {
                assert(self.deep_view().tabs =~= old(self).deep_view().tabs.update(
                    i as int,
                    TabView { plan: None, ..old(self).deep_view().tabs[i as int] },
                ));
            }
        }
    }

    /// Runs the query of a tab anew. Staged edits are discarded.
    pub fn reload_data(&mut self, id: u64)
        ensures
            final(self).deep_view() == old(self).deep_view().reload_data(id),
    {
        if let Some(i) = self.tab_index(id) {
            let sql = self.tabs[i].base_sql.dup();
            if let Some(sql) = sql {
                self.run_new_query(id, sql);
            }
        }
    }

    /// Runs the query of a table tab with its filter.
    pub fn apply_where(&mut self, id: u64)
        ensures
            final(self).deep_view() == old(self).deep_view().apply_where(id),
    {
        if let Some(i) = self.tab_index(id) {
            if self.tabs[i].is_table() {
                let sql = table_sql_of(&self.tabs[i]);
                self.run_new_query(id, sql);
            }
        }
    }

    /// Runs the active tab: a table with its filter as it is now, an editor with the single
    /// statement at the cursor.
    pub fn run_active_tab(&mut self)
        ensures
            final(self).deep_view() == old(self).deep_view().run_active_tab(),
    {
        let (id, is_table, sql) = match self.active_tab() {
            None => {
                return;
            },
            Some(t) => {
                let is_table = t.is_table();
                let sql = if is_table {
                    String::new()
                } else {
                    statement_at(t.editor.as_str(), t.cursor)
                };
                (t.id, is_table, sql)
            },
        };
        if is_table {
            self.apply_where(id);
        } else {
            self.run_new_query(id, sql);
        }
    }

    /// Cancels what is running on the connection.
    pub fn cancel(&mut self)
        ensures
            final(self).deep_view() == old(self).deep_view().cancel(),
    {
        if let Some(conn) = self.conn {
            self.emit(Effect::Cancel { conn });
            self.set_status("Cancel requested".to_owned());
        }
    }

    /// Puts a pretty-printed text into the active editor.
    pub fn put_formatted(&mut self, pretty: String)
        ensures
            final(self).deep_view() == old(self).deep_view().put_formatted(pretty@),
    {
        let i = match self.active {
            None => {
                return;
            },
            Some(i) => i,
        };
        if i >= self.tabs.len() {
            return;
        }
        if self.tabs[i].is_table() {
            self.set_status("Nothing to format".to_owned());
            return;
        }
        if trimmed(self.tabs[i].editor.as_str()).as_str().is_empty() {
            return;
        }
        let id = self.tabs[i].id;
        self.tabs[i].editor = pretty.clone();
        proof {
            assert(self.deep_view().tabs =~= old(self).deep_view().tabs.update(
                i as int,
                TabView { editor: pretty@, ..old(self).deep_view().tabs[i as int] },
            ));
        }
        self.emit(Effect::SetEditor { tab: id, text: pretty });
    }

    /// Pretty-prints the SQL of the active editor in place.
    pub fn format_active(&mut self)
        ensures
            final(self).deep_view() == old(self).deep_view().format_active(),
    {
        let pretty = match self.active_tab() {
            None => {
                return;
            },
            Some(t) => format_sql(t.editor.as_str()),
        };
        self.put_formatted(pretty);
    }

    /// A click on the header of a column: the sort goes from none to ascending, descending
    /// and none again, and the query is run in that order.
    pub fn toggle_sort(&mut self, id: u64, col: usize)
        ensures
            final(self).deep_view() == old(self).deep_view().toggle_sort(id, col),
    {
        let i = match self.tab_index(id) {
            None => {
                return;
            },
            Some(i) => i,
        };
        let next = match self.tabs[i].sort_state {
            Some((c, desc)) => if c == col {
                if desc {
                    None
                } else {
                    Some((col, true))
                }
            } else {
                Some((col, false))
            },
            None => Some((col, false)),
        };
        self.tabs[i].sort_state = next;
        proof {
            assert(self.deep_view().tabs =~= old(self).deep_view().tabs.update(
                i as int,
                TabView { sort_state: next, ..old(self).deep_view().tabs[i as int] },
            ));
        }
        let base = self.tabs[i].base_sql.dup();
        if let Some(base) = base {
            let sql = match next {
                Some((c, desc)) => {
                    let col_name = if c < self.tabs[i].headers.len() {
                        self.tabs[i].headers[c].clone()
                    } else {
                        String::new()
                    };
                    let dir = if desc {
                        ColumnSort::Descending
                    } else {
                        ColumnSort::Ascending
                    };
                    order_by_sql(base.as_str(), col_name.as_str(), dir)
                },
                None => base,
            };
            self.run_sql(id, sql);
        }
    }
}

} // verus!
