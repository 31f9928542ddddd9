//! Inline editing: cells, new and deleted rows, and the batch of staged edits.

use vstd::prelude::*;
use crate::dup::Duplicate;
use crate::edit::{
    batch_text, build_batch, first_fault, EditTarget, EditTargetView, PairView, RowEdit,
    RowEditView,
};
use crate::error::{DbError, DbErrorView};
use crate::export::Cell;
use crate::text::{decimal, decimal_text};
use crate::types::CellValue;
use crate::workspace::staging::{
    cell_update, committed, drop_update, grid_cell, place, same_cell, staged, with_cell, without_update,
};
use crate::workspace::state::{
    lemma_position, position, Effect, EffectView, Workspace, WorkspaceView,
};
use crate::workspace::tab::{Tab, TabView};

verus! {

/// The columns of a new row that are filled, each with its value.
pub open spec fn filled_columns(
    cols: Seq<Option<Seq<char>>>,
    row: Seq<Cell>,
) -> Seq<PairView>
    decreases cols.len(),
{
    if cols.len() == 0 {
        Seq::empty()
    } else {
        let front = filled_columns(cols.drop_last(), row);
        let k = cols.len() - 1;
        match cols.last() {
            Some(name) => if k < row.len() && row[k] is Some {
                front.push((name, row[k]))
            } else {
                front
            },
            None => front,
        }
    }
}

/// The status after an edit was staged, which makes `n` of them, or could not be.
pub open spec fn stage_status(n: nat, edit: RowEditView, target: EditTargetView) -> Seq<char> {
    match edit.sql(target) {
        Err(e) => "Cannot build statement: "@ + DbErrorView::Query(e).shown(),
        Ok(_) => decimal(n) + " change"@ + (if n == 1 {
            ""@
        } else {
            "s"@
        }) + " staged \u{2014} review, then Apply."@,
    }
}

/// What is to be said of an edit of a cell. Nothing, where the grid stays as it is; else
/// the new status, if there is one.
pub open spec fn commit_status(
    t: TabView,
    row: usize,
    col: usize,
    value: Cell,
) -> Option<Option<Seq<char>>> {
    if t.new_row_idx == Some(row) {
        Some(None)
    } else {
        match (t.edit_target, t.real_column(col)) {
            (Some(target), Some(name)) => match t.row_key(row, target) {
                Some(pk) => Some(
                    Some(
                        if grid_cell(t.orig_rows, row, col) == Some(value) {
                            "Reverted to original"@
                        } else {
                            stage_status(
                                staged(
                                    without_update(t.pending, pk, name),
                                    cell_update(pk, name, value),
                                    target,
                                ).len(),
                                cell_update(pk, name, value),
                                target,
                            )
                        },
                    ),
                ),
                None => None,
            },
            _ => None,
        }
    }
}

/// The value that a text in the cell editor stands for.
pub open spec fn cell_of_text(text: Seq<char>) -> Cell {
    if text.len() == 0 {
        None
    } else {
        Some(text)
    }
}

/// The SQL of staged edits, where there are any and each has a statement.
pub open spec fn batch_sql(target: EditTargetView, edits: Seq<RowEditView>) -> Option<Seq<char>> {
    if edits.len() > 0 && first_fault(target, edits) is None {
        Some(batch_text(target, edits))
    } else {
        None
    }
}

impl WorkspaceView {
    /// A row is selected.
    pub open spec fn set_current_row(self, id: u64, row: usize) -> WorkspaceView {
        match self.tab(id) {
            None => self,
            Some(t) => self.with_tab(id, TabView { current_row: Some(row), ..t }),
        }
    }

    /// The cell editor is opened on a cell, with its text. A cell whose column is computed
    /// is not edited.
    pub open spec fn begin_edit(self, id: u64, row: usize, col: usize) -> WorkspaceView {
        match self.tab(id) {
            None => self,
            Some(t) => if t.real_column(col) is None {
                self
            } else {
                let text = match grid_cell(t.rows, row, col) {
                    Some(Some(s)) => s,
                    _ => Seq::empty(),
                };
                WorkspaceView {
                    cell_text: text,
                    ..self.with_tab(
                        id,
                        TabView { editing: Some((row, col)), current_row: Some(row), ..t },
                    ).with_effect(EffectView::EditCell { text })
                }
            },
        }
    }

    /// The cell editor of the active tab is closed without a change.
    pub open spec fn cancel_cell_edit(self) -> WorkspaceView {
        match self.active_tab() {
            None => self,
            Some(t) => self.with_tab_at(self.active->0 as int, TabView { editing: None, ..t }),
        }
    }

    /// The cell editor of the active tab is closed with its text as the value of the cell.
    pub open spec fn commit_cell_edit(self) -> WorkspaceView {
        match self.active_id() {
            None => self,
            Some(id) => match self.tab(id) {
                None => self,
                Some(t) => match t.editing {
                    None => self,
                    Some((row, col)) => self.with_committed(id, t, row, col),
                },
            },
        }
    }

    /// The text of the cell editor becomes the value of a cell of a tab.
    pub open spec fn with_committed(
        self,
        id: u64,
        t: TabView,
        row: usize,
        col: usize,
    ) -> WorkspaceView {
        let value = cell_of_text(self.cell_text);
        let done = self.with_tab(id, committed(t, row, col, value));
        match commit_status(t, row, col, value) {
            None => done,
            Some(None) => done.with_effect(EffectView::ShowGrid { tab: id }),
            Some(Some(status)) => done.with_status(status).with_effect(
                EffectView::ShowGrid { tab: id },
            ),
        }
    }

    /// What updates a column of the row with a key is taken out of the staged edits.
    pub open spec fn remove_pending_update(
        self,
        id: u64,
        pk: Seq<PairView>,
        col: Seq<char>,
    ) -> WorkspaceView {
        match self.tab(id) {
            None => self,
            Some(t) => self.with_tab(
                id,
                TabView { pending: without_update(t.pending, pk, col), ..t },
            ),
        }
    }

    /// An edit is staged, where there is a statement for it.
    pub open spec fn stage(
        self,
        id: u64,
        edit: RowEditView,
        target: EditTargetView,
    ) -> WorkspaceView {
        if edit.sql(target) is Err {
            self.with_status(stage_status(0, edit, target))
        } else {
            match self.tab(id) {
                None => self,
                Some(t) => {
                    let all = staged(t.pending, edit, target);
                    self.with_tab(id, TabView { pending: all, ..t }).with_status(
                        stage_status(all.len(), edit, target),
                    )
                },
            }
        }
    }

    /// A blank row is appended, which is not saved yet.
    pub open spec fn add_row(self, id: u64) -> WorkspaceView {
        match self.tab(id) {
            None => self,
            Some(t) => if t.edit_target is None {
                self
            } else {
                let idx = t.rows.len() as usize;
                self.with_tab(
                    id,
                    TabView {
                        rows: t.rows.push(Seq::new(t.headers.len(), |i: int| None)),
                        new_row_idx: Some(idx),
                        current_row: Some(idx),
                        ..t
                    },
                ).with_status(
                    "New row \u{2014} double-click cells to fill, then Save row."@,
                ).with_effect(EffectView::ShowGrid { tab: id })
            },
        }
    }

    /// The new row is staged as an insert of its filled columns.
    pub open spec fn save_new_row(self, id: u64) -> WorkspaceView {
        match self.tab(id) {
            None => self,
            Some(t) => match (t.new_row_idx, t.edit_target) {
                (Some(idx), Some(target)) => if idx < t.rows.len() {
                    let values = filled_columns(t.edit_cols, t.rows[idx as int]);
                    if values.len() == 0 {
                        self.with_status("Fill at least one column"@)
                    } else {
                        self.stage(id, RowEditView::Insert { values }, target)
                    }
                } else {
                    self
                },
                _ => self,
            },
        }
    }

    /// The selected row is staged as a delete; the new row is only discarded.
    pub open spec fn delete_current_row(self, id: u64) -> WorkspaceView {
        match self.tab(id) {
            None => self,
            Some(t) => match t.current_row {
                None => self,
                Some(row) => if t.new_row_idx == Some(row) {
                    self.with_tab(
                        id,
                        TabView {
                            rows: if row < t.rows.len() {
                                t.rows.remove(row as int)
                            } else {
                                t.rows
                            },
                            new_row_idx: None,
                            current_row: None,
                            ..t
                        },
                    ).with_status("New row discarded"@).with_effect(
                        EffectView::ShowGrid { tab: id },
                    )
                } else {
                    match t.edit_target {
                        None => self,
                        Some(target) => match t.row_key(row, target) {
                            None => self,
                            Some(pk) => self.stage(id, RowEditView::Delete { pk }, target),
                        },
                    }
                },
            },
        }
    }

    /// The SQL of the staged edits of a tab.
    pub open spec fn pending_sql(self, id: u64) -> Option<Seq<char>> {
        match self.tab(id) {
            None => None,
            Some(t) => match t.edit_target {
                None => None,
                Some(target) => batch_sql(target, t.pending),
            },
        }
    }

    /// The staged edits are discarded and the rows loaded again.
    pub open spec fn cancel_pending(self, id: u64) -> WorkspaceView {
        match self.tab(id) {
            None => self,
            Some(t) => {
                let done = self.with_tab(
                    id,
                    TabView { pending: Seq::empty(), edited_cells: Set::empty(), ..t },
                ).with_status("Edits discarded"@);
                match t.last_sql {
                    Some(sql) => done.run_sql(id, sql),
                    None => done,
                }
            },
        }
    }

    /// The staged edits are to be applied. Without a connection they stay staged.
    pub open spec fn apply_pending(self, id: u64) -> WorkspaceView {
        match self.tab(id) {
            None => self,
            Some(t) => match (t.edit_target, self.conn) {
                (Some(target), Some(conn)) => if t.pending.len() == 0 {
                    self
                } else {
                    self.with_tab(id, TabView { pending: Seq::empty(), ..t }).with_status(
                        "Applying\u{2026}"@,
                    ).with_effect(
                        EffectView::Apply {
                            tab: id,
                            conn,
                            target,
                            edits: t.pending,
                            sql: match batch_sql(target, t.pending) {
                                Some(sql) => sql,
                                None => Seq::empty(),
                            },
                            reload: t.last_sql,
                        },
                    )
                },
                _ => self,
            },
        }
    }

    /// The edits were applied, or could not be. In that case they are staged again.
    pub open spec fn apply_finished(
        self,
        id: u64,
        edits: Seq<RowEditView>,
        sql: Seq<char>,
        reload: Option<Seq<char>>,
        error: Option<DbErrorView>,
    ) -> WorkspaceView {
        match error {
            None => {
                let noted = self.with_log(sql, true);
                let cleared = match noted.tab(id) {
                    Some(t) => noted.with_tab(id, TabView { edited_cells: Set::empty(), ..t }),
                    None => noted,
                };
                (match reload {
                    Some(s) => cleared.run_sql(id, s),
                    None => cleared,
                }).with_status("Applied "@ + decimal(edits.len()) + " change(s)"@)
            },
            Some(e) => (match self.tab(id) {
                Some(t) => self.with_tab(id, TabView { pending: edits, ..t }),
                None => self,
            }).with_log(sql, false).with_status("Apply failed: "@ + e.shown()),
        }
    }
}

/// Another tab with the same identifier stands where the first one stood.
pub proof fn lemma_same_position(tabs: Seq<TabView>, i: int, t: TabView, id: u64)
    requires
        0 <= i < tabs.len(),
        t.id == tabs[i].id,
    ensures
        position(tabs.update(i, t), id) == position(tabs, id),
{
    lemma_position(tabs, id);
    lemma_position(tabs.update(i, t), id);
    let b = tabs.update(i, t);
    assert forall|j: int| 0 <= j < tabs.len() implies (#[trigger] b[j]).id == tabs[j].id by {}
    if let Some(k) = position(tabs, id) {
        assert(b[k].id == id);
        if let Some(m) = position(b, id) {
            assert(tabs[m].id == id);
        }
    }
    if let Some(m) = position(b, id) {
        assert(tabs[m].id == id);
    }
}

fn filled_of(cols: &Vec<Option<String>>, row: &Vec<CellValue>) -> (r: Vec<(String, CellValue)>)
    ensures
        r.deep_view() == filled_columns(cols.deep_view(), row.deep_view()),
{
    let ghost cv = cols.deep_view();
    let mut r: Vec<(String, CellValue)> = Vec::new();
    proof {
        assert(r.deep_view() =~= filled_columns(cv.take(0), row.deep_view()));
    }
    let mut i: usize = 0;
    while i < cols.len()
        invariant
            i <= cols@.len(),
            cv == cols.deep_view(),
            r.deep_view() == filled_columns(cv.take(i as int), row.deep_view()),
        decreases cols@.len() - i,
    {
        let ghost before = r.deep_view();
        proof {
            assert(cv.take(i + 1).drop_last() =~= cv.take(i as int));
            assert(cv.take(i + 1).last() == cols@[i as int].deep_view());
        }
        if let Some(name) = &cols[i] {
            if i < row.len() {
                if let CellValue::Text(s) = &row[i] {
                    r.push((name.clone(), CellValue::Text(s.clone())));
                    proof {
                        assert(r.deep_view() =~= before.push((name@, Some(s@))));
                    }
                }
            }
        }
        i += 1;
    }
    proof {
        assert(cv.take(i as int) =~= cv);
    }
    r
}

fn set_cell(rows: &mut Vec<Vec<CellValue>>, row: usize, col: usize, value: CellValue)
    ensures
        final(rows).deep_view() == with_cell(old(rows).deep_view(), row, col, value.deep_view()),
{
    if row < rows.len() && col < rows[row].len() {
        rows[row][col] = value;
        proof {
            let before = old(rows).deep_view();
            assert(rows@[row as int].deep_view() =~= before[row as int].update(
                col as int,
                value.deep_view(),
            ));
            assert(rows.deep_view() =~= with_cell(before, row, col, value.deep_view()));
        }
    } else {
        proof {
            assert(rows.deep_view() =~= with_cell(
                old(rows).deep_view(),
                row,
                col,
                value.deep_view(),
            ));
        }
    }
}

fn count_staged(n: usize) -> (r: String)
    ensures
        r@ == decimal(n as nat) + " change"@ + (if n == 1 {
            ""@
        } else {
            "s"@
        }) + " staged \u{2014} review, then Apply."@,
{
    decimal_text(n as u64).concat(" change").concat(
        if n == 1 {
            ""
        } else {
            "s"
        },
    ).concat(" staged \u{2014} review, then Apply.")
}

impl Tab {
    /// Closes the cell editor of the tab, with a value for the cell.
    pub fn commit(&mut self, row: usize, col: usize, value: CellValue) -> (r: Option<
        Option<String>,
    >)
        ensures
            final(self).deep_view() == committed(
                old(self).deep_view(),
                row,
                col,
                value.deep_view(),
            ),
            r.deep_view() == commit_status(old(self).deep_view(), row, col, value.deep_view()),
    {
        let ghost t = self.deep_view();
        let ghost vv = value.deep_view();
        self.editing = None;
        let in_new_row = match self.new_row_idx {
            Some(k) => k == row,
            None => false,
        };
        if in_new_row {
            set_cell(&mut self.rows, row, col, value);
            return Some(None);
        }
        let target = match &self.edit_target {
            None => {
                return None;
            },
            Some(target) => target.dup(),
        };
        if col >= self.edit_cols.len() {
            return None;
        }
        let name = match &self.edit_cols[col] {
            None => {
                return None;
            },
            Some(name) => name.clone(),
        };
        proof {
            assert(t.real_column(col) == Some(name@));
        }
        let pk = match self.row_key(row, &target) {
            None => {
                return None;
            },
            Some(pk) => pk,
        };
        let ghost rest = without_update(t.pending, pk.deep_view(), name@);
        let mut pending: Vec<RowEdit> = Vec::new();
        std::mem::swap(&mut pending, &mut self.pending);
        self.pending = drop_update(pending, &pk, &name);
        let reverted = if row < self.orig_rows.len() && col < self.orig_rows[row].len() {
            same_cell(&self.orig_rows[row][col], &value)
        } else {
            false
        };
        proof {
            assert(reverted == (grid_cell(t.orig_rows, row, col) == Some(vv)));
        }
        if reverted {
            self.edited_cells.remove((row, col));
            set_cell(&mut self.rows, row, col, value);
            return Some(Some("Reverted to original".to_owned()));
        }
        let mut set: Vec<(String, CellValue)> = Vec::new();
        set.push((name, value.dup()));
        let ghost pkv = pk.deep_view();
        let edit = RowEdit::Update { pk, set };
        let ghost ev = edit.deep_view();
        proof {
            assert(set.deep_view() =~= seq![(name@, vv)]);
            assert(ev == cell_update(pkv, name@, vv));
        }
        let status = match edit.to_sql(&target) {
            Err(e) => "Cannot build statement: ".to_owned().concat(e.message().as_str()),
            Ok(_) => {
                place(&mut self.pending, edit, &target.pk_columns);
                count_staged(self.pending.len())
            },
        };
        self.edited_cells.insert((row, col));
        set_cell(&mut self.rows, row, col, value);
        Some(Some(status))
    }
}

impl Workspace {
    /// Selects a row of a tab.
    pub fn set_current_row(&mut self, id: u64, row: usize)
        ensures
            final(self).deep_view() == old(self).deep_view().set_current_row(id, row),
    {
        if let Some(i) = self.tab_index(id) {
            self.tabs[i].current_row = Some(row);
            proof {
                assert(self.deep_view().tabs =~= old(self).deep_view().tabs.update(
                    i as int,
                    TabView { current_row: Some(row), ..old(self).deep_view().tabs[i as int] },
                ));
            }
        }
    }

    /// Opens the cell editor on a cell.
    pub fn begin_edit(&mut self, id: u64, row: usize, col: usize)
        ensures
            final(self).deep_view() == old(self).deep_view().begin_edit(id, row, col),
    {
        let i = match self.tab_index(id) {
            None => {
                return;
            },
            Some(i) => i,
        };
        proof {
            assert(self.deep_view().tabs[i as int] == self.tabs@[i as int].deep_view());
        }
        if col >= self.tabs[i].edit_cols.len() || self.tabs[i].edit_cols[col].is_none() {
            return;
        }
        let text = if row < self.tabs[i].rows.len() && col < self.tabs[i].rows[row].len() {
            match &self.tabs[i].rows[row][col] {
                CellValue::Text(s) => s.clone(),
                CellValue::Null => String::new(),
            }
        } else {
            String::new()
        };
        let tab = &mut self.tabs[i];
        tab.editing = Some((row, col));
        tab.current_row = Some(row);
        proof {
            assert(self.deep_view().tabs =~= old(self).deep_view().tabs.update(
                i as int,
                TabView {
                    editing: Some((row, col)),
                    current_row: Some(row),
                    ..old(self).deep_view().tabs[i as int]
                },
            ));
        }
        self.cell_text = text.clone();
        self.emit(Effect::EditCell { text });
    }

    /// Closes the cell editor of the active tab without a change.
    pub fn cancel_cell_edit(&mut self)
        ensures
            final(self).deep_view() == old(self).deep_view().cancel_cell_edit(),
    {
        if let Some(i) = self.active {
            if i < self.tabs.len() {
                self.tabs[i].editing = None;
                proof {
                    assert(self.deep_view().tabs =~= old(self).deep_view().tabs.update(
                        i as int,
                        TabView { editing: None, ..old(self).deep_view().tabs[i as int] },
                    ));
                }
            }
        }
    }

    /// Closes the cell editor of the active tab and stages what was entered; the new row
    /// only keeps it.
    pub fn commit_cell_edit(&mut self)
        ensures
            final(self).deep_view() == old(self).deep_view().commit_cell_edit(),
    {
        let id = match self.active_id() {
            None => {
                return;
            },
            Some(id) => id,
        };
        let i = match self.tab_index(id) {
            None => {
                return;
            },
            Some(i) => i,
        };
        let ghost t = self.deep_view().tabs[i as int];
        proof {
            assert(t == self.tabs@[i as int].deep_view());
        }
        let (row, col) = match self.tabs[i].editing {
            None => {
                return;
            },
            Some(at) => at,
        };
        let value = if self.cell_text.as_str().is_empty() {
            CellValue::Null
        } else {
            CellValue::Text(self.cell_text.clone())
        };
        let ghost vv = value.deep_view();
        let said = self.tabs[i].commit(row, col, value);
        proof {
            assert(self.deep_view().tabs =~= old(self).deep_view().tabs.update(
                i as int,
                committed(t, row, col, vv),
            ));
        }
        match said {
            None => {},
            Some(None) => {
                self.emit(Effect::ShowGrid { tab: id });
            },
            Some(Some(status)) => {
                self.set_status(status);
                self.emit(Effect::ShowGrid { tab: id });
            },
        }
    }

    /// Takes any staged update of a column of the row with a key out of the staged edits.
    pub fn remove_pending_update(&mut self, id: u64, pk: &Vec<(String, CellValue)>, col: &String)
        ensures
            final(self).deep_view() == old(self).deep_view().remove_pending_update(
                id,
                pk.deep_view(),
                col@,
            ),
    {
        if let Some(i) = self.tab_index(id) {
            let mut pending: Vec<RowEdit> = Vec::new();
            let tab = &mut self.tabs[i];
            std::mem::swap(&mut pending, &mut tab.pending);
            tab.pending = drop_update(pending, pk, col);
            proof {
                let t = old(self).deep_view().tabs[i as int];
                assert(t == old(self).tabs@[i as int].deep_view());
                assert(self.deep_view().tabs =~= old(self).deep_view().tabs.update(
                    i as int,
                    TabView {
                        pending: without_update(t.pending, pk.deep_view(), col@),
                        ..t
                    },
                ));
            }
        }
    }

    /// Stages an edit, if there is a statement for it. Edits gather until they are applied,
    /// all in one transaction.
    pub fn stage(&mut self, id: u64, edit: RowEdit, target: &EditTarget)
        ensures
            final(self).deep_view() == old(self).deep_view().stage(
                id,
                edit.deep_view(),
                target.deep_view(),
            ),
    {
        if let Err(e) = edit.to_sql(target) {
            self.set_status(
                "Cannot build statement: ".to_owned().concat(e.message().as_str()),
            );
            return;
        }
        let i = match self.tab_index(id) {
            None => {
                return;
            },
            Some(i) => i,
        };
        let ghost t = self.deep_view().tabs[i as int];
        let ghost ev = edit.deep_view();
        proof {
            assert(t == self.tabs@[i as int].deep_view());
        }
        let tab = &mut self.tabs[i];
        place(&mut tab.pending, edit, &target.pk_columns);
        let n: usize = tab.pending.len();
        proof {
            assert(self.deep_view().tabs =~= old(self).deep_view().tabs.update(
                i as int,
                TabView { pending: staged(t.pending, ev, target.deep_view()), ..t },
            ));
        }
        self.set_status(count_staged(n));
    }

    /// Appends a blank row, to be filled cell by cell.
    pub fn add_row(&mut self, id: u64)
        ensures
            final(self).deep_view() == old(self).deep_view().add_row(id),
    {
        let i = match self.tab_index(id) {
            None => {
                return;
            },
            Some(i) => i,
        };
        let ghost t = self.deep_view().tabs[i as int];
        proof {
            assert(t == self.tabs@[i as int].deep_view());
        }
        if self.tabs[i].edit_target.is_none() {
            return;
        }
        let n = self.tabs[i].headers.len();
        let mut blank: Vec<CellValue> = Vec::new();
        while blank.len() < n
            invariant
                blank@.len() <= n,
                forall|j: int| 0 <= j < blank@.len() ==> (#[trigger] blank@[j]).deep_view() is None,
            decreases n - blank@.len(),
        {
            blank.push(CellValue::Null);
        }
        let idx = self.tabs[i].rows.len();
        let tab = &mut self.tabs[i];
        tab.rows.push(blank);
        tab.new_row_idx = Some(idx);
        tab.current_row = Some(idx);
        proof {
            let nulls: Seq<Cell> = Seq::new(t.headers.len(), |i: int| None);
            assert(blank.deep_view() =~= nulls);
            assert(self.tabs@[i as int].rows.deep_view() =~= t.rows.push(nulls));
            assert(self.deep_view().tabs =~= old(self).deep_view().tabs.update(
                i as int,
                TabView {
                    rows: t.rows.push(nulls),
                    new_row_idx: Some(idx),
                    current_row: Some(idx),
                    ..t
                },
            ));
        }
        self.set_status("New row \u{2014} double-click cells to fill, then Save row.".to_owned());
        self.emit(Effect::ShowGrid { tab: id });
    }

    /// Stages an insert of the filled columns of the new row. The others are left to their
    /// defaults.
    pub fn save_new_row(&mut self, id: u64)
        ensures
            final(self).deep_view() == old(self).deep_view().save_new_row(id),
    {
        let i = match self.tab_index(id) {
            None => {
                return;
            },
            Some(i) => i,
        };
        proof {
            assert(self.deep_view().tabs[i as int] == self.tabs@[i as int].deep_view());
        }
        let (idx, target) = match (&self.tabs[i].new_row_idx, &self.tabs[i].edit_target) {
            (Some(idx), Some(target)) => (*idx, target.dup()),
            _ => {
                return;
            },
        };
        if idx >= self.tabs[i].rows.len() {
            return;
        }
        let values = filled_of(&self.tabs[i].edit_cols, &self.tabs[i].rows[idx]);
        if values.len() == 0 {
            self.set_status("Fill at least one column".to_owned());
            return;
        }
        self.stage(id, RowEdit::Insert { values }, &target);
    }

    /// Stages a delete of the selected row, or discards the new row.
    pub fn delete_current_row(&mut self, id: u64)
        ensures
            final(self).deep_view() == old(self).deep_view().delete_current_row(id),
    {
        let i = match self.tab_index(id) {
            None => {
                return;
            },
            Some(i) => i,
        };
        let ghost t = self.deep_view().tabs[i as int];
        proof {
            assert(t == self.tabs@[i as int].deep_view());
        }
        let row = match self.tabs[i].current_row {
            None => {
                return;
            },
            Some(row) => row,
        };
        let is_new = match self.tabs[i].new_row_idx {
            Some(k) => k == row,
            None => false,
        };
        if is_new {
            let tab = &mut self.tabs[i];
            if row < tab.rows.len() {
                tab.rows.remove(row);
            }
            tab.new_row_idx = None;
            tab.current_row = None;
            proof {
                let rest = if row < t.rows.len() {
                    t.rows.remove(row as int)
                } else {
                    t.rows
                };
                assert(self.tabs@[i as int].rows.deep_view() =~= rest);
                assert(self.deep_view().tabs =~= old(self).deep_view().tabs.update(
                    i as int,
                    TabView { rows: rest, new_row_idx: None, current_row: None, ..t },
                ));
            }
            self.set_status("New row discarded".to_owned());
            self.emit(Effect::ShowGrid { tab: id });
            return;
        }
        let target = match &self.tabs[i].edit_target {
            None => {
                return;
            },
            Some(target) => target.dup(),
        };
        if let Some(pk) = self.tabs[i].row_key(row, &target) {
            self.stage(id, RowEdit::Delete { pk }, &target);
        }
    }

    /// The key of a row of a tab.
    pub fn row_pk(&self, id: u64, row: usize, target: &EditTarget) -> (r: Option<
        Vec<(String, CellValue)>,
    >)
        ensures
            r.deep_view() == (match self.deep_view().tab(id) {
                Some(t) => t.row_key(row, target.deep_view()),
                None => None,
            }),
    {
        match self.tab_index(id) {
            Some(i) => self.tabs[i].row_key(row, target),
            None => None,
        }
    }

    /// The SQL of the staged edits of a tab, for review.
    pub fn pending_sql(&self, id: u64) -> (r: Option<String>)
        ensures
            r.deep_view() == self.deep_view().pending_sql(id),
    {
        let i = match self.tab_index(id) {
            None => {
                return None;
            },
            Some(i) => i,
        };
        proof {
            assert(self.deep_view().tabs[i as int] == self.tabs@[i as int].deep_view());
        }
        match &self.tabs[i].edit_target {
            None => None,
            Some(target) => batch_of(target, &self.tabs[i].pending),
        }
    }

    /// Discards the staged edits and loads the rows again.
    pub fn cancel_pending(&mut self, id: u64)
        ensures
            final(self).deep_view() == old(self).deep_view().cancel_pending(id),
    {
        let i = match self.tab_index(id) {
            None => {
                return;
            },
            Some(i) => i,
        };
        let tab = &mut self.tabs[i];
        tab.pending.clear();
        tab.edited_cells.clear();
        let reload = tab.last_sql.dup();
        proof {
            let t = old(self).deep_view().tabs[i as int];
            assert(t == old(self).tabs@[i as int].deep_view());
            let after = TabView { pending: Seq::empty(), edited_cells: Set::empty(), ..t };
            assert(self.tabs@[i as int].deep_view() =~= after);
            assert(self.deep_view().tabs =~= old(self).deep_view().tabs.update(i as int, after));
        }
        self.set_status("Edits discarded".to_owned());
        if let Some(sql) = reload {
            self.run_sql(id, sql);
        }
    }

    /// Has the staged edits of a tab applied in a single transaction.
    pub fn apply_pending(&mut self, id: u64)
        ensures
            final(self).deep_view() == old(self).deep_view().apply_pending(id),
    {
        let i = match self.tab_index(id) {
            None => {
                return;
            },
            Some(i) => i,
        };
        let ghost t = self.deep_view().tabs[i as int];
        proof {
            assert(t == self.tabs@[i as int].deep_view());
        }
        if self.tabs[i].pending.len() == 0 {
            return;
        }
        let target = match &self.tabs[i].edit_target {
            None => {
                return;
            },
            Some(target) => target.dup(),
        };
        let conn = match self.conn {
            None => {
                return;
            },
            Some(conn) => conn,
        };
        let mut edits: Vec<RowEdit> = Vec::new();
        let tab = &mut self.tabs[i];
        std::mem::swap(&mut edits, &mut tab.pending);
        let reload = tab.last_sql.dup();
        proof {
            let after = TabView { pending: Seq::empty(), ..t };
            assert(self.tabs@[i as int].deep_view() =~= after);
            assert(self.deep_view().tabs =~= old(self).deep_view().tabs.update(i as int, after));
        }
        let sql = match batch_of(&target, &edits) {
            Some(sql) => sql,
            None => String::new(),
        };
        self.set_status("Applying\u{2026}".to_owned());
        self.emit(Effect::Apply { tab: id, conn, target, edits, sql, reload });
    }

    /// Takes in what came of applying edits. Those that failed are staged again, so that
    /// nothing is lost.
    pub fn apply_finished(
        &mut self,
        id: u64,
        edits: Vec<RowEdit>,
        sql: &str,
        reload: Option<String>,
        result: Result<(), DbError>,
    )
        ensures
            final(self).deep_view() == old(self).deep_view().apply_finished(
                id,
                edits.deep_view(),
                sql@,
                reload.deep_view(),
                match result {
                    Ok(_) => None,
                    Err(e) => Some(e.deep_view()),
                },
            ),
    {
        match result {
            Ok(_) => {
                self.note(sql, true);
                let ghost noted = self.deep_view();
                if let Some(i) = self.tab_index(id) {
                    self.tabs[i].edited_cells.clear();
                    proof {
                        let t = noted.tabs[i as int];
                        assert(t == old(self).tabs@[i as int].deep_view());
                        let after = TabView { edited_cells: Set::empty(), ..t };
                        assert(self.tabs@[i as int].deep_view() =~= after);
                        assert(self.deep_view().tabs =~= noted.tabs.update(i as int, after));
                    }
                }
                if let Some(s) = reload {
                    self.run_sql(id, s);
                }
                self.set_status(
                    "Applied ".to_owned().concat(decimal_text(edits.len() as u64).as_str()).concat(
                        " change(s)",
                    ),
                );
            },
            Err(e) => {
                if let Some(i) = self.tab_index(id) {
                    self.tabs[i].pending = edits;
                    proof {
                        let t = old(self).deep_view().tabs[i as int];
                        assert(t == old(self).tabs@[i as int].deep_view());
                        assert(self.deep_view().tabs =~= old(self).deep_view().tabs.update(
                            i as int,
                            TabView { pending: edits.deep_view(), ..t },
                        ));
                    }
                }
                self.note(sql, false);
                self.set_status("Apply failed: ".to_owned().concat(e.message().as_str()));
            },
        }
    }
}

fn batch_of(target: &EditTarget, edits: &Vec<RowEdit>) -> (r: Option<String>)
    ensures
        r.deep_view() == batch_sql(target.deep_view(), edits.deep_view()),
{
    let all = edits.as_slice();
    proof {
        assert(all.deep_view() =~= edits.deep_view());
    }
    match build_batch(target, all) {
        Ok(sql) => sql,
        Err(_) => None,
    }
}

/// Edits that could not be applied are staged again as they were: nothing is lost by a
/// failure, and the tab can try again.
pub proof fn law_failed_apply_keeps_the_edits(w: WorkspaceView, id: u64, e: DbErrorView)
    requires
        w.tab(id) is Some,
        w.apply_pending(id) != w,
    ensures
        ({
            let t = w.tab(id)->0;
            let sent = w.apply_pending(id);
            let failed = sent.apply_finished(
                id,
                t.pending,
                sent.outbox.last()->Apply_sql,
                t.last_sql,
                Some(e),
            );
            &&& sent.tab(id) == Some(TabView { pending: Seq::empty(), ..t })
            &&& sent.outbox.last()->edits == t.pending
            &&& failed.tab(id) == Some(t)
            &&& failed.tabs == w.tabs
        }),
{
    let t = w.tab(id)->0;
    let i = position(w.tabs, id)->0;
    lemma_position(w.tabs, id);
    let empty = TabView { pending: Seq::empty(), ..t };
    lemma_same_position(w.tabs, i, empty, id);
    let sent = w.apply_pending(id);
    assert(sent.tabs == w.tabs.update(i, empty));
    let back = TabView { pending: t.pending, ..empty };
    assert(back =~= t);
    assert(sent.tabs.update(i, back) =~= w.tabs);
}

} // verus!
