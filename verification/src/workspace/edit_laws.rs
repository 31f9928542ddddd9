//! Edits of the grid: which row an edit is about, what it sets, what is left of the others,
//! and what is sent to the server for them.

use vstd::prelude::*;
use crate::edit::{EditTargetView, PairView, RowEditView};
use crate::export::Cell;
use crate::listing_laws::{
    cells_under, law_new_row_holds_what_was_filled, lemma_picked, lemma_picked_none, picked,
};
use crate::statement_laws::{
    as_read, law_batch_reads_back, law_first_fault, law_only_whole_changes_have_statements,
    read_batch,
};
use crate::workspace::edit::filled_columns;
use crate::workspace::query_laws::{lemma_tab_id, lemma_tab_kept};
use crate::workspace::staging::{
    cell_update, column_index, committed, grid_cell, key_of, mover, moves, placed, sets_key,
    unset, without_update,
};
use crate::workspace::state::{EffectView, WorkspaceView};
use crate::workspace::tab::TabView;
use crate::workspace::view::ReviewView;

verus! {

// ---- keys ------------------------------------------------------------------------

/// Whether the first column of a result behind which a column of the table stands is a given
/// one.
pub open spec fn is_first_column(
    cols: Seq<Option<Seq<char>>>,
    name: Seq<char>,
    k: int,
) -> bool {
    &&& 0 <= k < cols.len()
    &&& cols[k] == Some(name)
    &&& forall|j: int| 0 <= j < k ==> #[trigger] cols[j] != Some(name)
}

/// Whether a key names the columns of a primary key, each one and in order, with the values
/// that a row has for them.
pub open spec fn is_row_key(
    pk: Seq<PairView>,
    cols: Seq<Option<Seq<char>>>,
    row: Seq<Cell>,
    names: Seq<Seq<char>>,
) -> bool {
    &&& pk.len() == names.len()
    &&& forall|i: int|
        0 <= i < names.len() ==> (#[trigger] pk[i]).0 == names[i] && exists|k: int| #[trigger]
            is_first_column(cols, names[i], k) && pk[i].1 == (if k < row.len() {
                row[k]
            } else {
                None
            })
}

/// A column of the table is found at the first place where it stands in the result, and only
/// where it stands in it.
pub proof fn law_column_is_found_where_it_stands(cols: Seq<Option<Seq<char>>>, name: Seq<char>)
    ensures
        (match column_index(cols, name) {
            Some(k) => is_first_column(cols, name, k),
            None => forall|j: int| 0 <= j < cols.len() ==> #[trigger] cols[j] != Some(name),
        }),
    decreases cols.len(),
{
    if cols.len() > 0 {
        let front = cols.drop_last();
        law_column_is_found_where_it_stands(front, name);
        match column_index(front, name) {
            Some(k) => {
                assert(front[k] == cols[k]);
                assert forall|j: int| 0 <= j < k implies #[trigger] cols[j] != Some(name) by {
                    assert(front[j] == cols[j]);
                }
            },
            None => {
                assert forall|j: int| 0 <= j < front.len() implies #[trigger] cols[j] != Some(
                    name,
                ) by {
                    assert(front[j] == cols[j]);
                }
            },
        }
    }
}

/// The key of a row names every column of the primary key with the value that the row has for
/// it. There is none exactly where one of those columns is not in the result.
pub proof fn law_row_key_is_whole(
    cols: Seq<Option<Seq<char>>>,
    row: Seq<Cell>,
    names: Seq<Seq<char>>,
)
    ensures
        (match key_of(cols, row, names) {
            Some(pk) => is_row_key(pk, cols, row, names),
            None => exists|i: int|
                0 <= i < names.len() && !cols.contains(Some(#[trigger] names[i])),
        }),
        (exists|i: int| 0 <= i < names.len() && !cols.contains(Some(#[trigger] names[i])))
            ==> key_of(cols, row, names) is None,
    decreases names.len(),
{
    if names.len() > 0 {
        let front = names.drop_last();
        let n = names.len() - 1;
        law_row_key_is_whole(cols, row, front);
        law_column_is_found_where_it_stands(cols, names[n]);
        match (key_of(cols, row, front), column_index(cols, names[n])) {
            (Some(a), Some(k)) => {
                let pk = key_of(cols, row, names)->0;
                assert(is_first_column(cols, names[n], k));
                assert forall|i: int| 0 <= i < names.len() implies (#[trigger] pk[i]).0
                    == names[i] && exists|k: int| #[trigger]
                    is_first_column(cols, names[i], k) && pk[i].1 == (if k < row.len() {
                        row[k]
                    } else {
                        None
                    }) by {
                    if i < n {
                        assert(pk[i] == a[i]);
                        assert(front[i] == names[i]);
                    }
                }
                assert forall|i: int| 0 <= i < names.len() implies cols.contains(
                    Some(#[trigger] names[i]),
                ) by {
                    if i < n {
                        assert(front[i] == names[i]);
                        assert(cols.contains(Some(front[i])));
                    } else {
                        assert(cols[k] == Some(names[n]));
                    }
                }
            },
            (None, _) => {
                let i = choose|i: int|
                    0 <= i < front.len() && !cols.contains(Some(#[trigger] front[i]));
                assert(names[i] == front[i]);
            },
            (Some(_), None) => {
                assert(!cols.contains(Some(names[n])));
            },
        }
    }
}

/// An edit finds its row by the key that the row was loaded with, whatever was typed since.
pub proof fn law_rows_are_found_as_they_were_loaded(
    t: TabView,
    row: usize,
    target: EditTargetView,
)
    requires
        t.row_key(row, target) is Some,
    ensures
        row < t.rows.len(),
        is_row_key(
            t.row_key(row, target)->0,
            t.edit_cols,
            if row < t.orig_rows.len() {
                t.orig_rows[row as int]
            } else {
                t.rows[row as int]
            },
            target.pk_columns,
        ),
{
    law_row_key_is_whole(t.edit_cols, t.known_row(row), target.pk_columns);
}

// ---- staged edits ----------------------------------------------------------------

/// Whether a column that is set is another one.
pub open spec fn other_than(col: Seq<char>) -> spec_fn(PairView) -> bool {
    |p: PairView| p.0 != col
}

/// Taking a column out of what is set leaves every other one, in order.
pub proof fn law_other_columns_stay_set(set: Seq<PairView>, col: Seq<char>)
    ensures
        unset(set, col) == set.filter(other_than(col)),
    decreases set.len(),
{
    reveal(Seq::filter);
    if set.len() > 0 {
        law_other_columns_stay_set(set.drop_last(), col);
    }
}

/// Whether an edit is an update of the row with a key.
pub open spec fn is_update_of(e: RowEditView, pk: Seq<PairView>) -> bool {
    e is Update && e->Update_pk == pk
}

/// What is left of an edit when a column of the row with a key is no longer set.
pub open spec fn left_of(e: RowEditView, pk: Seq<PairView>, col: Seq<char>) -> RowEditView {
    if is_update_of(e, pk) {
        RowEditView::Update { pk, set: e->Update_set.filter(other_than(col)) }
    } else {
        e
    }
}

/// Whether there is anything left of an edit when a column of the row with a key is no longer
/// set.
pub open spec fn something_left(e: RowEditView, pk: Seq<PairView>, col: Seq<char>) -> bool {
    is_update_of(e, pk) ==> exists|k: int|
        0 <= k < e->Update_set.len() && (#[trigger] e->Update_set[k]).0 != col
}

proof fn lemma_something_set(set: Seq<PairView>, col: Seq<char>)
    ensures
        unset(set, col).len() > 0 <==> exists|k: int|
            0 <= k < set.len() && (#[trigger] set[k]).0 != col,
    decreases set.len(),
{
    if set.len() > 0 {
        let front = set.drop_last();
        lemma_something_set(front, col);
        if unset(front, col).len() > 0 {
            let k = choose|k: int| 0 <= k < front.len() && (#[trigger] front[k]).0 != col;
            assert(set[k] == front[k]);
        }
        if set[set.len() - 1].0 == col {
            if exists|k: int| 0 <= k < set.len() && (#[trigger] set[k]).0 != col {
                let k = choose|k: int| 0 <= k < set.len() && (#[trigger] set[k]).0 != col;
                assert(front[k] == set[k]);
            }
        }
    }
}

/// Taking back what updates a cell touches no other row, no other column and no insert or
/// delete, and keeps the order; an update is gone only where it set nothing else.
pub proof fn law_taking_back_an_update(
    pending: Seq<RowEditView>,
    pk: Seq<PairView>,
    col: Seq<char>,
)
    ensures
        without_update(pending, pk, col) == picked(
            pending,
            |e: RowEditView| something_left(e, pk, col),
            |e: RowEditView| left_of(e, pk, col),
        ),
    decreases pending.len(),
{
    let wanted = |e: RowEditView| something_left(e, pk, col);
    let give = |e: RowEditView| left_of(e, pk, col);
    if pending.len() == 0 {
        lemma_picked_none(pending, wanted, give);
    } else {
        law_taking_back_an_update(pending.drop_last(), pk, col);
        lemma_picked(pending, wanted, give);
        let last = pending.last();
        if is_update_of(last, pk) {
            let set = last->Update_set;
            lemma_something_set(set, col);
            law_other_columns_stay_set(set, col);
        }
    }
}

/// Whether an edit gives the row with a key another key.
pub open spec fn rekeys(e: RowEditView, pk: Seq<PairView>, keys: Seq<Seq<char>>) -> bool {
    is_update_of(e, pk) && exists|k: int, j: int|
        0 <= k < e->Update_set.len() && 0 <= j < keys.len() && (#[trigger] e->Update_set[k]).0
            == #[trigger] keys[j]
}

proof fn lemma_rekeys(e: RowEditView, pk: Seq<PairView>, keys: Seq<Seq<char>>)
    ensures
        moves(e, pk, keys) == rekeys(e, pk, keys),
{
    if moves(e, pk, keys) {
        let set = e->Update_set;
        let k = choose|k: int| 0 <= k < set.len() && keys.contains((#[trigger] set[k]).0);
        let j = choose|j: int| 0 <= j < keys.len() && keys[j] == set[k].0;
        assert(set[k].0 == keys[j]);
    }
    if rekeys(e, pk, keys) {
        let set = e->Update_set;
        let (k, j) = choose|k: int, j: int|
            0 <= k < set.len() && 0 <= j < keys.len() && (#[trigger] set[k]).0 == #[trigger] keys[j];
        assert(keys.contains(set[k].0));
        assert(sets_key(set, keys));
    }
}

proof fn lemma_first_mover(pending: Seq<RowEditView>, pk: Seq<PairView>, keys: Seq<Seq<char>>)
    ensures
        (match mover(pending, pk, keys) {
            Some(m) => 0 <= m < pending.len() && rekeys(pending[m], pk, keys) && forall|i: int|
                0 <= i < m ==> !rekeys(#[trigger] pending[i], pk, keys),
            None => forall|i: int|
                0 <= i < pending.len() ==> !rekeys(#[trigger] pending[i], pk, keys),
        }),
    decreases pending.len(),
{
    if pending.len() > 0 {
        let front = pending.drop_last();
        lemma_first_mover(front, pk, keys);
        lemma_rekeys(pending.last(), pk, keys);
        match mover(front, pk, keys) {
            Some(m) => {
                assert(front[m] == pending[m]);
                assert forall|i: int| 0 <= i < m implies !rekeys(#[trigger] pending[i], pk, keys) by {
                    assert(front[i] == pending[i]);
                }
            },
            None => {
                assert forall|i: int| 0 <= i < front.len() implies !rekeys(
                    #[trigger] pending[i],
                    pk,
                    keys,
                ) by {
                    assert(front[i] == pending[i]);
                }
            },
        }
    }
}

/// A new edit stands behind the others, all of which stay. Only where one of them gives its row
/// another key, the two are made one there: an update sets what it set before and the new
/// columns, a delete takes its place.
pub proof fn law_new_edit_is_kept(
    pending: Seq<RowEditView>,
    edit: RowEditView,
    keys: Seq<Seq<char>>,
)
    ensures
        edit is Insert ==> placed(pending, edit, keys) == pending.push(edit),
        !(edit is Insert) ==> ({
            let pk = match edit {
                RowEditView::Update { pk, .. } => pk,
                RowEditView::Delete { pk } => pk,
                RowEditView::Insert { values } => values,
            };
            let all = placed(pending, edit, keys);
            &&& (forall|i: int| 0 <= i < pending.len() ==> !rekeys(#[trigger] pending[i], pk, keys))
                ==> all == pending.push(edit)
            &&& forall|m: int|
                0 <= m < pending.len() && rekeys(#[trigger] pending[m], pk, keys) && (forall|i: int|
                    0 <= i < m ==> !rekeys(#[trigger] pending[i], pk, keys)) ==> {
                    &&& all.len() == pending.len()
                    &&& forall|i: int| 0 <= i < pending.len() && i != m ==> #[trigger] all[i] == pending[i]
                    &&& edit is Delete ==> all[m] == edit
                    &&& edit is Update ==> all[m] == (RowEditView::Update {
                        pk,
                        set: pending[m]->Update_set + edit->Update_set,
                    })
                }
        }),
{
    if !(edit is Insert) {
        let pk = match edit {
            RowEditView::Update { pk, .. } => pk,
            RowEditView::Delete { pk } => pk,
            RowEditView::Insert { values } => values,
        };
        lemma_first_mover(pending, pk, keys);
        assert forall|m: int|
            0 <= m < pending.len() && rekeys(#[trigger] pending[m], pk, keys) && (forall|i: int|
                0 <= i < m ==> !rekeys(#[trigger] pending[i], pk, keys)) implies mover(
            pending,
            pk,
            keys,
        ) == Some(m) by {
            let k = mover(pending, pk, keys)->0;
            assert(mover(pending, pk, keys) is Some);
            assert(rekeys(pending[k], pk, keys));
        }
    }
}

// ---- an edit of a cell -----------------------------------------------------------

/// A cell that is edited shows its new value, and every other cell what it showed. The edit is
/// staged as an update of that column of that row, marked, and listed after the edits that are
/// left when an earlier update of the cell is taken back.
pub proof fn law_edited_cell_is_staged(t: TabView, row: usize, col: usize, value: Cell)
    requires
        t.new_row_idx != Some(row),
        t.edit_target is Some,
        t.edit_target->0.pk_columns.len() > 0,
        col < t.edit_cols.len(),
        t.edit_cols[col as int] is Some,
        t.row_key(row, t.edit_target->0) is Some,
        row < t.rows.len(),
        col < t.rows[row as int].len(),
    ensures
        ({
            let target = t.edit_target->0;
            let pk = t.row_key(row, target)->0;
            let source = t.edit_cols[col as int]->0;
            let done = committed(t, row, col, value);
            let rest = picked(
                t.pending,
                |e: RowEditView| something_left(e, pk, source),
                |e: RowEditView| left_of(e, pk, source),
            );
            let kept = row < t.orig_rows.len() && col < t.orig_rows[row as int].len()
                && t.orig_rows[row as int][col as int] == value;
            &&& done.editing is None
            &&& done.rows.len() == t.rows.len()
            &&& forall|r: int| 0 <= r < t.rows.len() ==> (#[trigger] done.rows[r]).len()
                == t.rows[r].len()
            &&& forall|r: int, c: int|
                #![trigger done.rows[r][c]]
                0 <= r < t.rows.len() && 0 <= c < t.rows[r].len() ==> done.rows[r][c] == (if r
                    == row && c == col {
                    value
                } else {
                    t.rows[r][c]
                })
            &&& kept ==> done.pending == rest && done.edited_cells == t.edited_cells.remove(
                (row, col),
            )
            &&& !kept ==> done.pending == placed(
                rest,
                RowEditView::Update { pk, set: seq![(source, value)] },
                target.pk_columns,
            ) && done.edited_cells == t.edited_cells.insert((row, col))
        }),
{
    let target = t.edit_target->0;
    let pk = t.row_key(row, target)->0;
    let source = t.edit_cols[col as int]->0;
    law_taking_back_an_update(t.pending, pk, source);
    law_row_key_is_whole(t.edit_cols, t.known_row(row), target.pk_columns);
    law_only_whole_changes_have_statements(cell_update(pk, source, value), target);
    let kept = grid_cell(t.orig_rows, row, col) == Some(value);
}

/// In the row that is not saved yet a value is only kept: nothing is staged.
pub proof fn law_new_row_is_only_filled(t: TabView, row: usize, col: usize, value: Cell)
    requires
        t.new_row_idx == Some(row),
        row < t.rows.len(),
        col < t.rows[row as int].len(),
    ensures
        committed(t, row, col, value).pending == t.pending,
        committed(t, row, col, value).edited_cells == t.edited_cells,
        committed(t, row, col, value).rows[row as int][col as int] == value,
{
}

/// The editor of a cell opens with the text of the cell, and empty on NULL; left as it was, it
/// stands for the value that the cell has.
pub proof fn law_editor_holds_the_cell(w: WorkspaceView, id: u64, row: usize, col: usize)
    requires
        w.tab(id) is Some,
        col < w.tab(id)->0.edit_cols.len(),
        w.tab(id)->0.edit_cols[col as int] is Some,
        row < w.tab(id)->0.rows.len(),
        col < w.tab(id)->0.rows[row as int].len(),
    ensures
        ({
            let cell = w.tab(id)->0.rows[row as int][col as int];
            let v = w.begin_edit(id, row, col);
            &&& v.tab(id) is Some
            &&& v.tab(id)->0.editing == Some((row, col))
            &&& v.tab(id)->0.current_row == Some(row)
            &&& cell is Some ==> v.cell_text == cell->0
            &&& cell is None ==> v.cell_text.len() == 0
            &&& v.outbox == w.outbox.push(EffectView::EditCell { text: v.cell_text })
            &&& cell != Some(Seq::<char>::empty()) ==> crate::workspace::edit::cell_of_text(
                v.cell_text,
            ) == cell
        }),
{
    let t = w.tab(id)->0;
    let cell = t.rows[row as int][col as int];
    lemma_tab_id(w, id);
    lemma_tab_kept(w, id, TabView { editing: Some((row, col)), current_row: Some(row), ..t });
    if let Some(s) = cell {
        if s.len() == 0 {
            assert(s =~= Seq::<char>::empty());
        }
    }
}

// ---- rows ------------------------------------------------------------------------

/// A new row is blank, stands last, and is the one that is saved.
pub proof fn law_new_row_is_blank(w: WorkspaceView, id: u64)
    requires
        w.tab(id) is Some,
        w.tab(id)->0.edit_target is Some,
        w.tab(id)->0.rows.len() < usize::MAX,
    ensures
        ({
            let t = w.tab(id)->0;
            let n = w.add_row(id).tab(id)->0;
            &&& w.add_row(id).tab(id) is Some
            &&& n.rows.len() == t.rows.len() + 1
            &&& n.rows.drop_last() == t.rows
            &&& n.rows.last().len() == t.headers.len()
            &&& forall|c: int| 0 <= c < t.headers.len() ==> #[trigger] n.rows.last()[c] is None
            &&& n.new_row_idx == Some(t.rows.len() as usize)
            &&& n.current_row == n.new_row_idx
            &&& n.pending == t.pending
        }),
{
    let t = w.tab(id)->0;
    lemma_tab_id(w, id);
    let idx = t.rows.len() as usize;
    let new = TabView {
        rows: t.rows.push(Seq::new(t.headers.len(), |i: int| None)),
        new_row_idx: Some(idx),
        current_row: Some(idx),
        ..t
    };
    lemma_tab_kept(w, id, new);
    assert(new.rows.drop_last() =~= t.rows);
}

/// Saving the new row stages one insert, of every column that was filled and of no other.
pub proof fn law_new_row_is_staged(w: WorkspaceView, id: u64)
    requires
        w.tab(id) is Some,
        w.tab(id)->0.edit_target is Some,
        w.tab(id)->0.new_row_idx is Some,
        w.tab(id)->0.new_row_idx->0 < w.tab(id)->0.rows.len(),
    ensures
        ({
            let t = w.tab(id)->0;
            let values = picked(
                cells_under(t.edit_cols, t.rows[t.new_row_idx->0 as int]),
                |p: (Option<Seq<char>>, Cell)| p.0 is Some && p.1 is Some,
                |p: (Option<Seq<char>>, Cell)| (p.0->0, p.1),
            );
            let v = w.save_new_row(id);
            &&& v.tab(id) is Some
            &&& values.len() == 0 ==> v.tab(id)->0.pending == t.pending
            &&& values.len() > 0 ==> v.tab(id)->0.pending == t.pending.push(
                RowEditView::Insert { values },
            )
            &&& v.outbox == w.outbox
        }),
{
    let t = w.tab(id)->0;
    let row = t.rows[t.new_row_idx->0 as int];
    law_new_row_holds_what_was_filled(t.edit_cols, row);
    let values = filled_columns(t.edit_cols, row);
    lemma_tab_id(w, id);
    law_only_whole_changes_have_statements(RowEditView::Insert { values }, t.edit_target->0);
    lemma_tab_kept(w, id, TabView { pending: t.pending.push(RowEditView::Insert { values }), ..t });
}

/// Deleting the selected row stages one delete, by the whole key of that row.
pub proof fn law_selected_row_is_deleted(w: WorkspaceView, id: u64)
    requires
        w.tab(id) is Some,
        w.tab(id)->0.edit_target is Some,
        w.tab(id)->0.current_row is Some,
        w.tab(id)->0.current_row != w.tab(id)->0.new_row_idx,
        w.tab(id)->0.edit_target->0.pk_columns.len() > 0,
        w.tab(id)->0.row_key(w.tab(id)->0.current_row->0, w.tab(id)->0.edit_target->0) is Some,
    ensures
        ({
            let t = w.tab(id)->0;
            let target = t.edit_target->0;
            let pk = t.row_key(t.current_row->0, target)->0;
            let v = w.delete_current_row(id);
            &&& v.tab(id) is Some
            &&& v.tab(id)->0.pending == placed(
                t.pending,
                RowEditView::Delete { pk },
                target.pk_columns,
            )
            &&& v.tab(id)->0.rows == t.rows
            &&& v.outbox == w.outbox
        }),
{
    let t = w.tab(id)->0;
    let target = t.edit_target->0;
    let row = t.current_row->0;
    let pk = t.row_key(row, target)->0;
    lemma_tab_id(w, id);
    law_row_key_is_whole(t.edit_cols, t.known_row(row), target.pk_columns);
    law_only_whole_changes_have_statements(RowEditView::Delete { pk }, target);
    lemma_tab_kept(
        w,
        id,
        TabView { pending: placed(t.pending, RowEditView::Delete { pk }, target.pk_columns), ..t },
    );
}

// ---- applying --------------------------------------------------------------------

/// Applying sends the staged edits, all of them and as they are, over the connection, with SQL
/// that reads back as those edits on their table; the rows are loaded again behind it.
pub proof fn law_applying_sends_the_edits(w: WorkspaceView, id: u64)
    requires
        w.tab(id) is Some,
        w.tab(id)->0.edit_target is Some,
        w.conn is Some,
        w.tab(id)->0.pending.len() > 0,
        forall|i: int|
            0 <= i < w.tab(id)->0.pending.len() ==> (#[trigger] w.tab(id)->0.pending[i]).sql(
                w.tab(id)->0.edit_target->0,
            ) is Ok,
    ensures
        ({
            let t = w.tab(id)->0;
            let v = w.apply_pending(id);
            &&& v.tab(id) is Some
            &&& v.tab(id)->0.pending.len() == 0
            &&& v.outbox.len() == w.outbox.len() + 1
            &&& v.outbox.drop_last() == w.outbox
            &&& v.outbox.last() matches EffectView::Apply { tab, conn, target, edits, sql, reload }
            &&& tab == id
            &&& Some(conn) == w.conn
            &&& Some(target) == t.edit_target
            &&& edits == t.pending
            &&& reload == t.last_sql
            &&& read_batch(sql) == Some(
                t.pending.map_values(|e: RowEditView| as_read(target, e)),
            )
        }),
{
    let t = w.tab(id)->0;
    let target = t.edit_target->0;
    law_first_fault(target, t.pending);
    law_batch_reads_back(target, t.pending);
    lemma_tab_id(w, id);
    lemma_tab_kept(w, id, TabView { pending: Seq::empty(), ..t });
    let v = w.apply_pending(id);
    assert(v.outbox.drop_last() =~= w.outbox);
}

/// The SQL that is shown for review is what applying the edits of the active tab sends.
pub proof fn law_what_is_reviewed_is_applied(w: WorkspaceView)
    requires
        w.active_tab() is Some,
        w.tab(w.active_tab()->0.id) == w.active_tab(),
        w.active_tab()->0.edit_target is Some,
        w.active_tab()->0.pending.len() > 0,
        w.conn is Some,
    ensures
        (match w.review() {
            ReviewView::Pending { sql: shown, apply, .. } => ({
                let v = w.perform(apply);
                &&& v.outbox.len() == w.outbox.len() + 1
                &&& v.outbox.last() matches EffectView::Apply { sql, edits, .. }
                &&& sql == shown
                &&& edits == w.active_tab()->0.pending
            }),
            ReviewView::Messages { .. } => false,
        }),
{
    reveal(WorkspaceView::perform_on_tab);
}

/// Edits that were applied are done: they are not staged again. Edits that could not be applied
/// are.
pub proof fn law_edits_are_applied_once(
    w: WorkspaceView,
    id: u64,
    edits: Seq<RowEditView>,
    sql: Seq<char>,
    error: crate::error::DbErrorView,
)
    requires
        w.tab(id) is Some,
    ensures
        ({
            let v = w.apply_finished(id, edits, sql, None, None);
            &&& v.tab(id) is Some
            &&& v.tab(id)->0.pending == w.tab(id)->0.pending
            &&& v.tab(id)->0.edited_cells == Set::<(usize, usize)>::empty()
            &&& v.outbox == w.outbox
        }),
        ({
            let v = w.apply_finished(id, edits, sql, None, Some(error));
            &&& v.tab(id) is Some
            &&& v.tab(id)->0.pending == edits
            &&& v.tab(id)->0.edited_cells == w.tab(id)->0.edited_cells
            &&& v.outbox == w.outbox
        }),
{
    let t = w.tab(id)->0;
    lemma_tab_id(w, id);
    lemma_tab_kept(w, id, TabView { pending: edits, ..t });
    let noted = w.with_log(sql, true);
    assert(noted.tab(id) == w.tab(id));
    lemma_tab_kept(noted, id, TabView { edited_cells: Set::empty(), ..t });
}

} // verus!
