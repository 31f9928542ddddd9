//! Edits of one tab: the key of a row, the edits that are staged on it, and what an edit of
//! a cell does.

use vstd::prelude::*;
use crate::describe::addressable;
use crate::dup::Duplicate;
use crate::edit::{EditTarget, EditTargetView, PairView, RowEdit, RowEditView};
use crate::export::Cell;
use crate::types::CellValue;
use crate::workspace::tab::{Tab, TabView};

verus! {

// ---- cells and keys --------------------------------------------------------------------

/// The value of a cell of the grid, where there is one.
pub open spec fn grid_cell(rows: Seq<Seq<Cell>>, row: usize, col: usize) -> Option<Cell> {
    if row < rows.len() && col < rows[row as int].len() {
        Some(rows[row as int][col as int])
    } else {
        None
    }
}

/// The rows with another value in a cell; unchanged where there is no such cell.
pub open spec fn with_cell(
    rows: Seq<Seq<Cell>>,
    row: usize,
    col: usize,
    value: Cell,
) -> Seq<Seq<Cell>> {
    if row < rows.len() && col < rows[row as int].len() {
        rows.update(row as int, rows[row as int].update(col as int, value))
    } else {
        rows
    }
}

/// The first column of the result behind which a column of the table stands.
pub open spec fn column_index(cols: Seq<Option<Seq<char>>>, name: Seq<char>) -> Option<int>
    decreases cols.len(),
{
    if cols.len() == 0 {
        None
    } else {
        match column_index(cols.drop_last(), name) {
            Some(k) => Some(k),
            None => if cols.last() == Some(name) {
                Some(cols.len() - 1)
            } else {
                None
            },
        }
    }
}

/// The key of a row: each key column with the value that the row has for it. There is none
/// where a key column is not in the result.
pub open spec fn key_of(
    cols: Seq<Option<Seq<char>>>,
    row: Seq<Cell>,
    names: Seq<Seq<char>>,
) -> Option<Seq<PairView>>
    decreases names.len(),
{
    if names.len() == 0 {
        Some(Seq::empty())
    } else {
        match (key_of(cols, row, names.drop_last()), column_index(cols, names.last())) {
            (Some(front), Some(k)) => Some(
                front.push(
                    (
                        names.last(),
                        if k < row.len() {
                            row[k]
                        } else {
                            None
                        },
                    ),
                ),
            ),
            _ => None,
        }
    }
}

impl TabView {
    /// A row as it is on the server: as it was loaded, whatever was edited since. A row that
    /// was not loaded is taken as it is shown.
    pub open spec fn known_row(self, row: usize) -> Seq<Cell> {
        if row < self.orig_rows.len() {
            self.orig_rows[row as int]
        } else {
            self.rows[row as int]
        }
    }

    /// The key of a row of the result, by which the server finds it.
    pub open spec fn row_key(self, row: usize, target: EditTargetView) -> Option<Seq<PairView>> {
        if row < self.rows.len() {
            key_of(self.edit_cols, self.known_row(row), target.pk_columns)
        } else {
            None
        }
    }

    /// The table column behind a column of the result, where it can be edited.
    pub open spec fn real_column(self, col: usize) -> Option<Seq<char>> {
        if col < self.edit_cols.len() {
            self.edit_cols[col as int]
        } else {
            None
        }
    }
}

proof fn lemma_column_stays(cols: Seq<Option<Seq<char>>>, name: Seq<char>, k: int)
    requires
        0 <= k <= cols.len(),
        column_index(cols.take(k), name) is Some,
    ensures
        column_index(cols, name) == column_index(cols.take(k), name),
    decreases cols.len() - k,
{
    if k == cols.len() {
        assert(cols.take(k) =~= cols);
    } else {
        assert(cols.take(k + 1).drop_last() =~= cols.take(k));
        lemma_column_stays(cols, name, k + 1);
    }
}

proof fn lemma_column_index(cols: Seq<Option<Seq<char>>>, name: Seq<char>)
    ensures
        column_index(cols, name) matches Some(k) ==> 0 <= k < cols.len() && cols[k] == Some(name),
    decreases cols.len(),
{
    if cols.len() > 0 {
        lemma_column_index(cols.drop_last(), name);
    }
}

fn find_column(cols: &Vec<Option<String>>, name: &String) -> (r: Option<usize>)
    ensures
        (match r {
            Some(k) => column_index(cols.deep_view(), name@) == Some(k as int),
            None => column_index(cols.deep_view(), name@) is None,
        }),
{
    let ghost cv = cols.deep_view();
    let mut i: usize = 0;
    while i < cols.len()
        invariant
            i <= cols@.len(),
            cv == cols.deep_view(),
            column_index(cv.take(i as int), name@) is None,
        decreases cols@.len() - i,
    {
        proof {
            assert(cv.take(i + 1).drop_last() =~= cv.take(i as int));
            assert(cv.take(i + 1).last() == cols@[i as int].deep_view());
        }
        if let Some(c) = &cols[i] {
            if *c == *name {
                proof {
                    lemma_column_stays(cv, name@, i + 1);
                }
                return Some(i);
            }
        }
        i += 1;
    }
    proof {
        assert(cv.take(i as int) =~= cv);
    }
    None
}

proof fn lemma_key_missing(
    cols: Seq<Option<Seq<char>>>,
    row: Seq<Cell>,
    names: Seq<Seq<char>>,
    k: int,
)
    requires
        0 <= k <= names.len(),
        key_of(cols, row, names.take(k)) is None,
    ensures
        key_of(cols, row, names) is None,
    decreases names.len() - k,
{
    if k == names.len() {
        assert(names.take(k) =~= names);
    } else {
        assert(names.take(k + 1).drop_last() =~= names.take(k));
        lemma_key_missing(cols, row, names, k + 1);
    }
}

impl Tab {
    /// The key of a row: the primary-key columns with the values that the row was loaded
    /// with, since the server does not know of staged edits.
    pub fn row_key(&self, row: usize, target: &EditTarget) -> (r: Option<
        Vec<(String, CellValue)>,
    >)
        ensures
            r.deep_view() == self.deep_view().row_key(row, target.deep_view()),
    {
        if row >= self.rows.len() {
            return None;
        }
        let ghost cv = self.edit_cols.deep_view();
        let known = if row < self.orig_rows.len() {
            &self.orig_rows[row]
        } else {
            &self.rows[row]
        };
        let ghost rv = self.deep_view().known_row(row);
        let ghost nv = target.pk_columns.deep_view();
        let mut key: Vec<(String, CellValue)> = Vec::new();
        proof {
            assert(key.deep_view() =~= Seq::<PairView>::empty());
        }
        let mut i: usize = 0;
        while i < target.pk_columns.len()
            invariant
                i <= target.pk_columns@.len(),
                row < self.rows@.len(),
                cv == self.edit_cols.deep_view(),
                rv == known.deep_view(),
                rv == self.deep_view().known_row(row),
                nv == target.pk_columns.deep_view(),
                key_of(cv, rv, nv.take(i as int)) == Some(key.deep_view()),
            decreases target.pk_columns@.len() - i,
        {
            let name = &target.pk_columns[i];
            proof {
                assert(nv.take(i + 1).drop_last() =~= nv.take(i as int));
                assert(nv.take(i + 1).last() == name@);
            }
            let ghost before = key.deep_view();
            match find_column(&self.edit_cols, name) {
                Some(k) => {
                    let value = if k < known.len() {
                        known[k].dup()
                    } else {
                        CellValue::Null
                    };
                    key.push((name.clone(), value));
                    proof {
                        assert(key.deep_view() =~= before.push((name@, value.deep_view())));
                    }
                },
                None => {
                    proof {
                        lemma_key_missing(cv, rv, nv, i + 1);
                    }
                    return None;
                },
            }
            i += 1;
        }
        proof {
            assert(nv.take(i as int) =~= nv);
        }
        Some(key)
    }
}

/// Whether two cells hold the same.
pub fn same_cell(a: &CellValue, b: &CellValue) -> (r: bool)
    ensures
        r == (a.deep_view() == b.deep_view()),
{
    match (a, b) {
        (CellValue::Null, CellValue::Null) => true,
        (CellValue::Text(x), CellValue::Text(y)) => *x == *y,
        _ => false,
    }
}

/// Whether two keys are the same.
pub fn same_key(a: &Vec<(String, CellValue)>, b: &Vec<(String, CellValue)>) -> (r: bool)
    ensures
        r == (a.deep_view() == b.deep_view()),
{
    if a.len() != b.len() {
        proof {
            assert(a.deep_view().len() != b.deep_view().len());
        }
        return false;
    }
    let mut i: usize = 0;
    while i < a.len()
        invariant
            i <= a@.len() == b@.len(),
            forall|j: int| 0 <= j < i ==> a@[j].deep_view() == b@[j].deep_view(),
        decreases a@.len() - i,
    {
        if !(a[i].0 == b[i].0) || !same_cell(&a[i].1, &b[i].1) {
            proof {
                assert(a.deep_view()[i as int] == a@[i as int].deep_view());
                assert(b.deep_view()[i as int] == b@[i as int].deep_view());
            }
            return false;
        }
        i += 1;
    }
    proof {
        assert(a.deep_view() =~= b.deep_view());
    }
    true
}

// ---- staged edits ----------------------------------------------------------------------

/// The columns that are set, without one of them.
pub open spec fn unset(set: Seq<PairView>, col: Seq<char>) -> Seq<PairView>
    decreases set.len(),
{
    if set.len() == 0 {
        Seq::empty()
    } else if set.last().0 == col {
        unset(set.drop_last(), col)
    } else {
        unset(set.drop_last(), col).push(set.last())
    }
}

/// The staged edits without what updates a column of the row with a key; an update that
/// sets nothing any more is gone.
pub open spec fn without_update(
    pending: Seq<RowEditView>,
    pk: Seq<PairView>,
    col: Seq<char>,
) -> Seq<RowEditView>
    decreases pending.len(),
{
    if pending.len() == 0 {
        Seq::empty()
    } else {
        let front = without_update(pending.drop_last(), pk, col);
        match pending.last() {
            RowEditView::Update { pk: p, set } => if p == pk {
                if unset(set, col).len() == 0 {
                    front
                } else {
                    front.push(RowEditView::Update { pk: p, set: unset(set, col) })
                }
            } else {
                front.push(pending.last())
            },
            _ => front.push(pending.last()),
        }
    }
}

fn unset_column(set: Vec<(String, CellValue)>, col: &String) -> (r: Vec<(String, CellValue)>)
    ensures
        r.deep_view() == unset(set.deep_view(), col@),
{
    let ghost sv = set.deep_view();
    let mut r: Vec<(String, CellValue)> = Vec::new();
    proof {
        assert(r.deep_view() =~= unset(sv.take(0), col@));
    }
    for p in it: set
        invariant
            it.seq() == set@,
            sv == set.deep_view(),
            r.deep_view() == unset(sv.take(it.index() as int), col@),
    {
        let ghost k = it.index() as int;
        let ghost before = r.deep_view();
        proof {
            assert(sv.take(k + 1).drop_last() =~= sv.take(k));
            assert(sv.take(k + 1).last() == p.deep_view());
        }
        if !(p.0 == *col) {
            r.push(p);
            proof {
                assert(r.deep_view() =~= before.push(p.deep_view()));
            }
        }
    }
    proof {
        assert(sv.take(sv.len() as int) =~= sv);
    }
    r
}

/// Takes what updates a column of the row with a key out of staged edits.
pub fn drop_update(
    pending: Vec<RowEdit>,
    pk: &Vec<(String, CellValue)>,
    col: &String,
) -> (r: Vec<RowEdit>)
    ensures
        r.deep_view() == without_update(pending.deep_view(), pk.deep_view(), col@),
{
    let ghost pv = pending.deep_view();
    let mut r: Vec<RowEdit> = Vec::new();
    proof {
        assert(r.deep_view() =~= without_update(pv.take(0), pk.deep_view(), col@));
    }
    for e in it: pending
        invariant
            it.seq() == pending@,
            pv == pending.deep_view(),
            r.deep_view() == without_update(pv.take(it.index() as int), pk.deep_view(), col@),
    {
        let ghost k = it.index() as int;
        let ghost before = r.deep_view();
        proof {
            assert(pv.take(k + 1).drop_last() =~= pv.take(k));
            assert(pv.take(k + 1).last() == e.deep_view());
        }
        match e {
            RowEdit::Update { pk: p, set } => {
                if same_key(&p, pk) {
                    let rest = unset_column(set, col);
                    if rest.len() > 0 {
                        let e2 = RowEdit::Update { pk: p, set: rest };
                        r.push(e2);
                        proof {
                            assert(r.deep_view() =~= before.push(e2.deep_view()));
                        }
                    }
                } else {
                    let e2 = RowEdit::Update { pk: p, set };
                    r.push(e2);
                    proof {
                        assert(r.deep_view() =~= before.push(e2.deep_view()));
                    }
                }
            },
            other => {
                r.push(other);
                proof {
                    assert(r.deep_view() =~= before.push(other.deep_view()));
                }
            },
        }
    }
    proof {
        assert(pv.take(pv.len() as int) =~= pv);
    }
    r
}

/// Whether one of the columns that are set is a key column.
pub open spec fn sets_key(set: Seq<PairView>, keys: Seq<Seq<char>>) -> bool {
    exists|k: int| 0 <= k < set.len() && keys.contains((#[trigger] set[k]).0)
}

/// Whether an edit gives the row with a key another key. The row is not found under the
/// first one after it.
pub open spec fn moves(e: RowEditView, pk: Seq<PairView>, keys: Seq<Seq<char>>) -> bool {
    match e {
        RowEditView::Update { pk: p, set } => p == pk && sets_key(set, keys),
        _ => false,
    }
}

/// Where the first edit stands that gives the row with a key another key.
pub open spec fn mover(
    pending: Seq<RowEditView>,
    pk: Seq<PairView>,
    keys: Seq<Seq<char>>,
) -> Option<int>
    decreases pending.len(),
{
    if pending.len() == 0 {
        None
    } else {
        match mover(pending.drop_last(), pk, keys) {
            Some(k) => Some(k),
            None => if moves(pending.last(), pk, keys) {
                Some(pending.len() - 1)
            } else {
                None
            },
        }
    }
}

/// The staged edits with one more, after the others. Where the row was given another key by
/// one of them, the two are one edit: columns are set together with the key, and a delete
/// stands in the place of the update.
pub open spec fn placed(
    pending: Seq<RowEditView>,
    edit: RowEditView,
    keys: Seq<Seq<char>>,
) -> Seq<RowEditView> {
    match edit {
        RowEditView::Insert { .. } => pending.push(edit),
        RowEditView::Update { pk, set } => match mover(pending, pk, keys) {
            Some(k) => pending.update(
                k,
                RowEditView::Update { pk, set: pending[k]->Update_set + set },
            ),
            None => pending.push(edit),
        },
        RowEditView::Delete { pk } => match mover(pending, pk, keys) {
            Some(k) => pending.update(k, edit),
            None => pending.push(edit),
        },
    }
}

proof fn lemma_mover(pending: Seq<RowEditView>, pk: Seq<PairView>, keys: Seq<Seq<char>>)
    ensures
        (match mover(pending, pk, keys) {
            Some(k) => 0 <= k < pending.len() && moves(pending[k], pk, keys),
            None => forall|i: int|
                0 <= i < pending.len() ==> !moves(#[trigger] pending[i], pk, keys),
        }),
    decreases pending.len(),
{
    if pending.len() > 0 {
        let front = pending.drop_last();
        lemma_mover(front, pk, keys);
        if mover(pending, pk, keys) is None {
            assert forall|i: int| 0 <= i < pending.len() implies !moves(
                #[trigger] pending[i],
                pk,
                keys,
            ) by {
                if i < front.len() {
                    assert(front[i] == pending[i]);
                }
            }
        }
    }
}

proof fn lemma_mover_stays(
    pending: Seq<RowEditView>,
    pk: Seq<PairView>,
    keys: Seq<Seq<char>>,
    k: int,
)
    requires
        0 <= k <= pending.len(),
        mover(pending.take(k), pk, keys) is Some,
    ensures
        mover(pending, pk, keys) == mover(pending.take(k), pk, keys),
    decreases pending.len() - k,
{
    if k == pending.len() {
        assert(pending.take(k) =~= pending);
    } else {
        assert(pending.take(k + 1).drop_last() =~= pending.take(k));
        lemma_mover_stays(pending, pk, keys, k + 1);
    }
}

fn is_key(keys: &Vec<String>, name: &String) -> (r: bool)
    ensures
        r == keys.deep_view().contains(name@),
{
    let mut i: usize = 0;
    while i < keys.len()
        invariant
            i <= keys@.len(),
            forall|j: int| 0 <= j < i ==> (#[trigger] keys.deep_view()[j]) != name@,
        decreases keys@.len() - i,
    {
        proof {
            assert(keys.deep_view()[i as int] == keys@[i as int]@);
        }
        if keys[i] == *name {
            return true;
        }
        i += 1;
    }
    false
}

fn has_key(set: &Vec<(String, CellValue)>, keys: &Vec<String>) -> (r: bool)
    ensures
        r == sets_key(set.deep_view(), keys.deep_view()),
{
    let ghost sv = set.deep_view();
    let mut i: usize = 0;
    while i < set.len()
        invariant
            i <= set@.len(),
            sv == set.deep_view(),
            forall|j: int| 0 <= j < i ==> !keys.deep_view().contains((#[trigger] sv[j]).0),
        decreases set@.len() - i,
    {
        proof {
            assert(sv[i as int] == set@[i as int].deep_view());
        }
        if is_key(keys, &set[i].0) {
            return true;
        }
        i += 1;
    }
    false
}

fn find_mover(
    pending: &Vec<RowEdit>,
    pk: &Vec<(String, CellValue)>,
    keys: &Vec<String>,
) -> (r: Option<usize>)
    ensures
        (match r {
            Some(k) => mover(pending.deep_view(), pk.deep_view(), keys.deep_view()) == Some(
                k as int,
            ),
            None => mover(pending.deep_view(), pk.deep_view(), keys.deep_view()) is None,
        }),
{
    let ghost pv = pending.deep_view();
    let mut i: usize = 0;
    while i < pending.len()
        invariant
            i <= pending@.len(),
            pv == pending.deep_view(),
            mover(pv.take(i as int), pk.deep_view(), keys.deep_view()) is None,
        decreases pending@.len() - i,
    {
        proof {
            assert(pv.take(i + 1).drop_last() =~= pv.take(i as int));
            assert(pv.take(i + 1).last() == pending@[i as int].deep_view());
        }
        let moved = match &pending[i] {
            RowEdit::Update { pk: p, set } => same_key(p, pk) && has_key(set, keys),
            _ => false,
        };
        if moved {
            proof {
                lemma_mover_stays(pv, pk.deep_view(), keys.deep_view(), i + 1);
            }
            return Some(i);
        }
        i += 1;
    }
    proof {
        assert(pv.take(i as int) =~= pv);
    }
    None
}

fn set_more(edit: &mut RowEdit, more: Vec<(String, CellValue)>)
    ensures
        (match old(edit).deep_view() {
            RowEditView::Update { pk, set } => final(edit).deep_view() == (RowEditView::Update {
                pk,
                set: set + more.deep_view(),
            }),
            _ => final(edit).deep_view() == old(edit).deep_view(),
        }),
{
    if let RowEdit::Update { set, .. } = edit {
        let ghost before = set.deep_view();
        let ghost mv = more.deep_view();
        let mut more = more;
        set.append(&mut more);
        proof {
            assert(set.deep_view() =~= before + mv);
        }
    }
}

/// Adds an edit to staged edits.
pub fn place(pending: &mut Vec<RowEdit>, edit: RowEdit, keys: &Vec<String>)
    ensures
        final(pending).deep_view() == placed(
            old(pending).deep_view(),
            edit.deep_view(),
            keys.deep_view(),
        ),
{
    let ghost before = pending.deep_view();
    let ghost ev = edit.deep_view();
    let at = match &edit {
        RowEdit::Insert { .. } => None,
        RowEdit::Update { pk, .. } => find_mover(pending, pk, keys),
        RowEdit::Delete { pk } => find_mover(pending, pk, keys),
    };
    proof {
        match ev {
            RowEditView::Insert { .. } => {},
            RowEditView::Update { pk, .. } => {
                lemma_mover(before, pk, keys.deep_view());
            },
            RowEditView::Delete { pk } => {
                lemma_mover(before, pk, keys.deep_view());
            },
        }
    }
    match at {
        None => {
            pending.push(edit);
            proof {
                assert(pending.deep_view() =~= before.push(ev));
            }
        },
        Some(k) => {
            proof {
                assert(before[k as int] == pending@[k as int].deep_view());
            }
            match edit {
                RowEdit::Update { set, .. } => {
                    set_more(&mut pending[k], set);
                },
                other => {
                    pending[k] = other;
                },
            }
            proof {
                assert(pending.deep_view() =~= placed(before, ev, keys.deep_view()));
            }
        },
    }
}

// ---- an edit of a cell -----------------------------------------------------------------

/// The staged edits with one more, where there is a statement for it.
pub open spec fn staged(
    pending: Seq<RowEditView>,
    edit: RowEditView,
    target: EditTargetView,
) -> Seq<RowEditView> {
    if edit.sql(target) is Ok {
        placed(pending, edit, target.pk_columns)
    } else {
        pending
    }
}

/// The edit that sets a column of the row with a key.
pub open spec fn cell_update(pk: Seq<PairView>, col: Seq<char>, value: Cell) -> RowEditView {
    RowEditView::Update { pk, set: seq![(col, value)] }
}

/// A tab in which the editor of a cell was left with a value. In the row that is not saved
/// the value is only kept. Elsewhere an update is staged in place of an earlier one for the
/// same cell and the cell is marked; with its original value neither an update nor a mark
/// is left of it.
pub open spec fn committed(t: TabView, row: usize, col: usize, value: Cell) -> TabView {
    let shown = with_cell(t.rows, row, col, value);
    if t.new_row_idx == Some(row) {
        TabView { editing: None, rows: shown, ..t }
    } else {
        match (t.edit_target, t.real_column(col)) {
            (Some(target), Some(source)) => match t.row_key(row, target) {
                Some(pk) => {
                    let rest = without_update(t.pending, pk, source);
                    if grid_cell(t.orig_rows, row, col) == Some(value) {
                        TabView {
                            editing: None,
                            rows: shown,
                            pending: rest,
                            edited_cells: t.edited_cells.remove((row, col)),
                            ..t
                        }
                    } else {
                        TabView {
                            editing: None,
                            rows: shown,
                            pending: staged(rest, cell_update(pk, source, value), target),
                            edited_cells: t.edited_cells.insert((row, col)),
                            ..t
                        }
                    }
                },
                None => TabView { editing: None, ..t },
            },
            _ => TabView { editing: None, ..t },
        }
    }
}

// ---- laws ------------------------------------------------------------------------------

/// Whether an edit sets a column of the row with a key.
pub open spec fn updates(e: RowEditView, pk: Seq<PairView>, col: Seq<char>) -> bool {
    match e {
        RowEditView::Update { pk: p, set } => p == pk && exists|k: int|
            0 <= k < set.len() && (#[trigger] set[k]).0 == col,
        _ => false,
    }
}

/// Whether one of the staged edits sets a column of the row with a key.
pub open spec fn any_updates(
    pending: Seq<RowEditView>,
    pk: Seq<PairView>,
    col: Seq<char>,
) -> bool {
    exists|i: int| 0 <= i < pending.len() && updates(#[trigger] pending[i], pk, col)
}

proof fn lemma_unset(set: Seq<PairView>, col: Seq<char>)
    ensures
        forall|k: int| 0 <= k < unset(set, col).len() ==> (#[trigger] unset(set, col)[k]).0 != col,
        (forall|k: int| 0 <= k < set.len() ==> (#[trigger] set[k]).0 != col) ==> unset(set, col)
            == set,
    decreases set.len(),
{
    if set.len() > 0 {
        let front = set.drop_last();
        lemma_unset(front, col);
        assert forall|k: int| 0 <= k < unset(set, col).len() implies (#[trigger] unset(
            set,
            col,
        )[k]).0 != col by {
            if k < unset(front, col).len() {
                assert(unset(set, col)[k] == unset(front, col)[k]);
            }
        }
        if forall|k: int| 0 <= k < set.len() ==> (#[trigger] set[k]).0 != col {
            assert forall|k: int| 0 <= k < front.len() implies (#[trigger] front[k]).0 != col by {
                assert(set[k].0 != col);
            }
            assert(set.last() == set[set.len() - 1]);
            assert(unset(set, col) =~= set);
        }
    } else {
        assert(unset(set, col) =~= set);
    }
}

/// After the updates of a cell are taken out, none of the staged edits sets it.
pub proof fn law_no_update_is_left(pending: Seq<RowEditView>, pk: Seq<PairView>, col: Seq<char>)
    ensures
        !any_updates(without_update(pending, pk, col), pk, col),
    decreases pending.len(),
{
    let rest = without_update(pending, pk, col);
    if pending.len() > 0 {
        let front = without_update(pending.drop_last(), pk, col);
        law_no_update_is_left(pending.drop_last(), pk, col);
        if let RowEditView::Update { pk: p, set } = pending.last() {
            lemma_unset(set, col);
        }
        assert forall|i: int| 0 <= i < rest.len() implies !updates(#[trigger] rest[i], pk, col) by {
            if i < front.len() {
                assert(rest[i] == front[i]);
            }
        }
    }
}

/// Whether every update sets something. Only such edits are ever staged.
pub open spec fn all_set(pending: Seq<RowEditView>) -> bool {
    forall|i: int|
        0 <= i < pending.len() ==> ((#[trigger] pending[i]) matches RowEditView::Update {
            set,
            ..
        } ==> set.len() > 0)
}

/// Edits of other cells stay as they are, in their order.
pub proof fn law_other_edits_stay(pending: Seq<RowEditView>, pk: Seq<PairView>, col: Seq<char>)
    requires
        !any_updates(pending, pk, col),
        all_set(pending),
    ensures
        without_update(pending, pk, col) == pending,
    decreases pending.len(),
{
    if pending.len() > 0 {
        let front = pending.drop_last();
        assert forall|i: int| 0 <= i < front.len() implies !updates(#[trigger] front[i], pk, col) by {
            assert(front[i] == pending[i]);
        }
        assert forall|i: int|
            0 <= i < front.len() implies ((#[trigger] front[i]) matches RowEditView::Update {
            set,
            ..
        } ==> set.len() > 0) by {
            assert(front[i] == pending[i]);
        }
        law_other_edits_stay(front, pk, col);
        let last = pending[pending.len() - 1];
        assert(!updates(last, pk, col));
        if let RowEditView::Update { pk: p, set } = last {
            if p == pk {
                lemma_unset(set, col);
            }
        }
        assert(without_update(pending, pk, col) =~= pending);
    } else {
        assert(without_update(pending, pk, col) =~= pending);
    }
}

proof fn lemma_rest_is_set(pending: Seq<RowEditView>, pk: Seq<PairView>, col: Seq<char>)
    requires
        all_set(pending),
    ensures
        all_set(without_update(pending, pk, col)),
    decreases pending.len(),
{
    if pending.len() > 0 {
        let front = pending.drop_last();
        assert forall|i: int|
            0 <= i < front.len() implies ((#[trigger] front[i]) matches RowEditView::Update {
            set,
            ..
        } ==> set.len() > 0) by {
            assert(front[i] == pending[i]);
        }
        lemma_rest_is_set(front, pk, col);
        let kept = without_update(front, pk, col);
        let rest = without_update(pending, pk, col);
        assert(pending.last() == pending[pending.len() - 1]);
        assert forall|i: int|
            0 <= i < rest.len() implies ((#[trigger] rest[i]) matches RowEditView::Update {
            set,
            ..
        } ==> set.len() > 0) by {
            if i < kept.len() {
                assert(rest[i] == kept[i]);
            }
        }
    }
}

proof fn lemma_placed_is_set(pending: Seq<RowEditView>, edit: RowEditView, keys: Seq<Seq<char>>)
    requires
        all_set(pending),
        all_set(seq![edit]),
    ensures
        all_set(placed(pending, edit, keys)),
{
    let all = placed(pending, edit, keys);
    assert(seq![edit][0] == edit);
    match edit {
        RowEditView::Insert { .. } => {},
        RowEditView::Update { pk, .. } => {
            lemma_mover(pending, pk, keys);
        },
        RowEditView::Delete { pk } => {
            lemma_mover(pending, pk, keys);
        },
    }
    assert forall|i: int|
        0 <= i < all.len() implies ((#[trigger] all[i]) matches RowEditView::Update {
        set,
        ..
    } ==> set.len() > 0) by {
        if i < pending.len() {
            assert(pending[i] matches RowEditView::Update { set, .. } ==> set.len() > 0);
        }
    }
}

/// Whether there is a statement for each of the staged edits.
pub open spec fn all_stated(pending: Seq<RowEditView>, target: EditTargetView) -> bool {
    forall|i: int| 0 <= i < pending.len() ==> (#[trigger] pending[i]).sql(target) is Ok
}

proof fn lemma_rest_is_stated(
    pending: Seq<RowEditView>,
    pk: Seq<PairView>,
    col: Seq<char>,
    target: EditTargetView,
)
    requires
        all_stated(pending, target),
    ensures
        all_stated(without_update(pending, pk, col), target),
    decreases pending.len(),
{
    if pending.len() > 0 {
        let front = pending.drop_last();
        assert forall|i: int| 0 <= i < front.len() implies (#[trigger] front[i]).sql(
            target,
        ) is Ok by {
            assert(front[i] == pending[i]);
        }
        lemma_rest_is_stated(front, pk, col, target);
        let kept = without_update(front, pk, col);
        let rest = without_update(pending, pk, col);
        assert(pending[pending.len() - 1].sql(target) is Ok);
        assert forall|i: int| 0 <= i < rest.len() implies (#[trigger] rest[i]).sql(target) is Ok by {
            if i < kept.len() {
                assert(rest[i] == kept[i]);
            }
        }
    }
}

/// An edit that cannot be made into a statement is never staged, so that there is a
/// statement for each of the staged edits.
pub proof fn law_only_statements_are_staged(
    pending: Seq<RowEditView>,
    edit: RowEditView,
    target: EditTargetView,
)
    requires
        all_stated(pending, target),
    ensures
        all_stated(staged(pending, edit, target), target),
        edit.sql(target) is Err ==> staged(pending, edit, target) == pending,
{
    let keys = target.pk_columns;
    let all = staged(pending, edit, target);
    match edit {
        RowEditView::Insert { .. } => {},
        RowEditView::Update { pk, .. } => {
            lemma_mover(pending, pk, keys);
        },
        RowEditView::Delete { pk } => {
            lemma_mover(pending, pk, keys);
        },
    }
    assert forall|i: int| 0 <= i < all.len() implies (#[trigger] all[i]).sql(target) is Ok by {
        if i < pending.len() {
            assert(pending[i].sql(target) is Ok);
        }
    }
}

/// Whatever is entered into a cell, there is a statement for each of the staged edits; no
/// update is left behind that sets nothing.
pub proof fn law_staged_edits_have_statements(t: TabView, row: usize, col: usize, value: Cell)
    ensures
        all_set(t.pending) ==> all_set(committed(t, row, col, value).pending),
        t.edit_target matches Some(target) ==> all_stated(t.pending, target) ==> all_stated(
            committed(t, row, col, value).pending,
            target,
        ),
{
    if let (Some(target), Some(source)) = (t.edit_target, t.real_column(col)) {
        if let Some(pk) = t.row_key(row, target) {
            let rest = without_update(t.pending, pk, source);
            let edit = cell_update(pk, source, value);
            if all_set(t.pending) {
                lemma_rest_is_set(t.pending, pk, source);
                lemma_placed_is_set(rest, edit, target.pk_columns);
            }
            if all_stated(t.pending, target) {
                lemma_rest_is_stated(t.pending, pk, source, target);
                law_only_statements_are_staged(rest, edit, target);
            }
        }
    }
}

/// Whether an edit is one of the row with a key.
pub open spec fn about(e: RowEditView, pk: Seq<PairView>) -> bool {
    match e {
        RowEditView::Insert { .. } => false,
        RowEditView::Update { pk: p, .. } => p == pk,
        RowEditView::Delete { pk: p } => p == pk,
    }
}

/// Whether each of the staged edits still finds its row when those before it were applied:
/// none comes after the one that gives its row another key.
pub open spec fn in_reach(pending: Seq<RowEditView>, keys: Seq<Seq<char>>) -> bool {
    forall|i: int, j: int, pk: Seq<PairView>|
        0 <= i < j < pending.len() && #[trigger] moves(pending[i], pk, keys) ==> !(
        #[trigger] about(pending[j], pk))
}

/// An edit that is added to staged edits finds its row as they do.
pub proof fn law_no_edit_follows_a_new_key(
    pending: Seq<RowEditView>,
    edit: RowEditView,
    target: EditTargetView,
)
    requires
        in_reach(pending, target.pk_columns),
    ensures
        in_reach(staged(pending, edit, target), target.pk_columns),
{
    let keys = target.pk_columns;
    let all = placed(pending, edit, keys);
    let named = match edit {
        RowEditView::Insert { .. } => None,
        RowEditView::Update { pk, .. } => Some(pk),
        RowEditView::Delete { pk } => Some(pk),
    };
    let at = match named {
        Some(pk) => mover(pending, pk, keys),
        None => None,
    };
    if let Some(pk) = named {
        lemma_mover(pending, pk, keys);
    }
    assert forall|i: int, j: int, pk: Seq<PairView>|
        0 <= i < j < all.len() && #[trigger] moves(all[i], pk, keys) implies !(#[trigger] about(
        all[j],
        pk,
    )) by {
        if at is None {
            assert(all[i] == pending[i]);
            if j < pending.len() {
                assert(all[j] == pending[j]);
            }
        } else {
            assert(moves(pending[i], pk, keys));
            assert(about(all[j], pk) == about(pending[j], pk));
        }
    }
}

proof fn lemma_unset_sets_less(set: Seq<PairView>, col: Seq<char>, keys: Seq<Seq<char>>)
    ensures
        sets_key(unset(set, col), keys) ==> sets_key(set, keys),
    decreases set.len(),
{
    if set.len() > 0 && sets_key(unset(set, col), keys) {
        let front = set.drop_last();
        let kept = unset(front, col);
        let rest = unset(set, col);
        lemma_unset_sets_less(front, col, keys);
        let k = choose|k: int| 0 <= k < rest.len() && keys.contains((#[trigger] rest[k]).0);
        if k < kept.len() {
            assert(kept[k] == rest[k]);
            let m = choose|m: int| 0 <= m < front.len() && keys.contains((#[trigger] front[m]).0);
            assert(set[m] == front[m]);
        } else {
            assert(rest[k] == set[set.len() - 1]);
        }
    }
}

/// Whether an edit is what is left of one of the staged edits.
spec fn left_of(e: RowEditView, pending: Seq<RowEditView>, keys: Seq<Seq<char>>) -> bool {
    exists|j: int|
        0 <= j < pending.len() && same_row(#[trigger] pending[j], e, keys)
}

/// Whether an edit is about the row of another one, and gives it another key only if that
/// one does.
spec fn same_row(from: RowEditView, e: RowEditView, keys: Seq<Seq<char>>) -> bool {
    forall|pk: Seq<PairView>|
        #![trigger about(e, pk)]
        #![trigger moves(e, pk, keys)]
        about(e, pk) == about(from, pk) && (moves(e, pk, keys) ==> moves(from, pk, keys))
}

proof fn lemma_rest_is_left(
    pending: Seq<RowEditView>,
    pk: Seq<PairView>,
    col: Seq<char>,
    keys: Seq<Seq<char>>,
)
    requires
        in_reach(pending, keys),
    ensures
        in_reach(without_update(pending, pk, col), keys),
        forall|i: int|
            0 <= i < without_update(pending, pk, col).len() ==> left_of(
                #[trigger] without_update(pending, pk, col)[i],
                pending,
                keys,
            ),
    decreases pending.len(),
{
    if pending.len() > 0 {
        let front = pending.drop_last();
        let last = pending[pending.len() - 1];
        let kept = without_update(front, pk, col);
        let rest = without_update(pending, pk, col);
        assert forall|i: int, j: int, p: Seq<PairView>|
            0 <= i < j < front.len() && #[trigger] moves(front[i], p, keys) implies !(
        #[trigger] about(front[j], p)) by {
            assert(front[i] == pending[i] && front[j] == pending[j]);
        }
        lemma_rest_is_left(front, pk, col, keys);
        if let RowEditView::Update { set, .. } = last {
            lemma_unset_sets_less(set, col, keys);
        }
        assert forall|i: int| 0 <= i < rest.len() implies left_of(
            #[trigger] rest[i],
            pending,
            keys,
        ) by {
            if i < kept.len() {
                assert(rest[i] == kept[i]);
                let j = choose|j: int|
                    0 <= j < front.len() && same_row(#[trigger] front[j], kept[i], keys);
                assert(pending[j] == front[j]);
                assert(same_row(pending[j], rest[i], keys));
            } else {
                assert(same_row(last, rest[i], keys));
            }
        }
        assert forall|i: int, j: int, p: Seq<PairView>|
            0 <= i < j < rest.len() && #[trigger] moves(rest[i], p, keys) implies !(
        #[trigger] about(rest[j], p)) by {
            assert(rest[i] == kept[i]);
            if j < kept.len() {
                assert(rest[j] == kept[j]);
            } else {
                let m = choose|m: int|
                    0 <= m < front.len() && same_row(#[trigger] front[m], kept[i], keys);
                assert(moves(front[m], p, keys));
                assert(pending[m] == front[m]);
                assert(same_row(last, rest[j], keys));
                assert(!about(last, p));
            }
        }
    }
}

/// Whatever is entered into the cells of a result, each staged edit finds its row when they
/// are applied in their order.
pub proof fn law_staged_edits_find_their_rows(t: TabView, row: usize, col: usize, value: Cell)
    requires
        t.edit_target matches Some(target) ==> in_reach(t.pending, target.pk_columns),
    ensures
        t.edit_target matches Some(target) ==> in_reach(
            committed(t, row, col, value).pending,
            target.pk_columns,
        ),
{
    if let (Some(target), Some(source)) = (t.edit_target, t.real_column(col)) {
        if let Some(pk) = t.row_key(row, target) {
            lemma_rest_is_left(t.pending, pk, source, target.pk_columns);
            law_no_edit_follows_a_new_key(
                without_update(t.pending, pk, source),
                cell_update(pk, source, value),
                target,
            );
        }
    }
}

proof fn lemma_without_at(
    pending: Seq<RowEditView>,
    k: int,
    more: Seq<PairView>,
    pk: Seq<PairView>,
    col: Seq<char>,
)
    requires
        0 <= k < pending.len(),
        pending[k] matches RowEditView::Update { pk: p, set } && p == pk && unset(set, col)
            == unset(more, col),
    ensures
        without_update(pending.update(k, RowEditView::Update { pk, set: more }), pk, col)
            == without_update(pending, pk, col),
    decreases pending.len(),
{
    let front = pending.drop_last();
    let e = RowEditView::Update { pk, set: more };
    let all = pending.update(k, e);
    if k < front.len() {
        assert(front[k] == pending[k]);
        lemma_without_at(front, k, more, pk, col);
        assert(all.drop_last() =~= front.update(k, e));
        assert(all.last() == pending.last());
    } else {
        assert(all.drop_last() =~= front);
        assert(pending.last() == pending[k]);
    }
}

proof fn lemma_placed_update_goes(
    pending: Seq<RowEditView>,
    pk: Seq<PairView>,
    col: Seq<char>,
    value: Cell,
    keys: Seq<Seq<char>>,
)
    ensures
        without_update(placed(pending, cell_update(pk, col, value), keys), pk, col)
            == without_update(pending, pk, col),
{
    let one: Seq<PairView> = seq![(col, value)];
    lemma_mover(pending, pk, keys);
    match mover(pending, pk, keys) {
        Some(k) => {
            let set = pending[k]->Update_set;
            let more = set + one;
            assert(more.drop_last() =~= set);
            assert(more.last() == (col, value));
            lemma_without_at(pending, k, more, pk, col);
        },
        None => {
            let all = pending.push(cell_update(pk, col, value));
            assert(all.drop_last() =~= pending);
            assert(one.drop_last() =~= Seq::<PairView>::empty());
            assert(one.last() == (col, value));
            assert(unset(one.drop_last(), col).len() == 0);
            assert(unset(one, col).len() == 0);
        },
    }
}

proof fn lemma_key_kept(
    cols: Seq<Option<Seq<char>>>,
    row: Seq<Cell>,
    names: Seq<Seq<char>>,
    col: int,
    value: Cell,
)
    requires
        0 <= col < cols.len(),
        col < row.len(),
        cols[col] matches Some(source) ==> !names.contains(source),
    ensures
        key_of(cols, row.update(col, value), names) == key_of(cols, row, names),
    decreases names.len(),
{
    if names.len() > 0 {
        let front = names.drop_last();
        if let Some(source) = cols[col] {
            assert(!front.contains(source)) by {
                if front.contains(source) {
                    let k = choose|k: int| 0 <= k < front.len() && front[k] == source;
                    assert(names[k] == source);
                }
            }
            assert(names.contains(names[names.len() - 1]));
        }
        lemma_key_kept(cols, row, front, col, value);
        lemma_column_index(cols, names.last());
    }
}

proof fn lemma_row_key_kept(t: TabView, row: usize, col: usize, value: Cell, target: EditTargetView)
    requires
        grid_cell(t.rows, row, col) is Some,
        row < t.orig_rows.len() || (t.real_column(col) matches Some(source)
            && !target.pk_columns.contains(source)),
    ensures
        (TabView { rows: with_cell(t.rows, row, col, value), ..t }).row_key(row, target)
            == t.row_key(row, target),
{
    if row >= t.orig_rows.len() {
        lemma_key_kept(t.edit_cols, t.rows[row as int], target.pk_columns, col as int, value);
    }
}

proof fn lemma_column_found(cols: Seq<Option<Seq<char>>>, name: Seq<char>)
    requires
        cols.contains(Some(name)),
    ensures
        column_index(cols, name) is Some,
    decreases cols.len(),
{
    let k = choose|k: int| 0 <= k < cols.len() && cols[k] == Some(name);
    if k < cols.len() - 1 {
        assert(cols.drop_last()[k] == Some(name));
        lemma_column_found(cols.drop_last(), name);
    }
}

/// Every row of a result that can be edited has a key, with a value for each key column, so
/// that there is a statement for each change of it.
pub proof fn law_editable_rows_have_keys(
    keys: Seq<Seq<char>>,
    cols: Seq<Option<Seq<char>>>,
    row: Seq<Cell>,
    target: EditTargetView,
    col: Seq<char>,
    value: Cell,
)
    requires
        addressable(keys, cols),
    ensures
        key_of(cols, row, keys) matches Some(pk) && pk.len() == keys.len() && cell_update(
            pk,
            col,
            value,
        ).sql(target) is Ok && (RowEditView::Delete { pk }).sql(target) is Ok,
{
    lemma_key_found(keys, cols, row);
}

proof fn lemma_key_found(
    keys: Seq<Seq<char>>,
    cols: Seq<Option<Seq<char>>>,
    row: Seq<Cell>,
)
    requires
        forall|i: int| 0 <= i < keys.len() ==> cols.contains(Some(#[trigger] keys[i])),
    ensures
        key_of(cols, row, keys) matches Some(pk) && pk.len() == keys.len(),
    decreases keys.len(),
{
    if keys.len() > 0 {
        let front = keys.drop_last();
        assert forall|i: int| 0 <= i < front.len() implies cols.contains(
            Some(#[trigger] front[i]),
        ) by {
            assert(front[i] == keys[i]);
        }
        lemma_key_found(front, cols, row);
        assert(cols.contains(Some(keys[keys.len() - 1])));
        lemma_column_found(cols, keys.last());
    }
}

/// Whether a cell is one that can be edited in place.
pub open spec fn editable_cell(t: TabView, row: usize, col: usize) -> bool {
    &&& t.new_row_idx != Some(row)
    &&& grid_cell(t.rows, row, col) is Some
    &&& t.edit_target matches Some(target)
    &&& t.row_key(row, target) is Some
    &&& t.real_column(col) is Some
}

/// Whether the key of a row does not depend on a cell of it: the row was loaded, or the cell
/// is outside the key.
pub open spec fn key_is_fixed(t: TabView, row: usize, col: usize) -> bool {
    row < t.orig_rows.len() || !t.edit_target->0.pk_columns.contains(t.real_column(col)->0)
}

/// Editing a cell again replaces its update: two edits of a cell leave what the second one
/// alone would leave.
pub proof fn law_second_edit_replaces_the_first(
    t: TabView,
    row: usize,
    col: usize,
    first: Cell,
    second: Cell,
)
    requires
        all_set(t.pending),
        editable_cell(t, row, col),
        key_is_fixed(t, row, col),
    ensures
        committed(committed(t, row, col, first), row, col, second) == committed(
            t,
            row,
            col,
            second,
        ),
{
    let target = t.edit_target->0;
    let source = t.real_column(col)->0;
    let pk = t.row_key(row, target)->0;
    let rest = without_update(t.pending, pk, source);
    let once = committed(t, row, col, first);
    lemma_row_key_kept(t, row, col, first, target);
    assert(once.row_key(row, target) == Some(pk));
    law_no_update_is_left(t.pending, pk, source);
    lemma_rest_is_set(t.pending, pk, source);
    law_other_edits_stay(rest, pk, source);
    lemma_placed_update_goes(rest, pk, source, first, target.pk_columns);
    assert(without_update(once.pending, pk, source) == rest);
    let twice = committed(once, row, col, second);
    let direct = committed(t, row, col, second);
    assert(twice.rows =~= direct.rows) by {
        assert(once.rows[row as int].update(col as int, second) =~= t.rows[row as int].update(
            col as int,
            second,
        ));
    }
    assert(twice.edited_cells =~= direct.edited_cells);
    assert(twice =~= direct);
}

/// An edit that is taken back leaves the tab as it was: no staged update, no mark, the
/// original value in the grid.
pub proof fn law_reverted_edit_leaves_nothing(t: TabView, row: usize, col: usize, value: Cell)
    requires
        all_set(t.pending),
        editable_cell(t, row, col),
        t.editing is None,
        !t.edited_cells.contains((row, col)),
        grid_cell(t.rows, row, col) == grid_cell(t.orig_rows, row, col),
        !any_updates(
            t.pending,
            t.row_key(row, t.edit_target->0)->0,
            t.real_column(col)->0,
        ),
    ensures
        committed(
            committed(t, row, col, value),
            row,
            col,
            grid_cell(t.orig_rows, row, col)->0,
        ) == t,
{
    let original = grid_cell(t.orig_rows, row, col)->0;
    law_second_edit_replaces_the_first(t, row, col, value, original);
    let target = t.edit_target->0;
    let source = t.real_column(col)->0;
    let pk = t.row_key(row, target)->0;
    law_other_edits_stay(t.pending, pk, source);
    let back = committed(t, row, col, original);
    assert(back.rows =~= t.rows) by {
        assert(t.rows[row as int].update(col as int, original) =~= t.rows[row as int]);
    }
    assert(back.edited_cells =~= t.edited_cells);
    assert(back =~= t);
}

/// Whatever was entered into a cell before, entering its original value takes it back: the
/// grid shows the original value, the cell has no mark, and nothing that is staged sets it.
pub proof fn law_original_value_takes_an_edit_back(t: TabView, row: usize, col: usize)
    requires
        editable_cell(t, row, col),
        grid_cell(t.orig_rows, row, col) is Some,
    ensures
        ({
            let original = grid_cell(t.orig_rows, row, col)->0;
            let v = committed(t, row, col, original);
            let pk = t.row_key(row, t.edit_target->0)->0;
            &&& grid_cell(v.rows, row, col) == Some(original)
            &&& v.edited_cells == t.edited_cells.remove((row, col))
            &&& v.pending == without_update(t.pending, pk, t.real_column(col)->0)
            &&& !any_updates(v.pending, pk, t.real_column(col)->0)
        }),
{
    law_no_update_is_left(
        t.pending,
        t.row_key(row, t.edit_target->0)->0,
        t.real_column(col)->0,
    );
}

} // verus!
