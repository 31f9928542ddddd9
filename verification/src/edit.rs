//! Inline data editing: `UPDATE`, `INSERT` and `DELETE` statements for staged changes.
//!
//! A result can be edited only where it maps to a single table whose primary key is
//! known ([`EditTarget`]). Values are written as escaped SQL string literals, which
//! the server coerces to the type of each column. Changes are applied in one
//! transaction.

use vstd::prelude::*;
use crate::dup::Duplicate;
use crate::error::DbError;
use crate::statement_laws::{
    as_read, law_batch_reads_back, law_every_key_column_is_matched, law_statement_reads_back,
    read_batch, read_edit, read_key,
};
use crate::text::{concat_all, join, joined, quote, quoted};
use crate::types::CellValue;

verus! {

/// A column with a value for it.
pub type Pair = (String, CellValue);

/// What a [`Pair`] says.
pub type PairView = (Seq<char>, Option<Seq<char>>);

/// A single table with a known primary key, against which rows can be edited.
#[derive(Debug, Clone)]
pub struct EditTarget {
    pub schema: String,
    pub table: String,
    /// Primary-key column names (non-empty for an editable target).
    pub pk_columns: Vec<String>,
}

/// What an [`EditTarget`] says.
pub struct EditTargetView {
    pub schema: Seq<char>,
    pub table: Seq<char>,
    pub pk_columns: Seq<Seq<char>>,
}

impl DeepView for EditTarget {
    type V = EditTargetView;

    open spec fn deep_view(&self) -> EditTargetView {
        EditTargetView {
            schema: self.schema@,
            table: self.table@,
            pk_columns: self.pk_columns.deep_view(),
        }
    }
}

impl Duplicate for EditTarget {
    fn dup(&self) -> (r: Self) {
        EditTarget {
            schema: self.schema.clone(),
            table: self.table.clone(),
            pk_columns: self.pk_columns.dup(),
        }
    }
}

/// Editability of an executed query: the single source table with its key, and the
/// table column behind each result column.
#[derive(Debug, Clone)]
pub struct DescribedResult {
    pub target: EditTarget,
    /// `columns[i]` is the table column behind result column `i`; `None` for a computed
    /// column, which cannot be edited.
    pub columns: Vec<Option<String>>,
}

/// What a [`DescribedResult`] says.
pub struct DescribedResultView {
    pub target: EditTargetView,
    pub columns: Seq<Option<Seq<char>>>,
}

impl DeepView for DescribedResult {
    type V = DescribedResultView;

    open spec fn deep_view(&self) -> DescribedResultView {
        DescribedResultView {
            target: self.target.deep_view(),
            columns: self.columns.deep_view(),
        }
    }
}

/// One staged row change.
#[derive(Debug, Clone)]
pub enum RowEdit {
    /// Set the `set` columns on the row identified by `pk`.
    Update { pk: Vec<(String, CellValue)>, set: Vec<(String, CellValue)> },
    /// Insert a new row with the given column values.
    Insert { values: Vec<(String, CellValue)> },
    /// Delete the row identified by `pk`.
    Delete { pk: Vec<(String, CellValue)> },
}

/// What a [`RowEdit`] says.
pub enum RowEditView {
    Update { pk: Seq<PairView>, set: Seq<PairView> },
    Insert { values: Seq<PairView> },
    Delete { pk: Seq<PairView> },
}

impl DeepView for RowEdit {
    type V = RowEditView;

    open spec fn deep_view(&self) -> RowEditView {
        match self {
            RowEdit::Update { pk, set } => RowEditView::Update {
                pk: pk.deep_view(),
                set: set.deep_view(),
            },
            RowEdit::Insert { values } => RowEditView::Insert { values: values.deep_view() },
            RowEdit::Delete { pk } => RowEditView::Delete { pk: pk.deep_view() },
        }
    }
}

impl Duplicate for RowEdit {
    fn dup(&self) -> (r: Self) {
        match self {
            RowEdit::Update { pk, set } => RowEdit::Update { pk: pk.dup(), set: set.dup() },
            RowEdit::Insert { values } => RowEdit::Insert { values: values.dup() },
            RowEdit::Delete { pk } => RowEdit::Delete { pk: pk.dup() },
        }
    }
}

/// A SQL identifier: between double quotes, inner ones doubled.
pub open spec fn ident(name: Seq<char>) -> Seq<char> {
    quoted(name, '"')
}

/// A SQL literal: `NULL`, or the text between single quotes, inner ones doubled.
pub open spec fn literal(value: Option<Seq<char>>) -> Seq<char> {
    match value {
        None => "NULL"@,
        Some(s) => quoted(s, '\''),
    }
}

/// Quotes a SQL identifier.
pub fn quote_ident(name: &str) -> (r: String)
    ensures
        r@ == ident(name@),
{
    quote(name, '"')
}

/// Quotes a value as a SQL literal. Only single quotes need doubling, since
/// `standard_conforming_strings` is on by default.
pub fn quote_literal(value: &CellValue) -> (r: String)
    ensures
        r@ == literal(value.deep_view()),
{
    match value {
        CellValue::Null => "NULL".to_owned(),
        CellValue::Text(s) => quote(s.as_str(), '\''),
    }
}

impl EditTargetView {
    /// The table with its schema, both quoted.
    pub open spec fn qualified(self) -> Seq<char> {
        ident(self.schema) + "."@ + ident(self.table)
    }
}

impl EditTarget {
    /// The table with its schema, both quoted.
    pub fn qualified(&self) -> (r: String)
        ensures
            r@ == self.deep_view().qualified(),
    {
        quote_ident(self.schema.as_str()).concat(".").concat(
            quote_ident(self.table.as_str()).as_str(),
        )
    }
}

/// An assignment of a value to a column.
pub open spec fn assignment(p: PairView) -> Seq<char> {
    ident(p.0) + " = "@ + literal(p.1)
}

/// A condition on one key column. A NULL key is matched with `IS NULL`.
pub open spec fn condition(p: PairView) -> Seq<char> {
    match p.1 {
        None => ident(p.0) + " IS NULL"@,
        Some(_) => assignment(p),
    }
}

/// The condition that picks a row by its key.
pub open spec fn key_condition(pk: Seq<PairView>) -> Seq<char> {
    joined(pk.map_values(|p: PairView| condition(p)), " AND "@)
}

impl RowEditView {
    /// The statement for a change, without a semicolon; or what is missing for one.
    pub open spec fn sql(self, target: EditTargetView) -> Result<Seq<char>, Seq<char>> {
        match self {
            RowEditView::Update { pk, set } => if set.len() == 0 {
                Err("update has no columns to set"@)
            } else if pk.len() == 0 {
                Err("update has no primary key"@)
            } else {
                Ok(
                    "UPDATE "@ + target.qualified() + " SET "@ + joined(
                        set.map_values(|p: PairView| assignment(p)),
                        ", "@,
                    ) + " WHERE "@ + key_condition(pk),
                )
            },
            RowEditView::Insert { values } => if values.len() == 0 {
                Err("insert has no values"@)
            } else {
                Ok(
                    "INSERT INTO "@ + target.qualified() + " ("@ + joined(
                        values.map_values(|p: PairView| ident(p.0)),
                        ", "@,
                    ) + ") VALUES ("@ + joined(
                        values.map_values(|p: PairView| literal(p.1)),
                        ", "@,
                    ) + ")"@,
                )
            },
            RowEditView::Delete { pk } => if pk.len() == 0 {
                Err("delete has no primary key"@)
            } else {
                Ok("DELETE FROM "@ + target.qualified() + " WHERE "@ + key_condition(pk))
            },
        }
    }
}

fn assignment_text(p: &(String, CellValue)) -> (r: String)
    ensures
        r@ == assignment(p.deep_view()),
{
    quote_ident(p.0.as_str()).concat(" = ").concat(quote_literal(&p.1).as_str())
}

/// Key match clause, e.g. `"id" = '5' AND "k" = 'x'`.
pub fn pk_where(pk: &Vec<(String, CellValue)>) -> (r: String)
    ensures
        r@ == key_condition(pk.deep_view()),
        pk@.len() > 0 ==> read_key(r@) == Some((pk.deep_view(), Seq::<char>::empty())),
{
    proof {
        if pk@.len() > 0 {
            law_every_key_column_is_matched(pk.deep_view());
            let read = read_key(key_condition(pk.deep_view()))->0;
            assert(read.0 =~= pk.deep_view());
            assert(read.1 =~= Seq::<char>::empty());
        }
    }
    let mut parts: Vec<String> = Vec::new();
    for i in 0..pk.len()
        invariant
            parts@.len() == i,
            forall|j: int|
                0 <= j < i ==> (#[trigger] parts@[j])@ == condition(pk@[j].deep_view()),
    {
        let part = match pk[i].1 {
            CellValue::Null => quote_ident(pk[i].0.as_str()).concat(" IS NULL"),
            CellValue::Text(_) => assignment_text(&pk[i]),
        };
        parts.push(part);
    }
    proof {
        assert(parts.deep_view() =~= pk.deep_view().map_values(|p: PairView| condition(p)));
    }
    join(&parts, " AND ")
}

fn assignments(set: &Vec<(String, CellValue)>) -> (r: String)
    ensures
        r@ == joined(set.deep_view().map_values(|p: PairView| assignment(p)), ", "@),
{
    let mut parts: Vec<String> = Vec::new();
    for i in 0..set.len()
        invariant
            parts@.len() == i,
            forall|j: int|
                0 <= j < i ==> (#[trigger] parts@[j])@ == assignment(set@[j].deep_view()),
    {
        parts.push(assignment_text(&set[i]));
    }
    proof {
        assert(parts.deep_view() =~= set.deep_view().map_values(|p: PairView| assignment(p)));
    }
    join(&parts, ", ")
}

fn columns_of(values: &Vec<(String, CellValue)>) -> (r: String)
    ensures
        r@ == joined(values.deep_view().map_values(|p: PairView| ident(p.0)), ", "@),
{
    let mut parts: Vec<String> = Vec::new();
    for i in 0..values.len()
        invariant
            parts@.len() == i,
            forall|j: int| 0 <= j < i ==> (#[trigger] parts@[j])@ == ident(values@[j].0@),
    {
        parts.push(quote_ident(values[i].0.as_str()));
    }
    proof {
        assert(parts.deep_view() =~= values.deep_view().map_values(|p: PairView| ident(p.0)));
    }
    join(&parts, ", ")
}

fn literals_of(values: &Vec<(String, CellValue)>) -> (r: String)
    ensures
        r@ == joined(values.deep_view().map_values(|p: PairView| literal(p.1)), ", "@),
{
    let mut parts: Vec<String> = Vec::new();
    for i in 0..values.len()
        invariant
            parts@.len() == i,
            forall|j: int|
                0 <= j < i ==> (#[trigger] parts@[j])@ == literal(values@[j].1.deep_view()),
    {
        parts.push(quote_literal(&values[i].1));
    }
    proof {
        assert(parts.deep_view() =~= values.deep_view().map_values(|p: PairView| literal(p.1)));
    }
    join(&parts, ", ")
}

impl RowEdit {
    /// Renders this change as a single SQL statement, without a trailing semicolon.
    pub fn to_sql(&self, target: &EditTarget) -> (r: Result<String, DbError>)
        ensures
            (match r {
                Ok(sql) => self.deep_view().sql(target.deep_view()) == Ok::<Seq<char>, Seq<char>>(
                    sql@,
                ),
                Err(e) => e.deep_view() is Query && self.deep_view().sql(target.deep_view())
                    == Err::<Seq<char>, Seq<char>>(e.deep_view()->Query_0),
            }),
            r matches Ok(sql) ==> read_edit(sql@) == Some(
                as_read(target.deep_view(), self.deep_view()),
            ),
    {
        proof {
            let sql = self.deep_view().sql(target.deep_view());
            if sql is Ok {
                law_statement_reads_back(self.deep_view(), target.deep_view(), Seq::empty());
                assert(sql->Ok_0 + Seq::<char>::empty() =~= sql->Ok_0);
            }
        }
        let tbl = target.qualified();
        match self {
            RowEdit::Update { pk, set } => {
                if set.len() == 0 {
                    return Err(DbError::Query("update has no columns to set".to_owned()));
                }
                if pk.len() == 0 {
                    return Err(DbError::Query("update has no primary key".to_owned()));
                }
                Ok(
                    "UPDATE ".to_owned().concat(tbl.as_str()).concat(" SET ").concat(
                        assignments(set).as_str(),
                    ).concat(" WHERE ").concat(pk_where(pk).as_str()),
                )
            },
            RowEdit::Insert { values } => {
                if values.len() == 0 {
                    return Err(DbError::Query("insert has no values".to_owned()));
                }
                Ok(
                    "INSERT INTO ".to_owned().concat(tbl.as_str()).concat(" (").concat(
                        columns_of(values).as_str(),
                    ).concat(") VALUES (").concat(literals_of(values).as_str()).concat(")"),
                )
            },
            RowEdit::Delete { pk } => {
                if pk.len() == 0 {
                    return Err(DbError::Query("delete has no primary key".to_owned()));
                }
                Ok(
                    "DELETE FROM ".to_owned().concat(tbl.as_str()).concat(" WHERE ").concat(
                        pk_where(pk).as_str(),
                    ),
                )
            },
        }
    }
}

/// The first reason for which one of the changes has no statement, if there is one.
pub open spec fn first_fault(target: EditTargetView, edits: Seq<RowEditView>) -> Option<Seq<char>>
    decreases edits.len(),
{
    if edits.len() == 0 {
        None
    } else {
        match edits[0].sql(target) {
            Err(e) => Some(e),
            Ok(_) => first_fault(target, edits.drop_first()),
        }
    }
}

/// The statement of a change that has one, with its semicolon and line end.
pub open spec fn batch_line(target: EditTargetView, edit: RowEditView) -> Seq<char> {
    edit.sql(target)->Ok_0 + ";\n"@
}

/// The statements of all changes, in order, within one transaction.
pub open spec fn batch_text(target: EditTargetView, edits: Seq<RowEditView>) -> Seq<char> {
    "BEGIN;\n"@ + concat_all(edits.map_values(|e: RowEditView| batch_line(target, e)))
        + "COMMIT;\n"@
}

proof fn lemma_first_fault(target: EditTargetView, edits: Seq<RowEditView>, k: int)
    requires
        0 <= k <= edits.len(),
        forall|j: int| 0 <= j < k ==> (#[trigger] edits[j]).sql(target) is Ok,
    ensures
        first_fault(target, edits) == first_fault(target, edits.skip(k)),
    decreases k,
{
    if k == 0 {
        assert(edits.skip(0) == edits);
    } else {
        assert(edits[0].sql(target) is Ok);
        lemma_first_fault(target, edits.drop_first(), k - 1);
        assert(edits.drop_first().skip(k - 1) == edits.skip(k));
    }
}

/// Builds one transactional batch (`BEGIN; .. ; COMMIT;`) for a set of changes.
/// `None` if there is nothing to apply; the error of the first change that has no
/// statement.
pub fn build_batch(target: &EditTarget, edits: &[RowEdit]) -> (r: Result<Option<String>, DbError>)
    ensures
        (match r {
            Ok(None) => edits@.len() == 0,
            Ok(Some(sql)) => edits@.len() > 0 && first_fault(
                target.deep_view(),
                edits.deep_view(),
            ) is None && sql@ == batch_text(target.deep_view(), edits.deep_view()),
            Err(e) => e.deep_view() is Query && first_fault(target.deep_view(), edits.deep_view())
                == Some(e.deep_view()->Query_0),
        }),
        r matches Ok(Some(sql)) ==> read_batch(sql@) == Some(
            edits.deep_view().map_values(|e: RowEditView| as_read(target.deep_view(), e)),
        ),
{
    proof {
        if first_fault(target.deep_view(), edits.deep_view()) is None {
            law_batch_reads_back(target.deep_view(), edits.deep_view());
        }
    }
    if edits.len() == 0 {
        return Ok(None);
    }
    let mut sql = "BEGIN;\n".to_owned();
    let ghost tv = target.deep_view();
    let ghost ev = edits.deep_view();
    let ghost lines = ev.map_values(|e: RowEditView| batch_line(tv, e));
    let mut i: usize = 0;
    while i < edits.len()
        invariant
            i <= edits@.len(),
            tv == target.deep_view(),
            ev == edits.deep_view(),
            lines == ev.map_values(|e: RowEditView| batch_line(tv, e)),
            sql@ == "BEGIN;\n"@ + concat_all(lines.take(i as int)),
            forall|j: int| 0 <= j < i ==> (#[trigger] ev[j]).sql(tv) is Ok,
        decreases edits@.len() - i,
    {
        proof {
            assert(ev[i as int] == edits@[i as int].deep_view());
        }
        match edits[i].to_sql(target) {
            Ok(stmt) => {
                proof {
                    assert(lines.take(i + 1).drop_last() == lines.take(i as int));
                    assert(lines.take(i + 1).last() == stmt@ + ";\n"@);
                }
                sql.append(stmt.as_str());
                sql.append(";\n");
            },
            Err(e) => {
                proof {
                    lemma_first_fault(tv, ev, i as int);
                    assert(ev.skip(i as int)[0] == ev[i as int]);
                }
                return Err(e);
            },
        }
        i += 1;
    }
    proof {
        lemma_first_fault(tv, ev, i as int);
        assert(lines.take(i as int) == lines);
    }
    sql.append("COMMIT;\n");
    Ok(Some(sql))
}

} // verus!
