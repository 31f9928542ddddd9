//! Result data: columns, cells, rows and the events of a running query.

use std::sync::Arc;
use vstd::prelude::*;
use crate::dup::Duplicate;
use crate::error::{DbError, DbErrorView};

verus! {

/// Identifier of an open connection.
pub type ConnId = u64;

/// Description of one result column.
///
/// The simple-query row description gives the name only. The other fields are known
/// after a statement has been described.
#[derive(Debug, Clone)]
pub struct ColumnMeta {
    pub name: String,
    pub type_oid: Option<u32>,
    pub type_label: Option<String>,
    /// OID of the source table, if the column is a plain table reference.
    pub table_oid: Option<u32>,
    /// Attribute number within the source table.
    pub column_id: Option<i16>,
}

/// What a [`ColumnMeta`] says.
pub struct ColumnMetaView {
    pub name: Seq<char>,
    pub type_oid: Option<u32>,
    pub type_label: Option<Seq<char>>,
    pub table_oid: Option<u32>,
    pub column_id: Option<i16>,
}

impl DeepView for ColumnMeta {
    type V = ColumnMetaView;

    open spec fn deep_view(&self) -> ColumnMetaView {
        ColumnMetaView {
            name: self.name@,
            type_oid: self.type_oid,
            type_label: self.type_label.deep_view(),
            table_oid: self.table_oid,
            column_id: self.column_id,
        }
    }
}

/// A column of which only the name is known.
pub open spec fn named_column(name: Seq<char>) -> ColumnMetaView {
    ColumnMetaView { name, type_oid: None, type_label: None, table_oid: None, column_id: None }
}

impl ColumnMeta {
    /// A column of which only the name is known.
    pub fn named(name: &str) -> (r: Self)
        ensures
            r.deep_view() == named_column(name@),
    {
        ColumnMeta {
            name: name.to_owned(),
            type_oid: None,
            type_label: None,
            table_oid: None,
            column_id: None,
        }
    }
}

impl Duplicate for ColumnMeta {
    fn dup(&self) -> (r: Self) {
        ColumnMeta {
            name: self.name.clone(),
            type_oid: self.type_oid,
            type_label: self.type_label.dup(),
            table_oid: self.table_oid,
            column_id: self.column_id,
        }
    }
}

/// A single cell. Values arrive as text, which tells NULL from an empty value.
#[derive(Debug, Clone, PartialEq, Eq)]
pub enum CellValue {
    Null,
    Text(String),
}

/// A cell is its text, or nothing for NULL.
impl DeepView for CellValue {
    type V = Option<Seq<char>>;

    open spec fn deep_view(&self) -> Option<Seq<char>> {
        match self {
            CellValue::Null => None,
            CellValue::Text(s) => Some(s@),
        }
    }
}

impl CellValue {
    /// The cell for an optional text.
    pub fn from_opt(v: Option<&str>) -> (r: Self)
        ensures
            r.deep_view() == v.deep_view(),
    {
        match v {
            Some(s) => CellValue::Text(s.to_owned()),
            None => CellValue::Null,
        }
    }
}

impl Duplicate for CellValue {
    fn dup(&self) -> (r: Self) {
        match self {
            CellValue::Null => CellValue::Null,
            CellValue::Text(s) => CellValue::Text(s.clone()),
        }
    }
}

/// One result row.
pub type Row = Vec<CellValue>;

/// A span of time: whole seconds, and nanoseconds below one second.
#[derive(Debug, Clone, Copy, PartialEq, Eq, Structural)]
pub struct Elapsed {
    pub secs: u64,
    pub nanos: u32,
}

impl Elapsed {
    /// The nanoseconds are below one second.
    pub open spec fn valid(self) -> bool {
        self.nanos < 1_000_000_000
    }
}

/// Events of the execution of one SQL submission, in the order in which they come.
///
/// A successful statement gives `Columns` once, then any number of `Rows` batches,
/// then `Done`. A submission may hold several statements, so these can repeat. A
/// failure ends the stream with `Failed`.
#[derive(Debug, Clone)]
pub enum QueryEvent {
    /// Column descriptions for the rows that follow.
    Columns(Arc<Vec<ColumnMeta>>),
    /// A batch of result rows.
    Rows(Vec<Row>),
    /// A statement finished. `affected` is the row count that the server reported.
    Done { affected: u64, elapsed: Elapsed },
    /// Execution failed; the stream ends after this.
    Failed(DbError),
}

/// What a [`QueryEvent`] says.
pub enum QueryEventView {
    Columns(Seq<ColumnMetaView>),
    Rows(Seq<Seq<Option<Seq<char>>>>),
    Done { affected: u64, elapsed: Elapsed },
    Failed(DbErrorView),
}

impl DeepView for QueryEvent {
    type V = QueryEventView;

    open spec fn deep_view(&self) -> QueryEventView {
        match self {
            QueryEvent::Columns(c) => QueryEventView::Columns(c.deep_view()),
            QueryEvent::Rows(r) => QueryEventView::Rows(r.deep_view()),
            QueryEvent::Done { affected, elapsed } => QueryEventView::Done {
                affected: *affected,
                elapsed: *elapsed,
            },
            QueryEvent::Failed(e) => QueryEventView::Failed(e.deep_view()),
        }
    }
}

} // verus!
