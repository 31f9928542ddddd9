//! What is known of schemas and relations, from the system catalog.

use vstd::prelude::*;
use crate::dup::Duplicate;
use crate::error::DbError;

verus! {

/// A schema.
#[derive(Debug, Clone)]
pub struct SchemaInfo {
    pub oid: u32,
    pub name: String,
}

/// What a [`SchemaInfo`] says.
pub struct SchemaInfoView {
    pub oid: u32,
    pub name: Seq<char>,
}

impl DeepView for SchemaInfo {
    type V = SchemaInfoView;

    open spec fn deep_view(&self) -> SchemaInfoView {
        SchemaInfoView { oid: self.oid, name: self.name@ }
    }
}

impl Duplicate for SchemaInfo {
    fn dup(&self) -> (r: Self) {
        SchemaInfo { oid: self.oid, name: self.name.clone() }
    }
}

/// What kind of relation it is.
#[derive(Debug, Clone, Copy, PartialEq, Eq, Structural)]
pub enum RelationKind {
    Table,
    View,
    MaterializedView,
    ForeignTable,
    Other,
}

impl RelationKind {
    /// The kind for a `pg_class.relkind`; `p` is a partitioned table.
    pub open spec fn of_relkind(k: Seq<char>) -> RelationKind {
        if k == "r"@ || k == "p"@ {
            RelationKind::Table
        } else if k == "v"@ {
            RelationKind::View
        } else if k == "m"@ {
            RelationKind::MaterializedView
        } else if k == "f"@ {
            RelationKind::ForeignTable
        } else {
            RelationKind::Other
        }
    }

    /// The kind for a `pg_class.relkind`.
    pub fn from_relkind(k: &str) -> (r: Self)
        ensures
            r == RelationKind::of_relkind(k@),
    {
        if *k == *"r" || *k == *"p" {
            RelationKind::Table
        } else if *k == *"v" {
            RelationKind::View
        } else if *k == *"m" {
            RelationKind::MaterializedView
        } else if *k == *"f" {
            RelationKind::ForeignTable
        } else {
            RelationKind::Other
        }
    }
}

/// A table, view or the like.
#[derive(Debug, Clone)]
pub struct RelationInfo {
    pub oid: u32,
    pub schema: String,
    pub name: String,
    pub kind: RelationKind,
}

/// What a [`RelationInfo`] says.
pub struct RelationInfoView {
    pub oid: u32,
    pub schema: Seq<char>,
    pub name: Seq<char>,
    pub kind: RelationKind,
}

impl DeepView for RelationInfo {
    type V = RelationInfoView;

    open spec fn deep_view(&self) -> RelationInfoView {
        RelationInfoView {
            oid: self.oid,
            schema: self.schema@,
            name: self.name@,
            kind: self.kind,
        }
    }
}

impl RelationInfo {
    /// The relation of `schema` for a catalog row: OID, name and `relkind`.
    pub fn from_row(schema: &str, oid: u32, name: String, relkind: &str) -> (r: Self)
        ensures
            r.deep_view() == (RelationInfoView {
                oid,
                schema: schema@,
                name: name@,
                kind: RelationKind::of_relkind(relkind@),
            }),
    {
        RelationInfo {
            oid,
            schema: schema.to_owned(),
            name,
            kind: RelationKind::from_relkind(relkind),
        }
    }
}

/// A column of a relation.
#[derive(Debug, Clone)]
pub struct ColumnInfo {
    pub name: String,
    /// Attribute number within the table (1-based).
    pub position: i16,
    pub type_label: String,
    pub nullable: bool,
    pub default: Option<String>,
    pub is_primary_key: bool,
}

/// What a [`ColumnInfo`] says.
pub struct ColumnInfoView {
    pub name: Seq<char>,
    pub position: i16,
    pub type_label: Seq<char>,
    pub nullable: bool,
    pub default: Option<Seq<char>>,
    pub is_primary_key: bool,
}

impl DeepView for ColumnInfo {
    type V = ColumnInfoView;

    open spec fn deep_view(&self) -> ColumnInfoView {
        ColumnInfoView {
            name: self.name@,
            position: self.position,
            type_label: self.type_label@,
            nullable: self.nullable,
            default: self.default.deep_view(),
            is_primary_key: self.is_primary_key,
        }
    }
}

/// An index of a relation.
#[derive(Debug, Clone)]
pub struct IndexInfo {
    pub name: String,
    pub is_unique: bool,
    pub is_primary: bool,
    /// Full `CREATE INDEX ..` definition.
    pub definition: String,
}

/// What an [`IndexInfo`] says.
pub struct IndexInfoView {
    pub name: Seq<char>,
    pub is_unique: bool,
    pub is_primary: bool,
    pub definition: Seq<char>,
}

impl DeepView for IndexInfo {
    type V = IndexInfoView;

    open spec fn deep_view(&self) -> IndexInfoView {
        IndexInfoView {
            name: self.name@,
            is_unique: self.is_unique,
            is_primary: self.is_primary,
            definition: self.definition@,
        }
    }
}

/// A constraint of a relation.
#[derive(Debug, Clone)]
pub struct ConstraintInfo {
    pub name: String,
    /// `pg_constraint.contype`: p=primary, f=foreign, u=unique, c=check, x=exclude.
    pub kind: char,
    /// Full `pg_get_constraintdef` text.
    pub definition: String,
}

/// What a [`ConstraintInfo`] says.
pub struct ConstraintInfoView {
    pub name: Seq<char>,
    pub kind: char,
    pub definition: Seq<char>,
}

impl DeepView for ConstraintInfo {
    type V = ConstraintInfoView;

    open spec fn deep_view(&self) -> ConstraintInfoView {
        ConstraintInfoView { name: self.name@, kind: self.kind, definition: self.definition@ }
    }
}

impl ConstraintInfo {
    /// The constraint for a catalog row. The kind is the first character of `contype`.
    pub fn from_row(name: String, contype: &str, definition: String) -> (r: Self)
        ensures
            r.deep_view() == (ConstraintInfoView {
                name: name@,
                kind: if contype@.len() > 0 {
                    contype@[0]
                } else {
                    '?'
                },
                definition: definition@,
            }),
    {
        let kind = if contype.is_empty() {
            '?'
        } else {
            contype.get_char(0)
        };
        ConstraintInfo { name, kind, definition }
    }
}

/// Columns, indexes and constraints of one relation.
#[derive(Debug, Clone)]
pub struct RelationDetail {
    pub columns: Vec<ColumnInfo>,
    pub indexes: Vec<IndexInfo>,
    pub constraints: Vec<ConstraintInfo>,
}

/// What a [`RelationDetail`] says.
pub struct RelationDetailView {
    pub columns: Seq<ColumnInfoView>,
    pub indexes: Seq<IndexInfoView>,
    pub constraints: Seq<ConstraintInfoView>,
}

impl DeepView for RelationDetail {
    type V = RelationDetailView;

    open spec fn deep_view(&self) -> RelationDetailView {
        RelationDetailView {
            columns: self.columns.deep_view(),
            indexes: self.indexes.deep_view(),
            constraints: self.constraints.deep_view(),
        }
    }
}

/// Objects of a schema beyond its relations.
#[derive(Debug, Clone)]
pub struct SchemaObjects {
    pub sequences: Vec<String>,
    pub functions: Vec<String>,
}

/// What a [`SchemaObjects`] says.
pub struct SchemaObjectsView {
    pub sequences: Seq<Seq<char>>,
    pub functions: Seq<Seq<char>>,
}

impl DeepView for SchemaObjects {
    type V = SchemaObjectsView;

    open spec fn deep_view(&self) -> SchemaObjectsView {
        SchemaObjectsView {
            sequences: self.sequences.deep_view(),
            functions: self.functions.deep_view(),
        }
    }
}

/// What to ask the catalog for.
#[derive(Debug, Clone)]
pub enum IntrospectKind {
    Schemas,
    Relations { schema: String },
    Columns { schema: String, table: String },
    RelationDetail { schema: String, table: String },
    SchemaObjects { schema: String },
}

/// The answer to an introspection request; its variant is that of the request.
#[derive(Debug, Clone)]
pub enum Introspection {
    Schemas(Vec<SchemaInfo>),
    Relations(Vec<RelationInfo>),
    Columns(Vec<ColumnInfo>),
    RelationDetail(RelationDetail),
    SchemaObjects(SchemaObjects),
}

impl Introspection {
    /// The schemas of an answer. An answer to another request means that the worker can
    /// no longer be trusted.
    pub fn schemas(self) -> (r: Result<Vec<SchemaInfo>, DbError>)
        ensures
            (match self {
                Introspection::Schemas(v) => r == Ok::<Vec<SchemaInfo>, DbError>(v),
                _ => r == Err::<Vec<SchemaInfo>, DbError>(DbError::WorkerGone),
            }),
    {
        match self {
            Introspection::Schemas(v) => Ok(v),
            _ => Err(DbError::WorkerGone),
        }
    }

    /// The relations of an answer.
    pub fn relations(self) -> (r: Result<Vec<RelationInfo>, DbError>)
        ensures
            (match self {
                Introspection::Relations(v) => r == Ok::<Vec<RelationInfo>, DbError>(v),
                _ => r == Err::<Vec<RelationInfo>, DbError>(DbError::WorkerGone),
            }),
    {
        match self {
            Introspection::Relations(v) => Ok(v),
            _ => Err(DbError::WorkerGone),
        }
    }

    /// The columns of an answer.
    pub fn columns(self) -> (r: Result<Vec<ColumnInfo>, DbError>)
        ensures
            (match self {
                Introspection::Columns(v) => r == Ok::<Vec<ColumnInfo>, DbError>(v),
                _ => r == Err::<Vec<ColumnInfo>, DbError>(DbError::WorkerGone),
            }),
    {
        match self {
            Introspection::Columns(v) => Ok(v),
            _ => Err(DbError::WorkerGone),
        }
    }

    /// The relation detail of an answer.
    pub fn relation_detail(self) -> (r: Result<RelationDetail, DbError>)
        ensures
            (match self {
                Introspection::RelationDetail(d) => r == Ok::<RelationDetail, DbError>(d),
                _ => r == Err::<RelationDetail, DbError>(DbError::WorkerGone),
            }),
    {
        match self {
            Introspection::RelationDetail(d) => Ok(d),
            _ => Err(DbError::WorkerGone),
        }
    }

    /// The schema objects of an answer.
    pub fn schema_objects(self) -> (r: Result<SchemaObjects, DbError>)
        ensures
            (match self {
                Introspection::SchemaObjects(o) => r == Ok::<SchemaObjects, DbError>(o),
                _ => r == Err::<SchemaObjects, DbError>(DbError::WorkerGone),
            }),
    {
        match self {
            Introspection::SchemaObjects(o) => Ok(o),
            _ => Err(DbError::WorkerGone),
        }
    }
}

} // verus!
