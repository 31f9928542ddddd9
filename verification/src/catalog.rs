//! The queries of the system catalog.

use vstd::prelude::*;
use crate::introspect::IntrospectKind;

verus! {

/// The schemas of the user.
pub const SCHEMAS_SQL: &'static str = "SELECT n.oid, n.nspname
FROM pg_namespace n
WHERE n.nspname NOT LIKE 'pg\\_%'
  AND n.nspname <> 'information_schema'
ORDER BY n.nspname";

/// The relations of a schema.
pub const RELATIONS_SQL: &'static str = "SELECT c.oid, c.relname, c.relkind::text
FROM pg_class c
JOIN pg_namespace n ON n.oid = c.relnamespace
WHERE n.nspname = $1
  AND c.relkind = ANY('{r,v,m,f,p}')
ORDER BY c.relname";

/// The columns of a relation.
pub const COLUMNS_SQL: &'static str = "SELECT a.attname,
       a.attnum,
       format_type(a.atttypid, a.atttypmod) AS type_name,
       (NOT a.attnotnull) AS nullable,
       pg_get_expr(ad.adbin, ad.adrelid) AS default_expr,
       COALESCE(a.attnum = ANY(i.indkey::int2[]), false) AS is_pk
FROM pg_attribute a
JOIN pg_class c ON c.oid = a.attrelid
JOIN pg_namespace n ON n.oid = c.relnamespace
LEFT JOIN pg_attrdef ad ON ad.adrelid = a.attrelid AND ad.adnum = a.attnum
LEFT JOIN pg_index i ON i.indrelid = c.oid AND i.indisprimary
WHERE n.nspname = $1 AND c.relname = $2
  AND a.attnum > 0 AND NOT a.attisdropped
ORDER BY a.attnum";

/// The indexes of a relation.
pub const INDEXES_SQL: &'static str = "SELECT ic.relname AS name,
       ix.indisunique,
       ix.indisprimary,
       pg_get_indexdef(ix.indexrelid) AS def
FROM pg_index ix
JOIN pg_class ic ON ic.oid = ix.indexrelid
JOIN pg_class tc ON tc.oid = ix.indrelid
JOIN pg_namespace n ON n.oid = tc.relnamespace
WHERE n.nspname = $1 AND tc.relname = $2
ORDER BY ix.indisprimary DESC, ic.relname";

/// The constraints of a relation.
pub const CONSTRAINTS_SQL: &'static str = "SELECT con.conname,
       con.contype::text,
       pg_get_constraintdef(con.oid) AS def
FROM pg_constraint con
JOIN pg_class c ON c.oid = con.conrelid
JOIN pg_namespace n ON n.oid = c.relnamespace
WHERE n.nspname = $1 AND c.relname = $2
ORDER BY con.contype, con.conname";

/// The sequences of a schema.
pub const SEQUENCES_SQL: &'static str = "SELECT c.relname
FROM pg_class c
JOIN pg_namespace n ON n.oid = c.relnamespace
WHERE n.nspname = $1 AND c.relkind = 'S'
ORDER BY c.relname";

/// The functions of a schema, with their arguments.
pub const FUNCTIONS_SQL: &'static str = "SELECT p.proname || '(' || pg_get_function_arguments(p.oid) || ')' AS sig
FROM pg_proc p
JOIN pg_namespace n ON n.oid = p.pronamespace
WHERE n.nspname = $1
  AND p.prokind IN ('f', 'p')
ORDER BY p.proname, sig";

/// The schema and the name of a table, by its OID.
pub const SOURCE_TABLE_SQL: &'static str = "SELECT n.nspname, c.relname FROM pg_class c JOIN pg_namespace n ON n.oid = c.relnamespace WHERE c.oid = $1";

/// The columns of a table, by its OID: number, name, and whether the primary key has it.
pub const ATTRIBUTES_SQL: &'static str = "SELECT a.attnum, a.attname, COALESCE(a.attnum = ANY(i.indkey::int2[]), false) AS is_pk FROM pg_attribute a LEFT JOIN pg_index i ON i.indrelid = a.attrelid AND i.indisprimary WHERE a.attrelid = $1 AND a.attnum > 0 AND NOT a.attisdropped";

/// A query of the catalog, with its parameters.
#[derive(Debug)]
pub struct CatalogQuery {
    pub sql: &'static str,
    pub params: Vec<String>,
}

impl DeepView for CatalogQuery {
    type V = (Seq<char>, Seq<Seq<char>>);

    open spec fn deep_view(&self) -> (Seq<char>, Seq<Seq<char>>) {
        (self.sql@, self.params.deep_view())
    }
}

/// The queries that answer a request, each with its parameters. They do not depend on one
/// another.
pub open spec fn queries_of(kind: IntrospectKind) -> Seq<(Seq<char>, Seq<Seq<char>>)> {
    match kind {
        IntrospectKind::Schemas => seq![(SCHEMAS_SQL@, Seq::empty())],
        IntrospectKind::Relations { schema } => seq![(RELATIONS_SQL@, seq![schema@])],
        IntrospectKind::Columns { schema, table } => seq![(COLUMNS_SQL@, seq![schema@, table@])],
        IntrospectKind::RelationDetail { schema, table } => seq![
            (COLUMNS_SQL@, seq![schema@, table@]),
            (INDEXES_SQL@, seq![schema@, table@]),
            (CONSTRAINTS_SQL@, seq![schema@, table@]),
        ],
        IntrospectKind::SchemaObjects { schema } => seq![
            (SEQUENCES_SQL@, seq![schema@]),
            (FUNCTIONS_SQL@, seq![schema@]),
        ],
    }
}

fn about_schema(sql: &'static str, schema: &String) -> (r: CatalogQuery)
    ensures
        r.deep_view() == (sql@, seq![schema@]),
{
    let r = CatalogQuery { sql, params: vec![schema.clone()] };
    proof {
        assert(r.params.deep_view() =~= seq![schema@]);
    }
    r
}

fn about_relation(sql: &'static str, schema: &String, table: &String) -> (r: CatalogQuery)
    ensures
        r.deep_view() == (sql@, seq![schema@, table@]),
{
    let r = CatalogQuery { sql, params: vec![schema.clone(), table.clone()] };
    proof {
        assert(r.params.deep_view() =~= seq![schema@, table@]);
    }
    r
}

/// The queries that answer a request.
pub fn catalog_queries(kind: &IntrospectKind) -> (r: Vec<CatalogQuery>)
    ensures
        r.deep_view() == queries_of(*kind),
{
    let r = match kind {
        IntrospectKind::Schemas => vec![CatalogQuery { sql: SCHEMAS_SQL, params: Vec::new() }],
        IntrospectKind::Relations { schema } => vec![about_schema(RELATIONS_SQL, schema)],
        IntrospectKind::Columns { schema, table } => vec![
            about_relation(COLUMNS_SQL, schema, table),
        ],
        IntrospectKind::RelationDetail { schema, table } => vec![
            about_relation(COLUMNS_SQL, schema, table),
            about_relation(INDEXES_SQL, schema, table),
            about_relation(CONSTRAINTS_SQL, schema, table),
        ],
        IntrospectKind::SchemaObjects { schema } => vec![
            about_schema(SEQUENCES_SQL, schema),
            about_schema(FUNCTIONS_SQL, schema),
        ],
    };
    proof {
        if *kind is Schemas {
            assert(r@[0].params.deep_view() =~= Seq::<Seq<char>>::empty());
        }
        assert(r.deep_view() =~= queries_of(*kind));
    }
    r
}

/// The statements of the self test: they make a small table.
pub fn selftest_statements() -> (r: Vec<&'static str>)
    ensures
        r@ == seq![
            "DROP TABLE IF EXISTS public.zdb_selftest",
            "CREATE TABLE public.zdb_selftest (id int primary key, name text)",
            "INSERT INTO public.zdb_selftest VALUES (1,'alpha'),(2,NULL)",
        ],
{
    vec![
        "DROP TABLE IF EXISTS public.zdb_selftest",
        "CREATE TABLE public.zdb_selftest (id int primary key, name text)",
        "INSERT INTO public.zdb_selftest VALUES (1,'alpha'),(2,NULL)",
    ]
}

} // verus!
