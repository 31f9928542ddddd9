//! What the tree asks for, where what is loaded is put, and what it lists and notes.

use vstd::prelude::*;
use crate::introspect::{
    ColumnInfoView, ConstraintInfoView, IndexInfoView, RelationDetailView, RelationInfoView,
    RelationKind, SchemaObjectsView,
};
use crate::listing_laws::{
    answers, law_filter_keeps_what_answers, lemma_answers, lemma_picked, lemma_picked_none,
    picked,
};
use crate::script_laws::{is_core, law_trim_leaves_the_core};
use crate::text::{lowercase, trim};
use crate::tree::{
    all_rel_entries, all_schema_entries, all_states, column_note, constraint_note,
    detail_entries, detail_items, first_row, index_note, is_kept, kept, kid_entries, node, noted,
    rel_entries, rel_item, schema_entries, schema_item, schema_items, schema_kids, states,
    tree_entries, tree_items, visible, visible_all, Entry, NodeMetaView, RelNodeView,
    SchemaNodeView, TreeItemView,
};
use crate::workspace::query_laws::{lemma_says_something, says_something};
use crate::workspace::schema::{
    relation_id, relation_position, schema_id, schema_position, wanted_schemas, wanted_tables,
    wanted_tables_of, with_detail, with_relations,
};
use crate::workspace::state::{EffectView, SchemaTreeView, WorkspaceView};

verus! {

// ---- what is asked for -----------------------------------------------------------

/// The schemas that are asked for are those that are open, or all of them under a filter, whose
/// relations are neither known nor on their way, in order.
pub proof fn law_open_schemas_are_asked_for(
    nodes: Seq<SchemaNodeView>,
    open: Set<Seq<char>>,
    loads: Set<Seq<char>>,
    filtering: bool,
)
    ensures
        wanted_schemas(nodes, open, loads, filtering) == picked(
            nodes,
            |n: SchemaNodeView|
                n.relations is None && !loads.contains(schema_id(n.name)) && (filtering
                    || open.contains(schema_id(n.name))),
            |n: SchemaNodeView| n.name,
        ),
    decreases nodes.len(),
{
    let wanted = |n: SchemaNodeView|
        n.relations is None && !loads.contains(schema_id(n.name)) && (filtering || open.contains(
            schema_id(n.name),
        ));
    let give = |n: SchemaNodeView| n.name;
    if nodes.len() == 0 {
        lemma_picked_none(nodes, wanted, give);
    } else {
        law_open_schemas_are_asked_for(nodes.drop_last(), open, loads, filtering);
        lemma_picked(nodes, wanted, give);
    }
}

/// The tables of a schema that are asked for are those that are open and whose detail is
/// neither known nor on its way, in order. Nothing but a table is asked for.
pub proof fn law_open_tables_are_asked_for(
    schema: Seq<char>,
    rels: Seq<RelNodeView>,
    open: Set<Seq<char>>,
    loads: Set<Seq<char>>,
)
    ensures
        wanted_tables_of(schema, rels, open, loads) == picked(
            rels,
            |r: RelNodeView|
                r.kind == RelationKind::Table && r.detail is None && open.contains(
                    relation_id(schema, r.name),
                ) && !loads.contains(relation_id(schema, r.name)),
            |r: RelNodeView| (schema, r.name),
        ),
    decreases rels.len(),
{
    let wanted = |r: RelNodeView|
        r.kind == RelationKind::Table && r.detail is None && open.contains(
            relation_id(schema, r.name),
        ) && !loads.contains(relation_id(schema, r.name));
    let give = |r: RelNodeView| (schema, r.name);
    if rels.len() == 0 {
        lemma_picked_none(rels, wanted, give);
    } else {
        law_open_tables_are_asked_for(schema, rels.drop_last(), open, loads);
        lemma_picked(rels, wanted, give);
    }
}

/// A table is asked for exactly where a schema whose relations are known has it, open and not
/// loaded.
pub proof fn law_tables_of_all_schemas_are_asked_for(
    nodes: Seq<SchemaNodeView>,
    open: Set<Seq<char>>,
    loads: Set<Seq<char>>,
    asked: (Seq<char>, Seq<char>),
)
    ensures
        wanted_tables(nodes, open, loads).contains(asked) <==> exists|i: int|
            0 <= i < nodes.len() && (#[trigger] nodes[i]).name == asked.0 && nodes[i].relations
                is Some && wanted_tables_of(
                asked.0,
                nodes[i].relations->0,
                open,
                loads,
            ).contains(asked),
    decreases nodes.len(),
{
    if nodes.len() > 0 {
        let front = nodes.drop_last();
        let last = nodes.last();
        law_tables_of_all_schemas_are_asked_for(front, open, loads, asked);
        let before = wanted_tables(front, open, loads);
        let all = wanted_tables(nodes, open, loads);
        if all.contains(asked) {
            let m = all.index_of(asked);
            if m < before.len() {
                assert(before[m] == asked);
                assert(before.contains(asked));
                let i = choose|i: int|
                    0 <= i < front.len() && (#[trigger] front[i]).name == asked.0
                        && front[i].relations is Some && wanted_tables_of(
                        asked.0,
                        front[i].relations->0,
                        open,
                        loads,
                    ).contains(asked);
                assert(nodes[i] == front[i]);
            } else {
                let own = wanted_tables_of(last.name, last.relations->0, open, loads);
                assert(own[m - before.len()] == asked);
                assert(own.contains(asked));
                lemma_schema_of_wanted(last.name, last.relations->0, open, loads, asked);
                assert(nodes[nodes.len() - 1] == last);
            }
        }
        if exists|i: int|
            0 <= i < nodes.len() && (#[trigger] nodes[i]).name == asked.0 && nodes[i].relations
                is Some && wanted_tables_of(
                asked.0,
                nodes[i].relations->0,
                open,
                loads,
            ).contains(asked) {
            let i = choose|i: int|
                0 <= i < nodes.len() && (#[trigger] nodes[i]).name == asked.0 && nodes[i].relations
                    is Some && wanted_tables_of(
                    asked.0,
                    nodes[i].relations->0,
                    open,
                    loads,
                ).contains(asked);
            if i < front.len() {
                assert(front[i] == nodes[i]);
                let m = before.index_of(asked);
                assert(all[m] == asked);
            } else {
                let own = wanted_tables_of(asked.0, last.relations->0, open, loads);
                let m = own.index_of(asked);
                assert(all[before.len() + m] == asked);
            }
        }
    }
}

proof fn lemma_schema_of_wanted(
    schema: Seq<char>,
    rels: Seq<RelNodeView>,
    open: Set<Seq<char>>,
    loads: Set<Seq<char>>,
    asked: (Seq<char>, Seq<char>),
)
    requires
        wanted_tables_of(schema, rels, open, loads).contains(asked),
    ensures
        asked.0 == schema,
    decreases rels.len(),
{
    if rels.len() > 0 {
        let before = wanted_tables_of(schema, rels.drop_last(), open, loads);
        let all = wanted_tables_of(schema, rels, open, loads);
        let m = all.index_of(asked);
        if m < before.len() {
            assert(before[m] == asked);
            lemma_schema_of_wanted(schema, rels.drop_last(), open, loads, asked);
        }
    }
}

// ---- where it is put -------------------------------------------------------------

/// Whether the first schema with a name is a given one.
pub open spec fn is_first_schema(nodes: Seq<SchemaNodeView>, name: Seq<char>, k: int) -> bool {
    &&& 0 <= k < nodes.len()
    &&& nodes[k].name == name
    &&& forall|j: int| 0 <= j < k ==> (#[trigger] nodes[j]).name != name
}

/// Whether the first relation with a name is a given one.
pub open spec fn is_first_relation(rels: Seq<RelNodeView>, name: Seq<char>, k: int) -> bool {
    &&& 0 <= k < rels.len()
    &&& rels[k].name == name
    &&& forall|j: int| 0 <= j < k ==> (#[trigger] rels[j]).name != name
}

proof fn lemma_schema_at(nodes: Seq<SchemaNodeView>, name: Seq<char>, k: int)
    requires
        is_first_schema(nodes, name, k),
    ensures
        schema_position(nodes, name) == Some(k),
    decreases nodes.len(),
{
    let front = nodes.drop_last();
    if k < front.len() {
        assert(front[k] == nodes[k]);
        assert forall|j: int| 0 <= j < k implies (#[trigger] front[j]).name != name by {
            assert(front[j] == nodes[j]);
        }
        lemma_schema_at(front, name, k);
    } else {
        lemma_no_schema(front, name);
    }
}

proof fn lemma_no_schema(nodes: Seq<SchemaNodeView>, name: Seq<char>)
    requires
        forall|j: int| 0 <= j < nodes.len() ==> (#[trigger] nodes[j]).name != name,
    ensures
        schema_position(nodes, name) is None,
    decreases nodes.len(),
{
    if nodes.len() > 0 {
        let front = nodes.drop_last();
        assert forall|j: int| 0 <= j < front.len() implies (#[trigger] front[j]).name != name by {
            assert(front[j] == nodes[j]);
        }
        lemma_no_schema(front, name);
        assert(nodes[nodes.len() - 1].name != name);
    }
}

proof fn lemma_relation_at(rels: Seq<RelNodeView>, name: Seq<char>, k: int)
    requires
        is_first_relation(rels, name, k),
    ensures
        relation_position(rels, name) == Some(k),
    decreases rels.len(),
{
    let front = rels.drop_last();
    if k < front.len() {
        assert(front[k] == rels[k]);
        assert forall|j: int| 0 <= j < k implies (#[trigger] front[j]).name != name by {
            assert(front[j] == rels[j]);
        }
        lemma_relation_at(front, name, k);
    } else {
        lemma_no_relation(front, name);
    }
}

proof fn lemma_no_relation(rels: Seq<RelNodeView>, name: Seq<char>)
    requires
        forall|j: int| 0 <= j < rels.len() ==> (#[trigger] rels[j]).name != name,
    ensures
        relation_position(rels, name) is None,
    decreases rels.len(),
{
    if rels.len() > 0 {
        let front = rels.drop_last();
        assert forall|j: int| 0 <= j < front.len() implies (#[trigger] front[j]).name != name by {
            assert(front[j] == rels[j]);
        }
        lemma_no_relation(front, name);
        assert(rels[rels.len() - 1].name != name);
    }
}

/// The relations that were loaded for a schema are all put there, in order, with their names
/// and kinds, and without detail; no other schema changes.
pub proof fn law_relations_go_to_their_schema(
    nodes: Seq<SchemaNodeView>,
    k: int,
    rels: Seq<RelationInfoView>,
    objects: Option<SchemaObjectsView>,
)
    requires
        0 <= k < nodes.len(),
        is_first_schema(nodes, nodes[k].name, k),
    ensures
        ({
            let done = with_relations(nodes, nodes[k].name, rels, objects);
            &&& done.len() == nodes.len()
            &&& forall|i: int| 0 <= i < nodes.len() && i != k ==> #[trigger] done[i] == nodes[i]
            &&& done[k].name == nodes[k].name
            &&& done[k].objects == objects
            &&& done[k].relations is Some
            &&& done[k].relations->0.len() == rels.len()
            &&& forall|i: int|
                0 <= i < rels.len() ==> ({
                    let r = #[trigger] done[k].relations->0[i];
                    r.name == rels[i].name && r.kind == rels[i].kind && r.detail is None
                })
        }),
{
    lemma_schema_at(nodes, nodes[k].name, k);
}

/// The detail that was loaded for a relation is put there; no other relation and no other
/// schema changes.
pub proof fn law_detail_goes_to_its_relation(
    nodes: Seq<SchemaNodeView>,
    k: int,
    m: int,
    detail: RelationDetailView,
)
    requires
        0 <= k < nodes.len(),
        is_first_schema(nodes, nodes[k].name, k),
        nodes[k].relations is Some,
        0 <= m < nodes[k].relations->0.len(),
        is_first_relation(nodes[k].relations->0, nodes[k].relations->0[m].name, m),
    ensures
        ({
            let rels = nodes[k].relations->0;
            let done = with_detail(nodes, nodes[k].name, rels[m].name, detail);
            &&& done.len() == nodes.len()
            &&& forall|i: int| 0 <= i < nodes.len() && i != k ==> #[trigger] done[i] == nodes[i]
            &&& done[k].name == nodes[k].name
            &&& done[k].objects == nodes[k].objects
            &&& done[k].relations is Some
            &&& done[k].relations->0.len() == rels.len()
            &&& forall|i: int|
                0 <= i < rels.len() && i != m ==> #[trigger] done[k].relations->0[i] == rels[i]
            &&& done[k].relations->0[m] == (RelNodeView { detail: Some(detail), ..rels[m] })
        }),
{
    lemma_schema_at(nodes, nodes[k].name, k);
    lemma_relation_at(nodes[k].relations->0, nodes[k].relations->0[m].name, m);
}

/// An answer about a schema that is not there changes nothing.
pub proof fn law_answers_for_no_schema(
    nodes: Seq<SchemaNodeView>,
    schema: Seq<char>,
    table: Seq<char>,
    rels: Seq<RelationInfoView>,
    objects: Option<SchemaObjectsView>,
    detail: RelationDetailView,
)
    requires
        forall|j: int| 0 <= j < nodes.len() ==> (#[trigger] nodes[j]).name != schema,
    ensures
        with_relations(nodes, schema, rels, objects) == nodes,
        with_detail(nodes, schema, table, detail) == nodes,
{
    lemma_no_schema(nodes, schema);
}

// ---- what is listed --------------------------------------------------------------

/// Whether the labels of items are given names, in order.
pub open spec fn are_labelled(items: Seq<TreeItemView>, names: Seq<Seq<char>>) -> bool {
    &&& items.len() == names.len()
    &&& forall|i: int| 0 <= i < names.len() ==> (#[trigger] items[i]).label == names[i]
}

/// Below a schema whose relations are known stands the section of its tables, with an item for
/// each relation that answers to the filter, under its name and in order; without a filter the
/// sections of its sequences and functions follow where it has any.
pub proof fn law_schema_lists_what_it_has(
    n: SchemaNodeView,
    open: Set<Seq<char>>,
    needle: Seq<char>,
)
    requires
        n.relations is Some,
    ensures
        ({
            let kids = schema_kids(n, open, needle);
            let shown = picked(
                n.relations->0,
                |r: RelNodeView| answers(r.name, needle),
                |r: RelNodeView| r,
            );
            &&& kids.len() >= 1
            &&& kids[0].label == "TABLES"@
            &&& shown.len() > 0 ==> kids[0].children == shown.map_values(
                |r: RelNodeView| rel_item(n.name, r, open),
            ) && are_labelled(kids[0].children, shown.map_values(|r: RelNodeView| r.name))
            &&& shown.len() == 0 ==> kids[0].children.len() == 1 && kids[0].children[0].disabled
            &&& (needle.len() > 0 || n.objects is None) ==> kids.len() == 1
            &&& (needle.len() == 0 && n.objects is Some) ==> {
                let o = n.objects->0;
                let s: int = if o.sequences.len() > 0 {
                    1
                } else {
                    0
                };
                let f: int = if o.functions.len() > 0 {
                    1
                } else {
                    0
                };
                &&& kids.len() == 1 + s + f
                &&& s == 1 ==> kids[1].label == "SEQUENCES"@ && are_labelled(
                    kids[1].children,
                    o.sequences,
                )
                &&& f == 1 ==> kids[1 + s].label == "FUNCTIONS"@ && are_labelled(
                    kids[1 + s].children,
                    o.functions,
                )
            }
        }),
{
    law_filter_keeps_what_answers(n.relations->0, needle);
    let shown = kept(n.relations->0, needle);
    let kids = schema_kids(n, open, needle);
    assert(crate::tree::rel_items(n.name, shown, open) =~= shown.map_values(
        |r: RelNodeView| rel_item(n.name, r, open),
    ));
}

/// Below a table whose detail is known stand its columns, and its indexes and constraints where
/// it has any, each under its name and in order.
pub proof fn law_table_lists_its_detail(
    schema: Seq<char>,
    rel: Seq<char>,
    d: RelationDetailView,
    open: Set<Seq<char>>,
)
    ensures
        ({
            let kids = detail_items(schema, rel, d, open);
            let x: int = if d.indexes.len() > 0 {
                1
            } else {
                0
            };
            let c: int = if d.constraints.len() > 0 {
                1
            } else {
                0
            };
            &&& kids.len() == 1 + x + c
            &&& kids[0].label == "COLUMNS"@
            &&& d.columns.len() > 0 ==> are_labelled(
                kids[0].children,
                d.columns.map_values(|i: ColumnInfoView| i.name),
            )
            &&& d.columns.len() == 0 ==> kids[0].children.len() == 1 && kids[0].children[0].disabled
            &&& x == 1 ==> kids[1].label == "INDEXES"@ && are_labelled(
                kids[1].children,
                d.indexes.map_values(|i: IndexInfoView| i.name),
            )
            &&& c == 1 ==> kids[1 + x].label == "CONSTRAINTS"@ && are_labelled(
                kids[1 + x].children,
                d.constraints.map_values(|i: ConstraintInfoView| i.name),
            )
        }),
{
}

/// A relation stands under its name. Only a table can be opened.
pub proof fn law_relation_is_listed(schema: Seq<char>, rel: RelNodeView, open: Set<Seq<char>>)
    ensures
        ({
            let item = rel_item(schema, rel, open);
            &&& item.label == rel.name
            &&& item.id == relation_id(schema, rel.name)
            &&& !item.disabled
            &&& (item.children.len() > 0 <==> rel.kind == RelationKind::Table)
            &&& rel.kind == RelationKind::Table ==> (item.expanded <==> open.contains(item.id))
        }),
{
}

// ---- what is noted ---------------------------------------------------------------

/// A column is noted with its type, as a key where it is one, and else as one that may not be
/// NULL where it may not.
pub proof fn law_column_is_noted(c: ColumnInfoView)
    ensures
        c.type_label.is_prefix_of(column_note(c)),
        column_note(c).skip(c.type_label.len() as int) == (match (c.is_primary_key, c.nullable) {
            (true, _) => "  PK"@,
            (false, false) => "  NOT NULL"@,
            (false, true) => Seq::empty(),
        }),
{
    let n = column_note(c);
    assert(n.subrange(0, c.type_label.len() as int) =~= c.type_label);
    assert(n.skip(c.type_label.len() as int) =~= (match (c.is_primary_key, c.nullable) {
        (true, _) => "  PK"@,
        (false, false) => "  NOT NULL"@,
        (false, true) => Seq::empty(),
    }));
}

/// An index is noted as primary or unique, a constraint with what it is by the letter of the
/// catalog.
pub proof fn law_indexes_and_constraints_are_noted(ix: IndexInfoView, con: ConstraintInfoView)
    ensures
        ix.is_primary ==> index_note(ix) == "PRIMARY"@,
        !ix.is_primary && ix.is_unique ==> index_note(ix) == "UNIQUE"@,
        !ix.is_primary && !ix.is_unique ==> index_note(ix).len() == 0,
        con.kind == 'p' ==> constraint_note(con) == "PRIMARY KEY"@,
        con.kind == 'f' ==> constraint_note(con) == "FOREIGN KEY"@,
        con.kind == 'u' ==> constraint_note(con) == "UNIQUE"@,
        con.kind == 'c' ==> constraint_note(con) == "CHECK"@,
        con.kind == 'x' ==> constraint_note(con) == "EXCLUDE"@,
        con.kind != 'p' && con.kind != 'f' && con.kind != 'u' && con.kind != 'c' && con.kind != 'x'
            ==> constraint_note(con).len() == 0,
{
}

// ---- the tree as it is shown -----------------------------------------------------

proof fn lemma_loading_keeps_the_tree(w: WorkspaceView, schemas: Seq<Seq<char>>)
    ensures
        w.load_each(schemas).conn == w.conn,
        w.load_each(schemas).cfg == w.cfg,
        w.load_each(schemas).tree == (SchemaTreeView {
            loads: w.load_each(schemas).tree.loads,
            ..w.tree
        }),
    decreases schemas.len(),
{
    if schemas.len() > 0 {
        lemma_loading_keeps_the_tree(w, schemas.drop_last());
    }
}

proof fn lemma_detailing_keeps_the_tree(w: WorkspaceView, tables: Seq<(Seq<char>, Seq<char>)>)
    ensures
        w.detail_each(tables).conn == w.conn,
        w.detail_each(tables).cfg == w.cfg,
        w.detail_each(tables).tree == (SchemaTreeView {
            loads: w.detail_each(tables).tree.loads,
            ..w.tree
        }),
    decreases tables.len(),
{
    if tables.len() > 0 {
        lemma_detailing_keeps_the_tree(w, tables.drop_last());
    }
}

/// The tree is built of the schemas that are loaded, open where the user left it open, under
/// the filter without the white space round it and in lower case.
pub proof fn law_tree_is_built_under_the_filter(w: WorkspaceView)
    ensures
        ({
            let v = w.sync_tree();
            let word = trim(w.tree.filter);
            &&& exists|x: int, y: int| is_core(word, w.tree.filter, x, y)
            &&& v.tree.schemas == w.tree.schemas
            &&& v.tree.expanded == w.tree.expanded
            &&& v.tree.filter == w.tree.filter
            &&& v.tree.items == tree_items(
                if w.conn is Some && w.cfg is Some {
                    Some(w.cfg->0.dbname)
                } else {
                    None
                },
                w.tree.schemas,
                w.tree.expanded,
                lowercase(word),
            )
        }),
{
    reveal(WorkspaceView::sync_tree);
    law_trim_leaves_the_core(w.tree.filter);
    let ws = wanted_schemas(w.tree.schemas, w.tree.expanded, w.tree.loads, w.filtering());
    let wt = wanted_tables(w.tree.schemas, w.tree.expanded, w.tree.loads);
    lemma_loading_keeps_the_tree(w, ws);
    lemma_detailing_keeps_the_tree(w.load_each(ws), wt);
}

/// What is typed into the filter is kept without the white space round it.
pub proof fn law_filter_is_kept(w: WorkspaceView, text: Seq<char>)
    ensures
        w.set_filter(text).tree.filter == trim(text),
        exists|x: int, y: int| is_core(trim(text), text, x, y),
        trim(text) == w.tree.filter ==> w.set_filter(text) == w,
{
    law_trim_leaves_the_core(text);
    law_tree_is_built_under_the_filter(
        w.with_tree(SchemaTreeView { filter: trim(text), ..w.tree }),
    );
}

/// Whatever schemas are wanted are asked for, over the open connection, unless they are on
/// their way.
pub proof fn law_wanted_schemas_are_asked_for(
    w: WorkspaceView,
    schemas: Seq<Seq<char>>,
    k: int,
)
    requires
        w.conn is Some,
        0 <= k < schemas.len(),
        !w.tree.loads.contains(schema_id(schemas[k])),
        forall|j: int| 0 <= j < k ==> schema_id(#[trigger] schemas[j]) != schema_id(schemas[k]),
    ensures
        w.load_each(schemas).outbox.contains(
            EffectView::LoadRelations { conn: w.conn->0, schema: schemas[k] },
        ),
    decreases schemas.len(),
{
    let front = schemas.drop_last();
    let e = EffectView::LoadRelations { conn: w.conn->0, schema: schemas[k] };
    lemma_loading_keeps_the_tree(w, front);
    let v = w.load_each(front);
    if k < front.len() {
        assert(front[k] == schemas[k]);
        assert forall|j: int| 0 <= j < k implies schema_id(#[trigger] front[j]) != schema_id(
            front[k],
        ) by {
            assert(front[j] == schemas[j]);
        }
        law_wanted_schemas_are_asked_for(w, front, k);
        let m = v.outbox.index_of(e);
        assert(w.load_each(schemas).outbox[m] == e);
    } else {
        lemma_loads_of(w, front, schema_id(schemas[k]));
        let u = w.load_each(schemas);
        assert(u.outbox.last() == e);
        assert(u.outbox[u.outbox.len() - 1] == e);
    }
}

proof fn lemma_loads_of(w: WorkspaceView, schemas: Seq<Seq<char>>, id: Seq<char>)
    requires
        !w.tree.loads.contains(id),
        forall|j: int| 0 <= j < schemas.len() ==> schema_id(#[trigger] schemas[j]) != id,
    ensures
        !w.load_each(schemas).tree.loads.contains(id),
    decreases schemas.len(),
{
    if schemas.len() > 0 {
        let front = schemas.drop_last();
        assert forall|j: int| 0 <= j < front.len() implies schema_id(#[trigger] front[j]) != id by {
            assert(front[j] == schemas[j]);
        }
        lemma_loads_of(w, front, id);
        assert(schema_id(schemas[schemas.len() - 1]) != id);
    }
}

/// An item is open after its states were noted exactly where the last of them says so, and as
/// before where none is about it.
pub proof fn law_last_state_counts(
    open: Set<Seq<char>>,
    marks: Seq<(Seq<char>, bool)>,
    id: Seq<char>,
)
    ensures
        (forall|i: int| 0 <= i < marks.len() ==> (#[trigger] marks[i]).0 != id) ==> (noted(
            open,
            marks,
        ).contains(id) <==> open.contains(id)),
        forall|k: int|
            0 <= k < marks.len() && (#[trigger] marks[k]).0 == id && (forall|i: int|
                k < i < marks.len() ==> (#[trigger] marks[i]).0 != id) ==> (noted(
                open,
                marks,
            ).contains(id) <==> marks[k].1),
    decreases marks.len(),
{
    if marks.len() > 0 {
        let front = marks.drop_last();
        law_last_state_counts(open, front, id);
        let n = marks.len() - 1;
        if forall|i: int| 0 <= i < marks.len() ==> (#[trigger] marks[i]).0 != id {
            assert forall|i: int| 0 <= i < front.len() implies (#[trigger] front[i]).0 != id by {
                assert(front[i] == marks[i]);
            }
            assert(marks[n].0 != id);
        }
        assert forall|k: int|
            0 <= k < marks.len() && (#[trigger] marks[k]).0 == id && (forall|i: int|
                k < i < marks.len() ==> (#[trigger] marks[i]).0 != id) implies (noted(
            open,
            marks,
        ).contains(id) <==> marks[k].1) by {
            if k < n {
                assert(marks[n].0 != id);
                assert(front[k] == marks[k]);
                assert forall|i: int| k < i < front.len() implies (#[trigger] front[i]).0
                    != id by {
                    assert(front[i] == marks[i]);
                }
            }
        }
    }
}

/// An open item shows itself and what its children show below it; a closed one only itself.
/// The state of a folder is noted, but for the database and the schemas while a filter stands.
pub proof fn law_open_items_show_their_children(item: TreeItemView, filtering: bool)
    ensures
        visible(item).len() >= 1,
        visible(item)[0] == item.id,
        !item.expanded ==> visible(item).len() == 1,
        item.expanded ==> visible(item).skip(1) == visible_all(item.children),
        item.children.len() == 0 ==> states(item, filtering).len() == 0,
        item.children.len() > 0 ==> ({
            let held = filtering && (item.id == "db"@ || "sch\u{1}"@.is_prefix_of(item.id));
            &&& held ==> states(item, filtering) == all_states(item.children, filtering)
            &&& !held ==> states(item, filtering) == seq![(item.id, item.expanded)] + all_states(
                item.children,
                filtering,
            )
        }),
{
    assert(item.expanded ==> visible(item).skip(1) =~= visible_all(item.children));
    let none = Seq::<(Seq<char>, bool)>::empty();
    assert(none + all_states(item.children, filtering) =~= all_states(item.children, filtering));
}

/// A filter stands where something but white space was typed into it.
pub proof fn law_filter_stands(w: WorkspaceView)
    ensures
        w.filtering() <==> says_something(w.tree.filter),
{
    lemma_says_something(w.tree.filter);
}

/// What the user selects, opens and closes in the tree is taken over as it is shown.
pub proof fn law_tree_is_taken_over(
    w: WorkspaceView,
    items: Seq<TreeItemView>,
    selected: Option<Seq<char>>,
)
    ensures
        ({
            let v = w.on_tree_notify(items, selected);
            &&& v.tree.items == items
            &&& v.tree.sel == selected
            &&& v.tree.expanded == noted(w.tree.expanded, all_states(items, w.filtering()))
            &&& v.tree.schemas == w.tree.schemas
            &&& v.tree.filter == w.tree.filter
        }),
{
    let open = w.tree.expanded;
    let marks = all_states(items, w.filtering());
    let told = w.with_tree(
        SchemaTreeView { items, sel: selected, expanded: noted(open, marks), ..w.tree },
    );
    let ws = wanted_schemas(
        told.tree.schemas,
        told.tree.expanded,
        told.tree.loads,
        told.filtering(),
    );
    let wt = wanted_tables(told.tree.schemas, told.tree.expanded, told.tree.loads);
    lemma_loading_keeps_the_tree(told, ws);
    lemma_detailing_keeps_the_tree(told.load_each(ws), wt);
}

/// The tree is shown with the selection where it was, at the first row of the selected item,
/// and with none where that is not visible.
pub proof fn law_selection_stays(w: WorkspaceView)
    requires
        w.tree.pending_reveal is None,
    ensures
        ({
            let v = w.sync_tree();
            let rows = visible_all(v.tree.items);
            &&& v.outbox.len() > 0
            &&& v.outbox.last() matches EffectView::ShowTree { selected, scroll }
            &&& !scroll
            &&& w.tree.sel is None ==> selected is None
            &&& w.tree.sel matches Some(id) ==> (match selected {
                Some(row) => 0 <= row < rows.len() && rows[row] == id && forall|i: int|
                    0 <= i < row ==> #[trigger] rows[i] != id,
                None => !rows.contains(id),
            })
        }),
{
    reveal(WorkspaceView::sync_tree);
    let ws = wanted_schemas(w.tree.schemas, w.tree.expanded, w.tree.loads, w.filtering());
    let wt = wanted_tables(w.tree.schemas, w.tree.expanded, w.tree.loads);
    lemma_loading_keeps_the_tree(w, ws);
    lemma_detailing_keeps_the_tree(w.load_each(ws), wt);
    let v = w.sync_tree();
    if let Some(id) = w.tree.sel {
        lemma_row(visible_all(v.tree.items), id);
    }
}

proof fn lemma_row(rows: Seq<Seq<char>>, id: Seq<char>)
    ensures
        (match first_row(rows, id) {
            Some(row) => 0 <= row < rows.len() && rows[row] == id && forall|i: int|
                0 <= i < row ==> #[trigger] rows[i] != id,
            None => !rows.contains(id),
        }),
    decreases rows.len(),
{
    if rows.len() > 0 {
        let front = rows.drop_last();
        lemma_row(front, id);
        match first_row(front, id) {
            Some(row) => {
                assert(front[row] == rows[row]);
                assert forall|i: int| 0 <= i < row implies #[trigger] rows[i] != id by {
                    assert(front[i] == rows[i]);
                }
            },
            None => {
                assert forall|i: int| 0 <= i < front.len() implies #[trigger] rows[i] != id by {
                    assert(front[i] == rows[i]);
                    assert(front.contains(front[i]));
                }
            },
        }
    }
}

/// The relation that is selected in the tree is opened, and nothing where the selection is none.
pub proof fn law_selected_relation_is_opened(w: WorkspaceView, id: Seq<char>)
    ensures
        (w.tree.meta.dom().contains(id) && w.tree.meta[id] is Rel) ==> w.open_selected_tree_node(
            Some(id),
        ) == w.open_table_tab(w.tree.meta[id]->Rel_schema, w.tree.meta[id]->Rel_name),
        !(w.tree.meta.dom().contains(id) && w.tree.meta[id] is Rel) ==> w.open_selected_tree_node(
            Some(id),
        ) == w,
        w.open_selected_tree_node(None) == w,
{
}

// ---- what an item is -------------------------------------------------------------

proof fn lemma_kept_holds(rels: Seq<RelNodeView>, needle: Seq<char>, r: int)
    requires
        0 <= r < rels.len(),
        is_kept(rels[r].name, needle),
    ensures
        kept(rels, needle).contains(rels[r]),
    decreases rels.len(),
{
    let front = rels.drop_last();
    let all = kept(rels, needle);
    if r < front.len() {
        assert(front[r] == rels[r]);
        lemma_kept_holds(front, needle, r);
        let k = kept(front, needle).index_of(rels[r]);
        assert(all[k] == rels[r]);
    } else {
        assert(all[all.len() - 1] == rels[r]);
    }
}

proof fn lemma_rel_entries_in(schema: Seq<char>, rels: Seq<RelNodeView>, r: int, e: Entry)
    requires
        0 <= r < rels.len(),
        rel_entries(schema, rels[r]).contains(e),
    ensures
        all_rel_entries(schema, rels).contains(e),
    decreases rels.len(),
{
    let front = rels.drop_last();
    let before = all_rel_entries(schema, front);
    let all = all_rel_entries(schema, rels);
    if r < front.len() {
        assert(front[r] == rels[r]);
        lemma_rel_entries_in(schema, front, r, e);
        let k = before.index_of(e);
        assert(all[k] == e);
    } else {
        let k = rel_entries(schema, rels[r]).index_of(e);
        assert(all[before.len() + k] == e);
    }
}

proof fn lemma_schema_entries_in(nodes: Seq<SchemaNodeView>, needle: Seq<char>, i: int, e: Entry)
    requires
        0 <= i < nodes.len(),
        schema_entries(nodes[i], needle).contains(e),
    ensures
        all_schema_entries(nodes, needle).contains(e),
    decreases nodes.len(),
{
    let front = nodes.drop_last();
    let before = all_schema_entries(front, needle);
    let all = all_schema_entries(nodes, needle);
    if i < front.len() {
        assert(front[i] == nodes[i]);
        lemma_schema_entries_in(front, needle, i, e);
        let k = before.index_of(e);
        assert(all[k] == e);
    } else {
        let k = schema_entries(nodes[i], needle).index_of(e);
        assert(all[before.len() + k] == e);
    }
}

proof fn lemma_relation_is_known(
    dbname: Seq<char>,
    nodes: Seq<SchemaNodeView>,
    needle: Seq<char>,
    i: int,
    r: int,
    e: Entry,
)
    requires
        0 <= i < nodes.len(),
        nodes[i].relations is Some,
        0 <= r < nodes[i].relations->0.len(),
        is_kept(nodes[i].relations->0[r].name, needle),
        rel_entries(nodes[i].name, nodes[i].relations->0[r]).contains(e),
    ensures
        tree_entries(Some(dbname), nodes, needle).contains(e),
{
    let n = nodes[i];
    let rels = n.relations->0;
    let shown = kept(rels, needle);
    lemma_kept_holds(rels, needle, r);
    let m = shown.index_of(rels[r]);
    lemma_rel_entries_in(n.name, shown, m, e);
    let own = all_rel_entries(n.name, shown);
    let k = own.index_of(e);
    let kids = kid_entries(n, needle);
    assert(kids[1 + k] == e);
    let all = schema_entries(n, needle);
    assert(all[1 + k] == e);
    lemma_schema_entries_in(nodes, needle, i, e);
    let q = all_schema_entries(nodes, needle).index_of(e);
    assert(tree_entries(Some(dbname), nodes, needle)[q] == e);
}

/// The item of a relation is known as that relation, with its schema, name and kind.
pub proof fn law_relation_items_are_known(
    dbname: Seq<char>,
    nodes: Seq<SchemaNodeView>,
    needle: Seq<char>,
    i: int,
    r: int,
)
    requires
        0 <= i < nodes.len(),
        nodes[i].relations is Some,
        0 <= r < nodes[i].relations->0.len(),
        answers(nodes[i].relations->0[r].name, needle),
    ensures
        ({
            let schema = nodes[i].name;
            let rel = nodes[i].relations->0[r];
            tree_entries(Some(dbname), nodes, needle).contains(
                (
                    relation_id(schema, rel.name),
                    NodeMetaView::Rel { schema, name: rel.name, kind: rel.kind },
                ),
            )
        }),
{
    let schema = nodes[i].name;
    let rel = nodes[i].relations->0[r];
    let e = (
        relation_id(schema, rel.name),
        NodeMetaView::Rel { schema, name: rel.name, kind: rel.kind },
    );
    assert(rel_entries(schema, rel)[0] == e);
    lemma_answers(rel.name, needle);
    lemma_relation_is_known(dbname, nodes, needle, i, r, e);
}

/// The item of a column, an index or a constraint is known by its name, with the note on it.
pub proof fn law_leaves_bear_their_notes(
    schema: Seq<char>,
    rel: Seq<char>,
    d: RelationDetailView,
    k: int,
)
    ensures
        0 <= k < d.columns.len() ==> detail_entries(schema, rel, d).contains(
            (
                node(seq!["col"@, schema, rel, d.columns[k].name]),
                NodeMetaView::Leaf { name: d.columns[k].name, meta: column_note(d.columns[k]) },
            ),
        ),
        0 <= k < d.indexes.len() ==> detail_entries(schema, rel, d).contains(
            (
                node(seq!["idx"@, schema, rel, d.indexes[k].name]),
                NodeMetaView::Leaf { name: d.indexes[k].name, meta: index_note(d.indexes[k]) },
            ),
        ),
        0 <= k < d.constraints.len() ==> detail_entries(schema, rel, d).contains(
            (
                node(seq!["con"@, schema, rel, d.constraints[k].name]),
                NodeMetaView::Leaf {
                    name: d.constraints[k].name,
                    meta: constraint_note(d.constraints[k]),
                },
            ),
        ),
{
    let all = detail_entries(schema, rel, d);
    let c = d.columns.len() as int;
    let f: int = if c == 0 {
        1
    } else {
        0
    };
    let x: int = if d.indexes.len() == 0 {
        0
    } else {
        (1 + d.indexes.len()) as int
    };
    if 0 <= k < d.columns.len() {
        assert(all[1 + k] == (
            node(seq!["col"@, schema, rel, d.columns[k].name]),
            NodeMetaView::Leaf { name: d.columns[k].name, meta: column_note(d.columns[k]) },
        ));
    }
    if 0 <= k < d.indexes.len() {
        assert(all[1 + c + f + 1 + k] == (
            node(seq!["idx"@, schema, rel, d.indexes[k].name]),
            NodeMetaView::Leaf { name: d.indexes[k].name, meta: index_note(d.indexes[k]) },
        ));
    }
    if 0 <= k < d.constraints.len() {
        assert(all[1 + c + f + x + 1 + k] == (
            node(seq!["con"@, schema, rel, d.constraints[k].name]),
            NodeMetaView::Leaf {
                name: d.constraints[k].name,
                meta: constraint_note(d.constraints[k]),
            },
        ));
    }
}

/// A schema stands under its name and is open where it was left open, and under any filter.
pub proof fn law_schema_is_listed(n: SchemaNodeView, open: Set<Seq<char>>, needle: Seq<char>)
    ensures
        ({
            let item = schema_item(n, open, needle);
            &&& item.label == n.name
            &&& item.id == schema_id(n.name)
            &&& !item.disabled
            &&& (item.expanded <==> needle.len() > 0 || open.contains(schema_id(n.name)))
            &&& item.children == schema_kids(n, open, needle)
        }),
{
}

/// The whole tree is the database, under its name, with the schemas that are listed; without a
/// database there is none.
pub proof fn law_database_is_listed(
    dbname: Option<Seq<char>>,
    nodes: Seq<SchemaNodeView>,
    open: Set<Seq<char>>,
    needle: Seq<char>,
)
    ensures
        dbname is None ==> tree_items(dbname, nodes, open, needle).len() == 0,
        dbname matches Some(name) ==> ({
            let items = tree_items(dbname, nodes, open, needle);
            &&& items.len() == 1
            &&& items[0].label == name
            &&& items[0].children == schema_items(nodes, open, needle)
            &&& (items[0].expanded <==> needle.len() > 0 || open.contains("db"@))
        }),
{
}

/// Opening or closing a schema of the sidebar turns that one round and no other.
pub proof fn law_schema_is_turned_round(w: WorkspaceView, ix: usize, id: Seq<char>)
    requires
        ix < w.tree.schemas.len(),
    ensures
        ({
            let own = schema_id(w.tree.schemas[ix as int].name);
            let v = w.toggle_schema(ix);
            &&& v.tree.expanded.contains(own) == !w.tree.expanded.contains(own)
            &&& id != own ==> v.tree.expanded.contains(id) == w.tree.expanded.contains(id)
        }),
{
    let own = schema_id(w.tree.schemas[ix as int].name);
    let open = w.tree.expanded;
    law_tree_is_built_under_the_filter(
        w.with_tree(
            SchemaTreeView {
                expanded: if open.contains(own) {
                    open.remove(own)
                } else {
                    open.insert(own)
                },
                ..w.tree
            },
        ),
    );
}

} // verus!
