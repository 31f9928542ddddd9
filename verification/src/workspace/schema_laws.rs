//! What holds of the schema tree of the window, whatever was opened and loaded.

use vstd::prelude::*;
use crate::tree::{
    is_kept, kept, law_first_row, needle_of, rel_item, rel_items, schema_item, schema_items,
    schema_kids, schema_shown, tree_items, visible, visible_all, RelNodeView, SchemaNodeView,
    TreeItemView,
};
use crate::workspace::schema::{
    relation_id, schema_id, tables_id, wanted_schemas, wanted_tables, wanted_tables_of,
};
use crate::workspace::state::{SchemaTreeView, WorkspaceView};

verus! {

// ---- what is visible -------------------------------------------------------------------

proof fn lemma_visible_among(items: Seq<TreeItemView>, k: int, id: Seq<char>)
    requires
        0 <= k < items.len(),
        visible(items[k]).contains(id),
    ensures
        visible_all(items).contains(id),
    decreases items.len(),
{
    let front = items.drop_last();
    let a = visible_all(front);
    let b = visible(items.last());
    if k == items.len() - 1 {
        let j = choose|j: int| 0 <= j < b.len() && b[j] == id;
        assert((a + b)[a.len() + j] == id);
    } else {
        assert(front[k] == items[k]);
        lemma_visible_among(front, k, id);
        let j = choose|j: int| 0 <= j < a.len() && a[j] == id;
        assert((a + b)[j] == id);
    }
}

proof fn lemma_visible_below(item: TreeItemView, k: int, id: Seq<char>)
    requires
        item.expanded,
        0 <= k < item.children.len(),
        visible(item.children[k]).contains(id),
    ensures
        visible(item).contains(id),
{
    lemma_visible_among(item.children, k, id);
    let below = visible_all(item.children);
    let j = choose|j: int| 0 <= j < below.len() && below[j] == id;
    assert(visible(item)[1 + j] == id);
}

proof fn lemma_visible_itself(item: TreeItemView)
    ensures
        visible(item).contains(item.id),
{
    assert(visible(item)[0] == item.id);
}

proof fn lemma_kept_has(rels: Seq<RelNodeView>, needle: Seq<char>, r: int) -> (k: int)
    requires
        0 <= r < rels.len(),
        is_kept(rels[r].name, needle),
    ensures
        0 <= k < kept(rels, needle).len(),
        kept(rels, needle)[k] == rels[r],
    decreases rels.len(),
{
    let front = rels.drop_last();
    if r == rels.len() - 1 {
        kept(front, needle).len() as int
    } else {
        assert(front[r] == rels[r]);
        lemma_kept_has(front, needle, r)
    }
}

proof fn lemma_schema_item_at(
    nodes: Seq<SchemaNodeView>,
    open: Set<Seq<char>>,
    needle: Seq<char>,
    i: int,
) -> (k: int)
    requires
        0 <= i < nodes.len(),
        schema_shown(nodes[i], needle),
    ensures
        0 <= k < schema_items(nodes, open, needle).len(),
        schema_items(nodes, open, needle)[k] == schema_item(nodes[i], open, needle),
    decreases nodes.len(),
{
    let front = nodes.drop_last();
    if i == nodes.len() - 1 {
        schema_items(front, open, needle).len() as int
    } else {
        assert(front[i] == nodes[i]);
        lemma_schema_item_at(front, open, needle, i)
    }
}

/// A relation that is loaded and that the filter keeps is visible as soon as the database,
/// its schema and the tables of the schema are open.
pub proof fn law_loaded_relation_is_visible(
    dbname: Seq<char>,
    nodes: Seq<SchemaNodeView>,
    open: Set<Seq<char>>,
    needle: Seq<char>,
    i: int,
    r: int,
)
    requires
        0 <= i < nodes.len(),
        nodes[i].relations is Some,
        0 <= r < nodes[i].relations->0.len(),
        is_kept(nodes[i].relations->0[r].name, needle),
        open.contains("db"@),
        open.contains(schema_id(nodes[i].name)),
        open.contains(tables_id(nodes[i].name)),
    ensures
        visible_all(tree_items(Some(dbname), nodes, open, needle)).contains(
            relation_id(nodes[i].name, nodes[i].relations->0[r].name),
        ),
{
    let n = nodes[i];
    let rels = n.relations->0;
    let id = relation_id(n.name, rels[r].name);
    let shown = kept(rels, needle);
    let k = lemma_kept_has(rels, needle, r);
    let below = rel_items(n.name, shown, open);
    assert(below[k] == rel_item(n.name, rels[r], open));
    lemma_visible_itself(below[k]);
    let kids = schema_kids(n, open, needle);
    let group = kids[0];
    assert(group.children == below);
    lemma_visible_below(group, k, id);
    let item = schema_item(n, open, needle);
    assert(item.children == kids);
    lemma_visible_below(item, 0, id);
    let m = lemma_schema_item_at(nodes, open, needle, i);
    let roots = tree_items(Some(dbname), nodes, open, needle);
    lemma_visible_below(roots[0], m, id);
    lemma_visible_among(roots, 0, id);
}

/// Revealing a relation that is loaded and that the filter keeps selects the row in which
/// it stands and scrolls to it, and nothing waits to be revealed any more.
pub proof fn law_reveal_selects_the_relation(w: WorkspaceView, i: int, r: int)
    requires
        w.dbname() is Some,
        0 <= i < w.tree.schemas.len(),
        w.tree.schemas[i].relations is Some,
        0 <= r < w.tree.schemas[i].relations->0.len(),
        is_kept(w.tree.schemas[i].relations->0[r].name, needle_of(w.tree.filter)),
    ensures
        ({
            let schema = w.tree.schemas[i].name;
            let table = w.tree.schemas[i].relations->0[r].name;
            let v = w.reveal_relation(schema, table);
            &&& v.tree.pending_reveal is None
            &&& v.outbox.last() is ShowTree
            &&& v.outbox.last()->scroll
            &&& v.outbox.last()->selected matches Some(row) && 0 <= row < visible_all(
                v.tree.items,
            ).len() && visible_all(v.tree.items)[row] == relation_id(schema, table)
        }),
{
    reveal(WorkspaceView::sync_tree);
    let schema = w.tree.schemas[i].name;
    let table = w.tree.schemas[i].relations->0[r].name;
    let opened = w.with_tree(
        SchemaTreeView {
            expanded: w.tree.expanded.insert("db"@).insert(schema_id(schema)).insert(
                tables_id(schema),
            ),
            pending_reveal: Some(relation_id(schema, table)),
            ..w.tree
        },
    );
    let asked = opened.ensure_loads();
    lemma_ensure_loads(opened);
    law_loaded_relation_is_visible(
        w.dbname()->0,
        asked.tree.schemas,
        asked.tree.expanded,
        needle_of(asked.tree.filter),
        i,
        r,
    );
    law_first_row(visible_all(asked.tree_items()), relation_id(schema, table));
}

// ---- what is asked for -----------------------------------------------------------------

proof fn lemma_load_each(w: WorkspaceView, names: Seq<Seq<char>>)
    ensures
        ({
            let v = w.load_each(names);
            &&& v == (WorkspaceView { tree: v.tree, outbox: v.outbox, ..w })
            &&& v.tree == (SchemaTreeView { loads: v.tree.loads, ..w.tree })
            &&& w.tree.loads.subset_of(v.tree.loads)
            &&& w.conn is Some ==> forall|j: int|
                0 <= j < names.len() ==> v.tree.loads.contains(schema_id(#[trigger] names[j]))
            &&& w.conn is None ==> v == w
        }),
    decreases names.len(),
{
    if names.len() > 0 {
        let front = names.drop_last();
        lemma_load_each(w, front);
        let v = w.load_each(names);
        assert forall|j: int| w.conn is Some && 0 <= j < names.len() implies v.tree.loads.contains(
            schema_id(#[trigger] names[j]),
        ) by {
            if j < front.len() {
                assert(front[j] == names[j]);
            }
        }
    }
}

proof fn lemma_detail_each(w: WorkspaceView, tables: Seq<(Seq<char>, Seq<char>)>)
    ensures
        ({
            let v = w.detail_each(tables);
            &&& v == (WorkspaceView { tree: v.tree, outbox: v.outbox, ..w })
            &&& v.tree == (SchemaTreeView { loads: v.tree.loads, ..w.tree })
            &&& w.tree.loads.subset_of(v.tree.loads)
            &&& w.conn is Some ==> forall|j: int|
                0 <= j < tables.len() ==> v.tree.loads.contains(
                    relation_id((#[trigger] tables[j]).0, tables[j].1),
                )
            &&& w.conn is None ==> v == w
        }),
    decreases tables.len(),
{
    if tables.len() > 0 {
        let front = tables.drop_last();
        lemma_detail_each(w, front);
        let v = w.detail_each(tables);
        assert forall|j: int| w.conn is Some && 0 <= j < tables.len() implies v.tree.loads.contains(
            relation_id((#[trigger] tables[j]).0, tables[j].1),
        ) by {
            if j < front.len() {
                assert(front[j] == tables[j]);
            }
        }
    }
}

proof fn lemma_ensure_loads(w: WorkspaceView)
    ensures
        ({
            let v = w.ensure_loads();
            &&& v == (WorkspaceView { tree: v.tree, outbox: v.outbox, ..w })
            &&& v.tree == (SchemaTreeView { loads: v.tree.loads, ..w.tree })
            &&& w.tree.loads.subset_of(v.tree.loads)
        }),
{
    let ws = wanted_schemas(w.tree.schemas, w.tree.expanded, w.tree.loads, w.filtering());
    let wt = wanted_tables(w.tree.schemas, w.tree.expanded, w.tree.loads);
    lemma_load_each(w, ws);
    lemma_detail_each(w.load_each(ws), wt);
}

proof fn lemma_no_schema_wanted(
    nodes: Seq<SchemaNodeView>,
    open: Set<Seq<char>>,
    loads: Set<Seq<char>>,
    more: Set<Seq<char>>,
    filtering: bool,
)
    requires
        loads.subset_of(more),
        forall|j: int|
            0 <= j < wanted_schemas(nodes, open, loads, filtering).len() ==> more.contains(
                schema_id(#[trigger] wanted_schemas(nodes, open, loads, filtering)[j]),
            ),
    ensures
        wanted_schemas(nodes, open, more, filtering).len() == 0,
    decreases nodes.len(),
{
    if nodes.len() > 0 {
        let front = nodes.drop_last();
        let a = wanted_schemas(front, open, loads, filtering);
        let b = wanted_schemas(nodes, open, loads, filtering);
        assert forall|j: int| 0 <= j < a.len() implies more.contains(
            schema_id(#[trigger] a[j]),
        ) by {
            assert(b[j] == a[j]);
        }
        lemma_no_schema_wanted(front, open, loads, more, filtering);
        if b.len() > a.len() {
            assert(b[a.len() as int] == nodes.last().name);
        }
    }
}

proof fn lemma_no_table_wanted_of(
    schema: Seq<char>,
    rels: Seq<RelNodeView>,
    open: Set<Seq<char>>,
    loads: Set<Seq<char>>,
    more: Set<Seq<char>>,
)
    requires
        loads.subset_of(more),
        forall|j: int|
            0 <= j < wanted_tables_of(schema, rels, open, loads).len() ==> more.contains(
                relation_id(
                    (#[trigger] wanted_tables_of(schema, rels, open, loads)[j]).0,
                    wanted_tables_of(schema, rels, open, loads)[j].1,
                ),
            ),
    ensures
        wanted_tables_of(schema, rels, open, more).len() == 0,
    decreases rels.len(),
{
    if rels.len() > 0 {
        let front = rels.drop_last();
        let a = wanted_tables_of(schema, front, open, loads);
        let b = wanted_tables_of(schema, rels, open, loads);
        assert forall|j: int| 0 <= j < a.len() implies more.contains(
            relation_id((#[trigger] a[j]).0, a[j].1),
        ) by {
            assert(b[j] == a[j]);
        }
        lemma_no_table_wanted_of(schema, front, open, loads, more);
        if b.len() > a.len() {
            assert(b[a.len() as int] == (schema, rels.last().name));
        }
    }
}

proof fn lemma_no_table_wanted(
    nodes: Seq<SchemaNodeView>,
    open: Set<Seq<char>>,
    loads: Set<Seq<char>>,
    more: Set<Seq<char>>,
)
    requires
        loads.subset_of(more),
        forall|j: int|
            0 <= j < wanted_tables(nodes, open, loads).len() ==> more.contains(
                relation_id(
                    (#[trigger] wanted_tables(nodes, open, loads)[j]).0,
                    wanted_tables(nodes, open, loads)[j].1,
                ),
            ),
    ensures
        wanted_tables(nodes, open, more).len() == 0,
    decreases nodes.len(),
{
    if nodes.len() > 0 {
        let front = nodes.drop_last();
        let a = wanted_tables(front, open, loads);
        let b = wanted_tables(nodes, open, loads);
        assert forall|j: int| 0 <= j < a.len() implies more.contains(
            relation_id((#[trigger] a[j]).0, a[j].1),
        ) by {
            assert(b[j] == a[j]);
        }
        lemma_no_table_wanted(front, open, loads, more);
        if let Some(rels) = nodes.last().relations {
            let c = wanted_tables_of(nodes.last().name, rels, open, loads);
            assert forall|j: int| 0 <= j < c.len() implies more.contains(
                relation_id((#[trigger] c[j]).0, c[j].1),
            ) by {
                assert(b[a.len() + j] == c[j]);
            }
            lemma_no_table_wanted_of(nodes.last().name, rels, open, loads, more);
        }
    }
}

/// Nothing is asked for twice: after everything that is open was asked for, asking again
/// changes nothing until an answer comes.
pub proof fn law_nothing_is_asked_for_twice(w: WorkspaceView)
    ensures
        w.ensure_loads().ensure_loads() == w.ensure_loads(),
{
    let nodes = w.tree.schemas;
    let open = w.tree.expanded;
    let loads = w.tree.loads;
    let filtering = w.filtering();
    let ws = wanted_schemas(nodes, open, loads, filtering);
    let wt = wanted_tables(nodes, open, loads);
    let v = w.ensure_loads();
    lemma_ensure_loads(w);
    lemma_load_each(w, ws);
    lemma_detail_each(w.load_each(ws), wt);
    if w.conn is Some {
        lemma_no_schema_wanted(nodes, open, loads, v.tree.loads, filtering);
        lemma_no_table_wanted(nodes, open, loads, v.tree.loads);
    } else {
        assert(v == w);
    }
}

} // verus!
