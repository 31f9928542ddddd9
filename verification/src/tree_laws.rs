//! What holds of every schema tree.

use vstd::prelude::*;
use crate::introspect::{RelationDetailView, RelationKind};
use crate::tree::{
    all_rel_entries, all_schema_entries, all_states, any_change, column_leaves, constraint_leaves,
    detail_entries, detail_items, entry_map, filler, filler_id, group_entries, group_item,
    group_of, index_leaves, kept, kid_entries, leaf_entries, leaf_items, node, noted,
    object_entries, object_items, object_leaves, rel_entries, rel_item, rel_items,
    schema_entries, schema_item, schema_items, schema_kids, schema_shown, states, tree_entries,
    tree_items, Entry, LeafView, NodeMetaView, RelNodeView, SchemaNodeView, TreeItemView,
};

verus! {

// ---- every item is known -------------------------------------------------------------

/// Whether an identifier is among the entries.
pub open spec fn known(entries: Seq<Entry>, id: Seq<char>) -> bool {
    exists|k: int| 0 <= k < entries.len() && (#[trigger] entries[k]).0 == id
}

/// Whether an item and everything below it is among the entries.
pub open spec fn covered(item: TreeItemView, entries: Seq<Entry>) -> bool
    decreases item,
{
    known(entries, item.id) && forall|i: int|
        0 <= i < item.children.len() ==> covered(#[trigger] item.children[i], entries)
}

/// Whether items and everything below them are among the entries.
pub open spec fn all_covered(items: Seq<TreeItemView>, entries: Seq<Entry>) -> bool {
    forall|i: int| 0 <= i < items.len() ==> covered(#[trigger] items[i], entries)
}

proof fn lemma_known_within(a: Seq<Entry>, b: Seq<Entry>, c: Seq<Entry>, id: Seq<char>)
    requires
        known(b, id),
    ensures
        known(a + b + c, id),
{
    let k = choose|k: int| 0 <= k < b.len() && (#[trigger] b[k]).0 == id;
    assert((a + b + c)[a.len() + k] == b[k]);
}

proof fn lemma_covered_within(item: TreeItemView, a: Seq<Entry>, b: Seq<Entry>, c: Seq<Entry>)
    requires
        covered(item, b),
    ensures
        covered(item, a + b + c),
    decreases item,
{
    lemma_known_within(a, b, c, item.id);
    assert forall|i: int| 0 <= i < item.children.len() implies covered(
        #[trigger] item.children[i],
        a + b + c,
    ) by {
        lemma_covered_within(item.children[i], a, b, c);
    }
}

proof fn lemma_all_within(
    items: Seq<TreeItemView>,
    a: Seq<Entry>,
    b: Seq<Entry>,
    c: Seq<Entry>,
    all: Seq<Entry>,
)
    requires
        all_covered(items, b),
        all == a + b + c,
    ensures
        all_covered(items, all),
{
    assert forall|i: int| 0 <= i < items.len() implies covered(#[trigger] items[i], all) by {
        lemma_covered_within(items[i], a, b, c);
    }
}

proof fn lemma_group_covered(
    gid: Seq<char>,
    label: Seq<char>,
    children: Seq<TreeItemView>,
    open: bool,
    entries: Seq<Entry>,
)
    requires
        known(entries, gid),
        all_covered(children, entries),
    ensures
        covered(group_item(gid, label, children, open), entries),
{
}

proof fn lemma_leaves_covered(leaves: Seq<LeafView>)
    ensures
        all_covered(leaf_items(leaves), leaf_entries(leaves)),
{
    assert forall|i: int| 0 <= i < leaves.len() implies covered(
        #[trigger] leaf_items(leaves)[i],
        leaf_entries(leaves),
    ) by {
        assert(leaf_entries(leaves)[i].0 == leaves[i].0);
    }
}

proof fn lemma_section_covered(
    gid: Seq<char>,
    label: Seq<char>,
    leaves: Seq<LeafView>,
    open: Set<Seq<char>>,
)
    ensures
        all_covered(group_of(gid, label, leaves, open), group_entries(gid, leaves)),
{
    if leaves.len() > 0 {
        let entries = group_entries(gid, leaves);
        assert(entries[0].0 == gid);
        lemma_leaves_covered(leaves);
        let none = Seq::<Entry>::empty();
        lemma_all_within(
            leaf_items(leaves),
            seq![(gid, NodeMetaView::Group)],
            leaf_entries(leaves),
            none,
            seq![(gid, NodeMetaView::Group)] + leaf_entries(leaves) + none,
        );
        assert(seq![(gid, NodeMetaView::Group)] + leaf_entries(leaves) + none =~= entries);
        lemma_group_covered(gid, label, leaf_items(leaves), open.contains(gid), entries);
    }
}

proof fn lemma_filler_covered(parent: Seq<char>, label: Seq<char>)
    ensures
        covered(filler(parent, label), seq![(filler_id(parent), NodeMetaView::Placeholder)]),
{
    assert(seq![(filler_id(parent), NodeMetaView::Placeholder)][0].0 == filler_id(parent));
}

proof fn lemma_detail_covered(
    schema: Seq<char>,
    rel: Seq<char>,
    d: RelationDetailView,
    open: Set<Seq<char>>,
)
    ensures
        all_covered(detail_items(schema, rel, d, open), detail_entries(schema, rel, d)),
{
    let none = Seq::<Entry>::empty();
    let all = detail_entries(schema, rel, d);
    let gid = node(seq!["cols"@, schema, rel]);
    let columns = column_leaves(schema, rel, d.columns);
    let own = seq![(gid, NodeMetaView::Group)];
    let fill: Seq<Entry> = if columns.len() == 0 {
        seq![(filler_id(gid), NodeMetaView::Placeholder)]
    } else {
        Seq::empty()
    };
    let iid = node(seq!["idxs"@, schema, rel]);
    let cid = node(seq!["cons"@, schema, rel]);
    let il = index_leaves(schema, rel, d.indexes);
    let cl = constraint_leaves(schema, rel, d.constraints);
    let ie = group_entries(iid, il);
    let ce = group_entries(cid, cl);
    let kids = if columns.len() == 0 {
        seq![filler(gid, "(none)"@)]
    } else {
        leaf_items(columns)
    };
    assert(all[0].0 == gid);
    if columns.len() == 0 {
        lemma_filler_covered(gid, "(none)"@);
        assert(all =~= (own + leaf_entries(columns)) + fill + (ie + ce));
        lemma_all_within(kids, own + leaf_entries(columns), fill, ie + ce, all);
    } else {
        lemma_leaves_covered(columns);
        assert(all =~= own + leaf_entries(columns) + (fill + ie + ce));
        lemma_all_within(kids, own, leaf_entries(columns), fill + ie + ce, all);
    }
    lemma_group_covered(gid, "COLUMNS"@, kids, open.contains(gid), all);
    lemma_section_covered(iid, "INDEXES"@, il, open);
    assert(all =~= (own + leaf_entries(columns) + fill) + ie + ce);
    lemma_all_within(
        group_of(iid, "INDEXES"@, il, open),
        own + leaf_entries(columns) + fill,
        ie,
        ce,
        all,
    );
    lemma_section_covered(cid, "CONSTRAINTS"@, cl, open);
    assert(all =~= (own + leaf_entries(columns) + fill + ie) + ce + none);
    lemma_all_within(
        group_of(cid, "CONSTRAINTS"@, cl, open),
        own + leaf_entries(columns) + fill + ie,
        ce,
        none,
        all,
    );
}

proof fn lemma_rel_covered(schema: Seq<char>, rel: RelNodeView, open: Set<Seq<char>>)
    ensures
        covered(rel_item(schema, rel, open), rel_entries(schema, rel)),
{
    let none = Seq::<Entry>::empty();
    let rid = node(seq!["rel"@, schema, rel.name]);
    let all = rel_entries(schema, rel);
    let own = seq![(rid, NodeMetaView::Rel { schema, name: rel.name, kind: rel.kind })];
    assert(all[0].0 == rid);
    if rel.kind == RelationKind::Table {
        match rel.detail {
            None => {
                let fill = seq![(filler_id(rid), NodeMetaView::Placeholder)];
                lemma_filler_covered(rid, "loading\u{2026}"@);
                assert(all =~= own + fill + none);
                lemma_all_within(seq![filler(rid, "loading\u{2026}"@)], own, fill, none, all);
            },
            Some(d) => {
                lemma_detail_covered(schema, rel.name, d, open);
                assert(all =~= own + detail_entries(schema, rel.name, d) + none);
                lemma_all_within(
                    detail_items(schema, rel.name, d, open),
                    own,
                    detail_entries(schema, rel.name, d),
                    none,
                    all,
                );
            },
        }
    }
}

proof fn lemma_rels_covered(schema: Seq<char>, rels: Seq<RelNodeView>, open: Set<Seq<char>>)
    ensures
        all_covered(rel_items(schema, rels, open), all_rel_entries(schema, rels)),
    decreases rels.len(),
{
    if rels.len() > 0 {
        let none = Seq::<Entry>::empty();
        let front = rels.drop_last();
        let all = all_rel_entries(schema, rels);
        lemma_rels_covered(schema, front, open);
        lemma_rel_covered(schema, rels.last(), open);
        let items = rel_items(schema, rels, open);
        assert forall|i: int| 0 <= i < items.len() implies covered(#[trigger] items[i], all) by {
            if i < front.len() {
                assert(items[i] == rel_items(schema, front, open)[i]);
                lemma_covered_within(
                    items[i],
                    none,
                    all_rel_entries(schema, front),
                    rel_entries(schema, rels.last()),
                );
                assert(none + all_rel_entries(schema, front) + rel_entries(schema, rels.last())
                    =~= all);
            } else {
                lemma_covered_within(
                    items[i],
                    all_rel_entries(schema, front),
                    rel_entries(schema, rels.last()),
                    none,
                );
                assert(all_rel_entries(schema, front) + rel_entries(schema, rels.last()) + none
                    =~= all);
            }
        }
    }
}

proof fn lemma_objects_covered(n: SchemaNodeView, open: Set<Seq<char>>, needle: Seq<char>)
    ensures
        all_covered(object_items(n, open, needle), object_entries(n, needle)),
{
    if needle.len() == 0 {
        if let Some(o) = n.objects {
            let none = Seq::<Entry>::empty();
            let sl = object_leaves("seq"@, n.name, o.sequences);
            let fl = object_leaves("func"@, n.name, o.functions);
            let sid = node(seq!["seqs"@, n.name]);
            let fid = node(seq!["funcs"@, n.name]);
            let all = object_entries(n, needle);
            lemma_section_covered(sid, "SEQUENCES"@, sl, open);
            lemma_section_covered(fid, "FUNCTIONS"@, fl, open);
            assert(all =~= none + group_entries(sid, sl) + group_entries(fid, fl));
            assert(all =~= group_entries(sid, sl) + group_entries(fid, fl) + none);
            lemma_all_within(
                group_of(sid, "SEQUENCES"@, sl, open),
                none,
                group_entries(sid, sl),
                group_entries(fid, fl),
                all,
            );
            lemma_all_within(
                group_of(fid, "FUNCTIONS"@, fl, open),
                group_entries(sid, sl),
                group_entries(fid, fl),
                none,
                all,
            );
        }
    }
}

proof fn lemma_kids_covered(n: SchemaNodeView, open: Set<Seq<char>>, needle: Seq<char>)
    ensures
        all_covered(schema_kids(n, open, needle), kid_entries(n, needle)),
{
    let none = Seq::<Entry>::empty();
    let all = kid_entries(n, needle);
    match n.relations {
        None => {
            lemma_filler_covered(node(seq!["sch"@, n.name]), "loading\u{2026}"@);
        },
        Some(rels) => {
            let gid = node(seq!["tbls"@, n.name]);
            let shown = kept(rels, needle);
            let own = seq![(gid, NodeMetaView::Group)];
            let re = all_rel_entries(n.name, shown);
            let fill: Seq<Entry> = if shown.len() == 0 {
                seq![(filler_id(gid), NodeMetaView::Placeholder)]
            } else {
                Seq::empty()
            };
            let oe = object_entries(n, needle);
            assert(all[0].0 == gid);
            let kids = if shown.len() == 0 {
                seq![filler(gid, "(empty)"@)]
            } else {
                rel_items(n.name, shown, open)
            };
            if shown.len() == 0 {
                lemma_filler_covered(gid, "(empty)"@);
                assert(all =~= (own + re) + fill + oe);
                lemma_all_within(kids, own + re, fill, oe, all);
            } else {
                lemma_rels_covered(n.name, shown, open);
                assert(all =~= own + re + (fill + oe));
                lemma_all_within(kids, own, re, fill + oe, all);
            }
            lemma_group_covered(
                gid,
                "TABLES"@,
                kids,
                needle.len() > 0 || open.contains(gid),
                all,
            );
            lemma_objects_covered(n, open, needle);
            assert(all =~= (own + re + fill) + oe + none);
            lemma_all_within(object_items(n, open, needle), own + re + fill, oe, none, all);
        },
    }
}

proof fn lemma_schemas_covered(nodes: Seq<SchemaNodeView>, open: Set<Seq<char>>, needle: Seq<char>)
    ensures
        all_covered(schema_items(nodes, open, needle), all_schema_entries(nodes, needle)),
    decreases nodes.len(),
{
    if nodes.len() > 0 {
        let none = Seq::<Entry>::empty();
        let n = nodes.last();
        let front = all_schema_entries(nodes.drop_last(), needle);
        let all = all_schema_entries(nodes, needle);
        lemma_schemas_covered(nodes.drop_last(), open, needle);
        assert(none + front + schema_entries(n, needle) =~= all);
        lemma_all_within(
            schema_items(nodes.drop_last(), open, needle),
            none,
            front,
            schema_entries(n, needle),
            all,
        );
        if schema_shown(n, needle) {
            let sid = node(seq!["sch"@, n.name]);
            let own = seq![(sid, NodeMetaView::Schema { name: n.name })];
            lemma_kids_covered(n, open, needle);
            assert(all =~= front + kid_entries(n, needle) + own);
            lemma_all_within(
                schema_kids(n, open, needle),
                front,
                kid_entries(n, needle),
                own,
                all,
            );
            assert(all[all.len() - 1].0 == sid);
            lemma_group_covered(
                sid,
                n.name,
                schema_kids(n, open, needle),
                needle.len() > 0 || open.contains(sid),
                all,
            );
        }
    }
}

proof fn lemma_entry_map(entries: Seq<Entry>, id: Seq<char>)
    requires
        known(entries, id),
    ensures
        entry_map(entries).dom().contains(id),
    decreases entries.len(),
{
    if entries.last().0 != id {
        let k = choose|k: int| 0 <= k < entries.len() && (#[trigger] entries[k]).0 == id;
        assert(entries.drop_last()[k].0 == id);
        lemma_entry_map(entries.drop_last(), id);
    }
}

/// Whether it is known of an item and everything below it what it is.
pub open spec fn explained(item: TreeItemView, meta: Map<Seq<char>, NodeMetaView>) -> bool
    decreases item,
{
    meta.dom().contains(item.id) && forall|i: int|
        0 <= i < item.children.len() ==> explained(#[trigger] item.children[i], meta)
}

proof fn lemma_explained(item: TreeItemView, entries: Seq<Entry>)
    requires
        covered(item, entries),
    ensures
        explained(item, entry_map(entries)),
    decreases item,
{
    lemma_entry_map(entries, item.id);
    assert forall|i: int| 0 <= i < item.children.len() implies explained(
        #[trigger] item.children[i],
        entry_map(entries),
    ) by {
        lemma_explained(item.children[i], entries);
    }
}

/// Of every item of a tree that was built it is known what it is.
pub proof fn law_every_item_is_explained(
    dbname: Option<Seq<char>>,
    nodes: Seq<SchemaNodeView>,
    open: Set<Seq<char>>,
    needle: Seq<char>,
)
    ensures
        forall|i: int|
            0 <= i < tree_items(dbname, nodes, open, needle).len() ==> explained(
                #[trigger] tree_items(dbname, nodes, open, needle)[i],
                entry_map(tree_entries(dbname, nodes, needle)),
            ),
{
    if let Some(name) = dbname {
        let none = Seq::<Entry>::empty();
        let entries = tree_entries(dbname, nodes, needle);
        let own = seq![("db"@, NodeMetaView::Db)];
        lemma_schemas_covered(nodes, open, needle);
        assert(entries =~= none + all_schema_entries(nodes, needle) + own);
        lemma_all_within(
            schema_items(nodes, open, needle),
            none,
            all_schema_entries(nodes, needle),
            own,
            entries,
        );
        assert(entries[entries.len() - 1].0 == "db"@);
        let item = tree_items(dbname, nodes, open, needle)[0];
        lemma_group_covered(
            "db"@,
            name,
            schema_items(nodes, open, needle),
            needle.len() > 0 || open.contains("db"@),
            entries,
        );
        lemma_explained(item, entries);
    }
}

// ---- what is open ----------------------------------------------------------------------

/// Whether states agree with a set of open items.
pub open spec fn agrees(marks: Seq<(Seq<char>, bool)>, open: Set<Seq<char>>) -> bool {
    forall|k: int|
        0 <= k < marks.len() ==> (#[trigger] marks[k]).1 == open.contains(marks[k].0)
}

proof fn lemma_agrees_concat(
    a: Seq<(Seq<char>, bool)>,
    b: Seq<(Seq<char>, bool)>,
    open: Set<Seq<char>>,
)
    requires
        agrees(a, open),
        agrees(b, open),
    ensures
        agrees(a + b, open),
{
    assert forall|k: int| 0 <= k < (a + b).len() implies (#[trigger] (a + b)[k]).1
        == open.contains((a + b)[k].0) by {
        if k < a.len() {
            assert((a + b)[k] == a[k]);
        } else {
            assert((a + b)[k] == b[k - a.len()]);
        }
    }
}

proof fn lemma_all_agree(items: Seq<TreeItemView>, open: Set<Seq<char>>)
    requires
        forall|i: int| 0 <= i < items.len() ==> agrees(states(#[trigger] items[i], false), open),
    ensures
        agrees(all_states(items, false), open),
    decreases items.len(),
{
    if items.len() > 0 {
        assert forall|i: int| 0 <= i < items.drop_last().len() implies agrees(
            states(#[trigger] items.drop_last()[i], false),
            open,
        ) by {
            assert(items.drop_last()[i] == items[i]);
        }
        lemma_all_agree(items.drop_last(), open);
        assert(agrees(states(items[items.len() - 1], false), open));
        lemma_agrees_concat(
            all_states(items.drop_last(), false),
            states(items.last(), false),
            open,
        );
    }
}

proof fn lemma_group_agrees(
    gid: Seq<char>,
    label: Seq<char>,
    children: Seq<TreeItemView>,
    open: Set<Seq<char>>,
)
    requires
        forall|i: int|
            0 <= i < children.len() ==> agrees(states(#[trigger] children[i], false), open),
    ensures
        agrees(states(group_item(gid, label, children, open.contains(gid)), false), open),
{
    lemma_all_agree(children, open);
    lemma_agrees_concat(seq![(gid, open.contains(gid))], all_states(children, false), open);
}

proof fn lemma_section_agrees(
    gid: Seq<char>,
    label: Seq<char>,
    leaves: Seq<LeafView>,
    open: Set<Seq<char>>,
)
    ensures
        forall|i: int|
            0 <= i < group_of(gid, label, leaves, open).len() ==> agrees(
                states(#[trigger] group_of(gid, label, leaves, open)[i], false),
                open,
            ),
{
    if leaves.len() > 0 {
        lemma_group_agrees(gid, label, leaf_items(leaves), open);
    }
}

proof fn lemma_rel_agrees(schema: Seq<char>, rel: RelNodeView, open: Set<Seq<char>>)
    ensures
        agrees(states(rel_item(schema, rel, open), false), open),
{
    if rel.kind == RelationKind::Table {
        let rid = node(seq!["rel"@, schema, rel.name]);
        match rel.detail {
            None => {
                lemma_group_agrees(
                    rid,
                    rel.name,
                    seq![filler(rid, "loading\u{2026}"@)],
                    open,
                );
            },
            Some(d) => {
                let items = detail_items(schema, rel.name, d, open);
                let gid = node(seq!["cols"@, schema, rel.name]);
                let columns = column_leaves(schema, rel.name, d.columns);
                let kids = if columns.len() == 0 {
                    seq![filler(gid, "(none)"@)]
                } else {
                    leaf_items(columns)
                };
                lemma_group_agrees(gid, "COLUMNS"@, kids, open);
                let iid = node(seq!["idxs"@, schema, rel.name]);
                let cid = node(seq!["cons"@, schema, rel.name]);
                let il = index_leaves(schema, rel.name, d.indexes);
                let cl = constraint_leaves(schema, rel.name, d.constraints);
                lemma_section_agrees(iid, "INDEXES"@, il, open);
                lemma_section_agrees(cid, "CONSTRAINTS"@, cl, open);
                let ig = group_of(iid, "INDEXES"@, il, open);
                let cg = group_of(cid, "CONSTRAINTS"@, cl, open);
                assert forall|i: int| 0 <= i < items.len() implies agrees(
                    states(#[trigger] items[i], false),
                    open,
                ) by {
                    if i == 0 {
                    } else if i < 1 + ig.len() {
                        assert(items[i] == ig[i - 1]);
                    } else {
                        assert(items[i] == cg[i - 1 - ig.len()]);
                    }
                }
                lemma_group_agrees(rid, rel.name, items, open);
            },
        }
    }
}

proof fn lemma_schema_agrees(n: SchemaNodeView, open: Set<Seq<char>>)
    ensures
        agrees(states(schema_item(n, open, Seq::empty()), false), open),
{
    let needle = Seq::<char>::empty();
    let sid = node(seq!["sch"@, n.name]);
    let kids = schema_kids(n, open, needle);
    if let Some(rels) = n.relations {
        let gid = node(seq!["tbls"@, n.name]);
        let shown = kept(rels, needle);
        let below = if shown.len() == 0 {
            seq![filler(gid, "(empty)"@)]
        } else {
            rel_items(n.name, shown, open)
        };
        assert forall|i: int| 0 <= i < below.len() implies agrees(
            states(#[trigger] below[i], false),
            open,
        ) by {
            if shown.len() > 0 {
                lemma_rel_agrees(n.name, shown[i], open);
            }
        }
        lemma_group_agrees(gid, "TABLES"@, below, open);
        let objects = object_items(n, open, needle);
        if let Some(o) = n.objects {
            let sl = object_leaves("seq"@, n.name, o.sequences);
            let fl = object_leaves("func"@, n.name, o.functions);
            let qid = node(seq!["seqs"@, n.name]);
            let fid = node(seq!["funcs"@, n.name]);
            lemma_section_agrees(qid, "SEQUENCES"@, sl, open);
            lemma_section_agrees(fid, "FUNCTIONS"@, fl, open);
            let sg = group_of(qid, "SEQUENCES"@, sl, open);
            let fg = group_of(fid, "FUNCTIONS"@, fl, open);
            assert forall|i: int| 0 <= i < objects.len() implies agrees(
                states(#[trigger] objects[i], false),
                open,
            ) by {
                if i < sg.len() {
                    assert(objects[i] == sg[i]);
                } else {
                    assert(objects[i] == fg[i - sg.len()]);
                }
            }
        }
        assert forall|i: int| 0 <= i < kids.len() implies agrees(
            states(#[trigger] kids[i], false),
            open,
        ) by {
            if i > 0 {
                assert(kids[i] == objects[i - 1]);
            }
        }
    }
    lemma_group_agrees(sid, n.name, kids, open);
}

proof fn lemma_schemas_agree(nodes: Seq<SchemaNodeView>, open: Set<Seq<char>>)
    ensures
        forall|i: int|
            0 <= i < schema_items(nodes, open, Seq::empty()).len() ==> agrees(
                states(#[trigger] schema_items(nodes, open, Seq::empty())[i], false),
                open,
            ),
    decreases nodes.len(),
{
    if nodes.len() > 0 {
        let needle = Seq::<char>::empty();
        lemma_schemas_agree(nodes.drop_last(), open);
        lemma_schema_agrees(nodes.last(), open);
        let all = schema_items(nodes, open, needle);
        let front = schema_items(nodes.drop_last(), open, needle);
        assert forall|i: int| 0 <= i < all.len() implies agrees(
            states(#[trigger] all[i], false),
            open,
        ) by {
            if i < front.len() {
                assert(all[i] == front[i]);
            }
        }
    }
}

proof fn lemma_agreeing_marks(open: Set<Seq<char>>, marks: Seq<(Seq<char>, bool)>)
    requires
        agrees(marks, open),
    ensures
        noted(open, marks) == open,
        !any_change(open, marks),
    decreases marks.len(),
{
    if marks.len() > 0 {
        assert forall|k: int| 0 <= k < marks.drop_last().len() implies (
        #[trigger] marks.drop_last()[k]).1 == open.contains(marks.drop_last()[k].0) by {
            assert(marks.drop_last()[k] == marks[k]);
        }
        lemma_agreeing_marks(open, marks.drop_last());
        assert(marks[marks.len() - 1].1 == open.contains(marks[marks.len() - 1].0));
        if marks.last().1 {
            assert(open.insert(marks.last().0) =~= open);
        } else {
            assert(open.remove(marks.last().0) =~= open);
        }
    }
}

/// Without a filter, a tree shows exactly the open items as open: noting the states of a
/// tree that was just built changes nothing.
pub proof fn law_built_tree_is_in_step(
    dbname: Option<Seq<char>>,
    nodes: Seq<SchemaNodeView>,
    open: Set<Seq<char>>,
)
    ensures
        noted(open, all_states(tree_items(dbname, nodes, open, Seq::empty()), false)) == open,
        !any_change(open, all_states(tree_items(dbname, nodes, open, Seq::empty()), false)),
{
    let items = tree_items(dbname, nodes, open, Seq::empty());
    if let Some(name) = dbname {
        lemma_schemas_agree(nodes, open);
        lemma_group_agrees("db"@, name, schema_items(nodes, open, Seq::empty()), open);
    }
    lemma_all_agree(items, open);
    lemma_agreeing_marks(open, all_states(items, false));
}

/// Whether no identifier stands with two different states.
pub open spec fn consistent(marks: Seq<(Seq<char>, bool)>) -> bool {
    forall|i: int, j: int|
        0 <= i < marks.len() && 0 <= j < marks.len() && (#[trigger] marks[i]).0 == (
        #[trigger] marks[j]).0 ==> marks[i].1 == marks[j].1
}

/// States that were noted stay noted: the set then agrees with them, other identifiers keep
/// their state, and noting the same states again changes nothing.
pub proof fn law_noting_settles(open: Set<Seq<char>>, marks: Seq<(Seq<char>, bool)>)
    requires
        consistent(marks),
    ensures
        agrees(marks, noted(open, marks)),
        !any_change(noted(open, marks), marks),
        forall|id: Seq<char>|
            (forall|k: int| 0 <= k < marks.len() ==> (#[trigger] marks[k]).0 != id)
                ==> #[trigger] noted(open, marks).contains(id) == open.contains(id),
    decreases marks.len(),
{
    let after = noted(open, marks);
    if marks.len() > 0 {
        let front = marks.drop_last();
        assert(consistent(front)) by {
            assert forall|i: int, j: int|
                0 <= i < front.len() && 0 <= j < front.len() && (#[trigger] front[i]).0 == (
                #[trigger] front[j]).0 implies front[i].1 == front[j].1 by {
                assert(marks[i] == front[i] && marks[j] == front[j]);
            }
        }
        law_noting_settles(open, front);
        let n = marks.len() - 1;
        assert forall|k: int| 0 <= k < marks.len() implies (#[trigger] marks[k]).1
            == after.contains(marks[k].0) by {
            if marks[k].0 == marks[n].0 {
                assert(marks[k].1 == marks[n].1);
            } else {
                assert(front[k] == marks[k]);
            }
        }
        assert forall|id: Seq<char>|
            (forall|k: int| 0 <= k < marks.len() ==> (#[trigger] marks[k]).0
                != id) implies #[trigger] after.contains(id) == open.contains(id) by {
            assert(marks[n].0 != id);
            assert forall|k: int| 0 <= k < front.len() implies (#[trigger] front[k]).0 != id by {
                assert(marks[k].0 != id);
            }
            assert(noted(open, front).contains(id) == open.contains(id));
        }
    }
    lemma_agreeing_marks(after, marks);
}

// ---- identifiers tell items apart ----------------------------------------------------

/// A part of an identifier: it does not hold what separates parts.
pub open spec fn is_part(p: Seq<char>) -> bool {
    forall|i: int| 0 <= i < p.len() ==> #[trigger] p[i] != '\u{1}'
}

proof fn lemma_last_part(parts: Seq<Seq<char>>)
    requires
        parts.len() > 1,
    ensures
        node(parts) == node(parts.drop_last()) + seq!['\u{1}'] + parts.last(),
{
    reveal_strlit("\u{1}");
    assert("\u{1}"@ =~= seq!['\u{1}']);
}

/// The text before the last separator, and the part behind it.
proof fn lemma_split(a: Seq<char>, x: Seq<char>, b: Seq<char>, y: Seq<char>)
    requires
        is_part(x),
        is_part(y),
        a + seq!['\u{1}'] + x == b + seq!['\u{1}'] + y,
    ensures
        a == b,
        x == y,
{
    let t = a + seq!['\u{1}'] + x;
    assert(t == b + seq!['\u{1}'] + y);
    assert(t[a.len() as int] == '\u{1}');
    assert(t[b.len() as int] == '\u{1}');
    if a.len() < b.len() {
        assert(t[b.len() as int] == x[b.len() - a.len() - 1]);
    }
    if b.len() < a.len() {
        assert(t[a.len() as int] == y[a.len() - b.len() - 1]);
    }
    assert(a =~= t.take(a.len() as int));
    assert(b =~= t.take(b.len() as int));
    assert(x =~= t.skip(a.len() as int + 1));
    assert(y =~= t.skip(b.len() as int + 1));
}

/// Items that differ in a part have different identifiers, as long as no part holds the
/// separator.
pub proof fn law_ids_tell_items_apart(a: Seq<Seq<char>>, b: Seq<Seq<char>>)
    requires
        a.len() > 0,
        b.len() > 0,
        forall|i: int| 0 <= i < a.len() ==> is_part(#[trigger] a[i]),
        forall|i: int| 0 <= i < b.len() ==> is_part(#[trigger] b[i]),
        node(a) == node(b),
    ensures
        a == b,
    decreases a.len(),
{
    assert(is_part(a.last()));
    assert(is_part(b.last()));
    if a.len() == 1 && b.len() == 1 {
        assert(a =~= b);
    } else if a.len() == 1 {
        lemma_last_part(b);
        assert(a[0][node(b.drop_last()).len() as int] == '\u{1}');
        assert(is_part(a[0]));
    } else if b.len() == 1 {
        lemma_last_part(a);
        assert(b[0][node(a.drop_last()).len() as int] == '\u{1}');
        assert(is_part(b[0]));
    } else {
        lemma_last_part(a);
        lemma_last_part(b);
        lemma_split(node(a.drop_last()), a.last(), node(b.drop_last()), b.last());
        law_ids_tell_items_apart(a.drop_last(), b.drop_last());
        assert(a =~= a.drop_last().push(a.last()));
        assert(b =~= b.drop_last().push(b.last()));
    }
}

} // verus!
