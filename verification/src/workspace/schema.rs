//! The schema tree of the window: what is loaded for it and when, and what is shown.

use vstd::prelude::*;
use crate::error::{DbError, DbErrorView};
use crate::ids::IdSet;
use crate::introspect::{
    RelationDetail, RelationDetailView, RelationInfo, RelationInfoView, RelationKind, SchemaInfo,
    SchemaInfoView, SchemaObjects, SchemaObjectsView,
};
use crate::text::{decimal, decimal_text, trim, trimmed};
use crate::tree::{
    all_states, any_change, build_tree, entry_map, first_row, flat_index_of, models, needle_of,
    node, node2, node3, noted, sync_expansion, tree_entries, tree_items, visible_all, NodeMetaMap,
    NodeMetaView, RelNode, RelNodeView, SchemaNode, SchemaNodeView, TreeItem, TreeItemView,
};
use crate::workspace::state::{
    Effect, EffectView, SchemaTreeView, Workspace, WorkspaceView,
};

verus! {

/// The identifier of a schema.
pub open spec fn schema_id(schema: Seq<char>) -> Seq<char> {
    node(seq!["sch"@, schema])
}

/// The identifier of the section with the tables of a schema.
pub open spec fn tables_id(schema: Seq<char>) -> Seq<char> {
    node(seq!["tbls"@, schema])
}

/// The identifier of a relation.
pub open spec fn relation_id(schema: Seq<char>, table: Seq<char>) -> Seq<char> {
    node(seq!["rel"@, schema, table])
}

/// The schemas that are open but not loaded, and not being loaded. With a filter all
/// schemas count as open, so that the search is global.
pub open spec fn wanted_schemas(
    nodes: Seq<SchemaNodeView>,
    open: Set<Seq<char>>,
    loads: Set<Seq<char>>,
    filtering: bool,
) -> Seq<Seq<char>>
    decreases nodes.len(),
{
    if nodes.len() == 0 {
        Seq::empty()
    } else {
        let front = wanted_schemas(nodes.drop_last(), open, loads, filtering);
        let n = nodes.last();
        if n.relations is None && (filtering || open.contains(schema_id(n.name)))
            && !loads.contains(schema_id(n.name)) {
            front.push(n.name)
        } else {
            front
        }
    }
}

/// The tables of a schema that are open but not loaded, and not being loaded.
pub open spec fn wanted_tables_of(
    schema: Seq<char>,
    rels: Seq<RelNodeView>,
    open: Set<Seq<char>>,
    loads: Set<Seq<char>>,
) -> Seq<(Seq<char>, Seq<char>)>
    decreases rels.len(),
{
    if rels.len() == 0 {
        Seq::empty()
    } else {
        let front = wanted_tables_of(schema, rels.drop_last(), open, loads);
        let rel = rels.last();
        let id = relation_id(schema, rel.name);
        if rel.kind is Table && rel.detail is None && open.contains(id) && !loads.contains(id) {
            front.push((schema, rel.name))
        } else {
            front
        }
    }
}

/// The tables of all schemas that are open but not loaded, and not being loaded.
pub open spec fn wanted_tables(
    nodes: Seq<SchemaNodeView>,
    open: Set<Seq<char>>,
    loads: Set<Seq<char>>,
) -> Seq<(Seq<char>, Seq<char>)>
    decreases nodes.len(),
{
    if nodes.len() == 0 {
        Seq::empty()
    } else {
        let front = wanted_tables(nodes.drop_last(), open, loads);
        match nodes.last().relations {
            Some(rels) => front + wanted_tables_of(nodes.last().name, rels, open, loads),
            None => front,
        }
    }
}

/// Where the first schema with a name stands.
pub open spec fn schema_position(nodes: Seq<SchemaNodeView>, name: Seq<char>) -> Option<int>
    decreases nodes.len(),
{
    if nodes.len() == 0 {
        None
    } else {
        match schema_position(nodes.drop_last(), name) {
            Some(k) => Some(k),
            None => if nodes.last().name == name {
                Some(nodes.len() - 1)
            } else {
                None
            },
        }
    }
}

/// Where the first relation with a name stands.
pub open spec fn relation_position(rels: Seq<RelNodeView>, name: Seq<char>) -> Option<int>
    decreases rels.len(),
{
    if rels.len() == 0 {
        None
    } else {
        match relation_position(rels.drop_last(), name) {
            Some(k) => Some(k),
            None => if rels.last().name == name {
                Some(rels.len() - 1)
            } else {
                None
            },
        }
    }
}

/// A schema of which only the name is known.
pub open spec fn bare_schema(s: SchemaInfoView) -> SchemaNodeView {
    SchemaNodeView { name: s.name, relations: None, objects: None }
}

/// A relation of which no detail is known.
pub open spec fn bare_relation(r: RelationInfoView) -> RelNodeView {
    RelNodeView { name: r.name, kind: r.kind, detail: None }
}

/// The schemas after the relations of one of them were loaded.
pub open spec fn with_relations(
    nodes: Seq<SchemaNodeView>,
    schema: Seq<char>,
    rels: Seq<RelationInfoView>,
    objects: Option<SchemaObjectsView>,
) -> Seq<SchemaNodeView> {
    match schema_position(nodes, schema) {
        Some(i) => nodes.update(
            i,
            SchemaNodeView {
                relations: Some(rels.map_values(|r: RelationInfoView| bare_relation(r))),
                objects,
                ..nodes[i]
            },
        ),
        None => nodes,
    }
}

/// The schemas after the detail of a relation was loaded.
pub open spec fn with_detail(
    nodes: Seq<SchemaNodeView>,
    schema: Seq<char>,
    table: Seq<char>,
    detail: RelationDetailView,
) -> Seq<SchemaNodeView> {
    match schema_position(nodes, schema) {
        Some(i) => match nodes[i].relations {
            Some(rels) => match relation_position(rels, table) {
                Some(k) => nodes.update(
                    i,
                    SchemaNodeView {
                        relations: Some(
                            rels.update(k, RelNodeView { detail: Some(detail), ..rels[k] }),
                        ),
                        ..nodes[i]
                    },
                ),
                None => nodes,
            },
            None => nodes,
        },
        None => nodes,
    }
}

impl WorkspaceView {
    /// With another schema tree.
    pub open spec fn with_tree(self, tree: SchemaTreeView) -> WorkspaceView {
        WorkspaceView { tree, ..self }
    }

    /// Whether a filter stands.
    pub open spec fn filtering(self) -> bool {
        trim(self.tree.filter).len() > 0
    }

    /// The database that the tree shows: none without a connection.
    pub open spec fn dbname(self) -> Option<Seq<char>> {
        match (self.conn, self.cfg) {
            (Some(_), Some(cfg)) => Some(cfg.dbname),
            _ => None,
        }
    }

    /// The schemas are asked for.
    pub open spec fn load_schemas(self) -> WorkspaceView {
        match self.conn {
            Some(conn) => self.with_effect(EffectView::LoadSchemas { conn }),
            None => self,
        }
    }

    /// The relations of a schema are asked for, unless they are on their way.
    pub open spec fn load_relations(self, schema: Seq<char>) -> WorkspaceView {
        match self.conn {
            Some(conn) => if self.tree.loads.contains(schema_id(schema)) {
                self
            } else {
                self.with_tree(
                    SchemaTreeView {
                        loads: self.tree.loads.insert(schema_id(schema)),
                        ..self.tree
                    },
                ).with_effect(EffectView::LoadRelations { conn, schema })
            },
            None => self,
        }
    }

    /// The relations of several schemas are asked for.
    pub open spec fn load_each(self, schemas: Seq<Seq<char>>) -> WorkspaceView
        decreases schemas.len(),
    {
        if schemas.len() == 0 {
            self
        } else {
            self.load_each(schemas.drop_last()).load_relations(schemas.last())
        }
    }

    /// The detail of a relation is asked for, unless it is on its way.
    pub open spec fn load_relation_detail(
        self,
        schema: Seq<char>,
        table: Seq<char>,
    ) -> WorkspaceView {
        match self.conn {
            Some(conn) => if self.tree.loads.contains(relation_id(schema, table)) {
                self
            } else {
                self.with_tree(
                    SchemaTreeView {
                        loads: self.tree.loads.insert(relation_id(schema, table)),
                        ..self.tree
                    },
                ).with_effect(EffectView::LoadDetail { conn, schema, table })
            },
            None => self,
        }
    }

    /// The details of several relations are asked for.
    pub open spec fn detail_each(self, tables: Seq<(Seq<char>, Seq<char>)>) -> WorkspaceView
        decreases tables.len(),
    {
        if tables.len() == 0 {
            self
        } else {
            self.detail_each(tables.drop_last()).load_relation_detail(
                tables.last().0,
                tables.last().1,
            )
        }
    }

    /// Everything that is open but not loaded is asked for.
    pub open spec fn ensure_loads(self) -> WorkspaceView {
        self.load_each(
            wanted_schemas(
                self.tree.schemas,
                self.tree.expanded,
                self.tree.loads,
                self.filtering(),
            ),
        ).detail_each(wanted_tables(self.tree.schemas, self.tree.expanded, self.tree.loads))
    }

    /// The items of the tree as they are now.
    pub open spec fn tree_items(self) -> Seq<TreeItemView> {
        tree_items(
            self.dbname(),
            self.tree.schemas,
            self.tree.expanded,
            needle_of(self.tree.filter),
        )
    }

    /// What the items of the tree are.
    pub open spec fn tree_meta(self) -> Map<Seq<char>, NodeMetaView> {
        entry_map(tree_entries(self.dbname(), self.tree.schemas, needle_of(self.tree.filter)))
    }

    /// The row of an item, where it is shown.
    pub open spec fn row_of(self, id: Seq<char>) -> Option<int> {
        first_row(visible_all(self.tree.items), id)
    }

    /// The tree is built anew and shown. Where a relation waits to be revealed and is
    /// visible now, it is selected and scrolled to; else the selection stays.
    #[verifier::opaque]
    pub open spec fn sync_tree(self) -> WorkspaceView {
        let asked = self.ensure_loads();
        let built = asked.with_tree(
            SchemaTreeView {
                items: asked.tree_items(),
                meta: asked.tree_meta(),
                ..asked.tree
            },
        );
        match built.tree.pending_reveal {
            Some(id) => match built.row_of(id) {
                Some(row) => built.with_tree(
                    SchemaTreeView { pending_reveal: None, ..built.tree },
                ).with_effect(EffectView::ShowTree { selected: Some(row), scroll: true }),
                None => built.show_selected(),
            },
            None => built.show_selected(),
        }
    }

    /// The tree is shown with the last selection.
    pub open spec fn show_selected(self) -> WorkspaceView {
        self.with_effect(
            EffectView::ShowTree {
                selected: match self.tree.sel {
                    Some(id) => self.row_of(id),
                    None => None,
                },
                scroll: false,
            },
        )
    }

    /// The text of the filter changed.
    pub open spec fn set_filter(self, text: Seq<char>) -> WorkspaceView {
        if trim(text) == self.tree.filter {
            self
        } else {
            self.with_tree(SchemaTreeView { filter: trim(text), ..self.tree }).sync_tree()
        }
    }

    /// An item of the tree was selected, opened or closed.
    pub open spec fn on_tree_notify(
        self,
        items: Seq<TreeItemView>,
        selected: Option<Seq<char>>,
    ) -> WorkspaceView {
        let marks = all_states(items, self.filtering());
        let open = self.tree.expanded;
        let told = self.with_tree(
            SchemaTreeView { items, sel: selected, expanded: noted(open, marks), ..self.tree },
        );
        if any_change(open, marks) {
            told.ensure_loads()
        } else {
            told
        }
    }

    /// A relation is to be selected and scrolled to, with everything above it open.
    pub open spec fn reveal_relation(self, schema: Seq<char>, table: Seq<char>) -> WorkspaceView {
        if self.conn is None {
            self
        } else {
            self.with_tree(
                SchemaTreeView {
                    expanded: self.tree.expanded.insert("db"@).insert(schema_id(schema)).insert(
                        tables_id(schema),
                    ),
                    pending_reveal: Some(relation_id(schema, table)),
                    ..self.tree
                },
            ).sync_tree()
        }
    }

    /// The table of the self test is asked for.
    pub open spec fn selftest(self) -> WorkspaceView {
        match self.conn {
            Some(conn) => self.with_effect(EffectView::SelfTest { conn }),
            None => self,
        }
    }

    /// The schemas have come.
    pub open spec fn schemas_loaded(
        self,
        result: Result<Seq<SchemaInfoView>, DbErrorView>,
        selftest: bool,
    ) -> WorkspaceView {
        match result {
            Ok(schemas) => {
                let shown = self.with_tree(
                    SchemaTreeView {
                        schemas: schemas.map_values(|s: SchemaInfoView| bare_schema(s)),
                        expanded: self.tree.expanded.insert("db"@),
                        ..self.tree
                    },
                ).with_status(decimal(schemas.len()) + " schema(s)"@).sync_tree();
                if selftest {
                    shown.selftest()
                } else {
                    shown
                }
            },
            Err(e) => self.with_status("Failed to load schemas: "@ + e.shown()),
        }
    }

    /// The relations of a schema have come.
    pub open spec fn relations_loaded(
        self,
        schema: Seq<char>,
        rels: Result<Seq<RelationInfoView>, DbErrorView>,
        objects: Option<SchemaObjectsView>,
    ) -> WorkspaceView {
        let here = SchemaTreeView { loads: self.tree.loads.remove(schema_id(schema)), ..self.tree };
        (match rels {
            Ok(rels) => self.with_tree(
                SchemaTreeView {
                    schemas: with_relations(here.schemas, schema, rels, objects),
                    expanded: here.expanded.insert(tables_id(schema)),
                    ..here
                },
            ),
            Err(e) => self.with_tree(here).with_status("Failed to load relations: "@ + e.shown()),
        }).sync_tree()
    }

    /// The detail of a relation has come.
    pub open spec fn detail_loaded(
        self,
        schema: Seq<char>,
        table: Seq<char>,
        result: Result<RelationDetailView, DbErrorView>,
    ) -> WorkspaceView {
        let here = SchemaTreeView {
            loads: self.tree.loads.remove(relation_id(schema, table)),
            ..self.tree
        };
        (match result {
            Ok(detail) => self.with_tree(
                SchemaTreeView {
                    schemas: with_detail(here.schemas, schema, table, detail),
                    ..here
                },
            ),
            Err(e) => self.with_tree(here).with_status(
                "Failed to load relation detail: "@ + e.shown(),
            ),
        }).sync_tree()
    }

    /// The table of the self test is there: it is opened when the window is drawn next.
    pub open spec fn selftest_ready(self) -> WorkspaceView {
        WorkspaceView { pending_open: Some(("public"@, "zdb_selftest"@)), ..self }
    }
}

// ---- looking for what is wanted --------------------------------------------------------

fn schemas_wanted(
    nodes: &Vec<SchemaNode>,
    open: &IdSet,
    loads: &IdSet,
    filtering: bool,
) -> (r: Vec<String>)
    ensures
        r.deep_view() == wanted_schemas(
            nodes.deep_view(),
            open.deep_view(),
            loads.deep_view(),
            filtering,
        ),
{
    let ghost nv = nodes.deep_view();
    let mut r: Vec<String> = Vec::new();
    proof {
        assert(r.deep_view() =~= wanted_schemas(
            nv.take(0),
            open.deep_view(),
            loads.deep_view(),
            filtering,
        ));
    }
    let mut i: usize = 0;
    while i < nodes.len()
        invariant
            i <= nodes@.len(),
            nv == nodes.deep_view(),
            r.deep_view() == wanted_schemas(
                nv.take(i as int),
                open.deep_view(),
                loads.deep_view(),
                filtering,
            ),
        decreases nodes@.len() - i,
    {
        let ghost before = r.deep_view();
        let n = &nodes[i];
        proof {
            assert(nv.take(i + 1).drop_last() =~= nv.take(i as int));
            assert(nv.take(i + 1).last() == n.deep_view());
        }
        if n.relations.is_none() {
            let sid = node2("sch", n.name.as_str());
            if (filtering || open.contains(sid.as_str())) && !loads.contains(sid.as_str()) {
                r.push(n.name.clone());
                proof {
                    assert(r.deep_view() =~= before.push(n.name@));
                }
            }
        }
        i += 1;
    }
    proof {
        assert(nv.take(i as int) =~= nv);
    }
    r
}

fn tables_wanted_of(
    schema: &String,
    rels: &Vec<RelNode>,
    open: &IdSet,
    loads: &IdSet,
    out: &mut Vec<(String, String)>,
)
    ensures
        final(out).deep_view() == old(out).deep_view() + wanted_tables_of(
            schema@,
            rels.deep_view(),
            open.deep_view(),
            loads.deep_view(),
        ),
{
    let ghost rv = rels.deep_view();
    let ghost start = out.deep_view();
    proof {
        assert(start + wanted_tables_of(schema@, rv.take(0), open.deep_view(), loads.deep_view())
            =~= start);
    }
    let mut i: usize = 0;
    while i < rels.len()
        invariant
            i <= rels@.len(),
            rv == rels.deep_view(),
            out.deep_view() == start + wanted_tables_of(
                schema@,
                rv.take(i as int),
                open.deep_view(),
                loads.deep_view(),
            ),
        decreases rels@.len() - i,
    {
        let ghost before = out.deep_view();
        let rel = &rels[i];
        proof {
            assert(rv.take(i + 1).drop_last() =~= rv.take(i as int));
            assert(rv.take(i + 1).last() == rel.deep_view());
        }
        if matches!(rel.kind, RelationKind::Table) && rel.detail.is_none() {
            let rid = node3("rel", schema.as_str(), rel.name.as_str());
            if open.contains(rid.as_str()) && !loads.contains(rid.as_str()) {
                out.push((schema.clone(), rel.name.clone()));
                proof {
                    assert(out.deep_view() =~= before.push((schema@, rel.name@)));
                    assert(out.deep_view() =~= start + wanted_tables_of(
                        schema@,
                        rv.take(i + 1),
                        open.deep_view(),
                        loads.deep_view(),
                    ));
                }
            }
        }
        i += 1;
    }
    proof {
        assert(rv.take(i as int) =~= rv);
    }
}

fn tables_wanted(nodes: &Vec<SchemaNode>, open: &IdSet, loads: &IdSet) -> (r: Vec<
    (String, String),
>)
    ensures
        r.deep_view() == wanted_tables(nodes.deep_view(), open.deep_view(), loads.deep_view()),
{
    let ghost nv = nodes.deep_view();
    let mut r: Vec<(String, String)> = Vec::new();
    proof {
        assert(r.deep_view() =~= wanted_tables(nv.take(0), open.deep_view(), loads.deep_view()));
    }
    let mut i: usize = 0;
    while i < nodes.len()
        invariant
            i <= nodes@.len(),
            nv == nodes.deep_view(),
            r.deep_view() == wanted_tables(
                nv.take(i as int),
                open.deep_view(),
                loads.deep_view(),
            ),
        decreases nodes@.len() - i,
    {
        let n = &nodes[i];
        proof {
            assert(nv.take(i + 1).drop_last() =~= nv.take(i as int));
            assert(nv.take(i + 1).last() == n.deep_view());
        }
        if let Some(rels) = &n.relations {
            tables_wanted_of(&n.name, rels, open, loads, &mut r);
        }
        i += 1;
    }
    proof {
        assert(nv.take(i as int) =~= nv);
    }
    r
}

proof fn lemma_schema_stays(nodes: Seq<SchemaNodeView>, name: Seq<char>, k: int)
    requires
        0 <= k <= nodes.len(),
        schema_position(nodes.take(k), name) is Some,
    ensures
        schema_position(nodes, name) == schema_position(nodes.take(k), name),
    decreases nodes.len() - k,
{
    if k == nodes.len() {
        assert(nodes.take(k) =~= nodes);
    } else {
        assert(nodes.take(k + 1).drop_last() =~= nodes.take(k));
        lemma_schema_stays(nodes, name, k + 1);
    }
}

fn find_schema(nodes: &Vec<SchemaNode>, name: &str) -> (r: Option<usize>)
    ensures
        (match r {
            Some(k) => schema_position(nodes.deep_view(), name@) == Some(k as int) && k
                < nodes@.len(),
            None => schema_position(nodes.deep_view(), name@) is None,
        }),
{
    let ghost nv = nodes.deep_view();
    let mut i: usize = 0;
    while i < nodes.len()
        invariant
            i <= nodes@.len(),
            nv == nodes.deep_view(),
            schema_position(nv.take(i as int), name@) is None,
        decreases nodes@.len() - i,
    {
        proof {
            assert(nv.take(i + 1).drop_last() =~= nv.take(i as int));
            assert(nv.take(i + 1).last() == nodes@[i as int].deep_view());
        }
        if *nodes[i].name.as_str() == *name {
            proof {
                lemma_schema_stays(nv, name@, i + 1);
            }
            return Some(i);
        }
        i += 1;
    }
    proof {
        assert(nv.take(i as int) =~= nv);
    }
    None
}

proof fn lemma_relation_stays(rels: Seq<RelNodeView>, name: Seq<char>, k: int)
    requires
        0 <= k <= rels.len(),
        relation_position(rels.take(k), name) is Some,
    ensures
        relation_position(rels, name) == relation_position(rels.take(k), name),
    decreases rels.len() - k,
{
    if k == rels.len() {
        assert(rels.take(k) =~= rels);
    } else {
        assert(rels.take(k + 1).drop_last() =~= rels.take(k));
        lemma_relation_stays(rels, name, k + 1);
    }
}

fn find_relation(rels: &Vec<RelNode>, name: &str) -> (r: Option<usize>)
    ensures
        (match r {
            Some(k) => relation_position(rels.deep_view(), name@) == Some(k as int) && k
                < rels@.len(),
            None => relation_position(rels.deep_view(), name@) is None,
        }),
{
    let ghost rv = rels.deep_view();
    let mut i: usize = 0;
    while i < rels.len()
        invariant
            i <= rels@.len(),
            rv == rels.deep_view(),
            relation_position(rv.take(i as int), name@) is None,
        decreases rels@.len() - i,
    {
        proof {
            assert(rv.take(i + 1).drop_last() =~= rv.take(i as int));
            assert(rv.take(i + 1).last() == rels@[i as int].deep_view());
        }
        if *rels[i].name.as_str() == *name {
            proof {
                lemma_relation_stays(rv, name@, i + 1);
            }
            return Some(i);
        }
        i += 1;
    }
    proof {
        assert(rv.take(i as int) =~= rv);
    }
    None
}

fn bare_schemas(schemas: Vec<SchemaInfo>) -> (r: Vec<SchemaNode>)
    ensures
        r.deep_view() == schemas.deep_view().map_values(|s: SchemaInfoView| bare_schema(s)),
{
    let mut r: Vec<SchemaNode> = Vec::new();
    for s in it: schemas
        invariant
            it.seq() == schemas@,
            r@.len() == it.index(),
            forall|j: int|
                0 <= j < r@.len() ==> (#[trigger] r@[j]).deep_view() == bare_schema(
                    schemas@[j].deep_view(),
                ),
    {
        r.push(SchemaNode { name: s.name, relations: None, objects: None });
    }
    proof {
        assert(r.deep_view() =~= schemas.deep_view().map_values(
            |s: SchemaInfoView| bare_schema(s),
        ));
    }
    r
}

fn bare_relations(rels: Vec<RelationInfo>) -> (r: Vec<RelNode>)
    ensures
        r.deep_view() == rels.deep_view().map_values(|r: RelationInfoView| bare_relation(r)),
{
    let mut r: Vec<RelNode> = Vec::new();
    for rel in it: rels
        invariant
            it.seq() == rels@,
            r@.len() == it.index(),
            forall|j: int|
                0 <= j < r@.len() ==> (#[trigger] r@[j]).deep_view() == bare_relation(
                    rels@[j].deep_view(),
                ),
    {
        r.push(RelNode { name: rel.name, kind: rel.kind, detail: None });
    }
    proof {
        assert(r.deep_view() =~= rels.deep_view().map_values(
            |r: RelationInfoView| bare_relation(r),
        ));
    }
    r
}

/// The outcome of an introspection, by its contents.
pub open spec fn outcome<T: DeepView>(r: Result<T, DbError>) -> Result<T::V, DbErrorView> {
    match r {
        Ok(v) => Ok(v.deep_view()),
        Err(e) => Err(e.deep_view()),
    }
}

/// What is left of the outcome of an introspection that may fail.
pub open spec fn success<T: DeepView>(r: Result<T, DbError>) -> Option<T::V> {
    match r {
        Ok(v) => Some(v.deep_view()),
        Err(_) => None,
    }
}

impl Workspace {
    /// Asks for the schemas of the connection.
    pub fn load_schemas(&mut self)
        ensures
            final(self).deep_view() == old(self).deep_view().load_schemas(),
    {
        if let Some(conn) = self.conn {
            self.emit(Effect::LoadSchemas { conn });
        }
    }

    /// Asks for the relations of a schema, unless they are on their way.
    pub fn load_relations(&mut self, schema: String)
        ensures
            final(self).deep_view() == old(self).deep_view().load_relations(schema@),
    {
        if let Some(conn) = self.conn {
            let sid = node2("sch", schema.as_str());
            if self.tree.loads.contains(sid.as_str()) {
                return;
            }
            self.tree.loads.insert(sid);
            self.emit(Effect::LoadRelations { conn, schema });
        }
    }

    /// Asks for the detail of a relation, unless it is on its way.
    pub fn load_relation_detail(&mut self, schema: String, table: String)
        ensures
            final(self).deep_view() == old(self).deep_view().load_relation_detail(
                schema@,
                table@,
            ),
    {
        if let Some(conn) = self.conn {
            let rid = node3("rel", schema.as_str(), table.as_str());
            if self.tree.loads.contains(rid.as_str()) {
                return;
            }
            self.tree.loads.insert(rid);
            self.emit(Effect::LoadDetail { conn, schema, table });
        }
    }

    /// Asks for everything that is open but not loaded, and not on its way.
    pub fn ensure_loads(&mut self)
        ensures
            final(self).deep_view() == old(self).deep_view().ensure_loads(),
    {
        let filtering = !trimmed(self.tree.filter.as_str()).as_str().is_empty();
        let schemas = schemas_wanted(
            &self.tree.schemas,
            &self.tree.expanded,
            &self.tree.loads,
            filtering,
        );
        let tables = tables_wanted(&self.tree.schemas, &self.tree.expanded, &self.tree.loads);
        let ghost w0 = self.deep_view();
        let ghost sv = schemas.deep_view();
        let ghost tv = tables.deep_view();
        for schema in it: schemas
            invariant
                it.seq() == schemas@,
                sv == schemas.deep_view(),
                self.deep_view() == w0.load_each(sv.take(it.index() as int)),
        {
            proof {
                let k = it.index() as int;
                assert(sv.take(k + 1).drop_last() =~= sv.take(k));
                assert(sv.take(k + 1).last() == schema@);
            }
            self.load_relations(schema);
        }
        proof {
            assert(sv.take(sv.len() as int) =~= sv);
        }
        let ghost w1 = self.deep_view();
        for entry in it: tables
            invariant
                it.seq() == tables@,
                tv == tables.deep_view(),
                self.deep_view() == w1.detail_each(tv.take(it.index() as int)),
        {
            proof {
                let k = it.index() as int;
                assert(tv.take(k + 1).drop_last() =~= tv.take(k));
                assert(tv.take(k + 1).last() == entry.deep_view());
            }
            let (schema, table) = entry;
            self.load_relation_detail(schema, table);
        }
        proof {
            assert(tv.take(tv.len() as int) =~= tv);
        }
    }

    /// The items of the tree as they are now, and what they are.
    pub fn build_tree_items(&self) -> (r: (Vec<TreeItem>, NodeMetaMap))
        ensures
            models(r.0@) == self.deep_view().tree_items(),
            r.1.deep_view() == self.deep_view().tree_meta(),
    {
        let dbname: Option<&str> = match (&self.conn, &self.cfg) {
            (Some(_), Some(cfg)) => Some(cfg.dbname.as_str()),
            _ => None,
        };
        let nodes = self.tree.schemas.as_slice();
        proof {
            assert(nodes.deep_view() =~= self.tree.schemas.deep_view());
        }
        build_tree(dbname, nodes, &self.tree.expanded, self.tree.filter.as_str())
    }

    /// Builds the tree anew from what is known and what is open, asks for what is missing,
    /// and shows it. Every change of the tree goes through here.
    pub fn sync_tree(&mut self)
        ensures
            final(self).deep_view() == old(self).deep_view().sync_tree(),
    {
        proof {
            reveal(WorkspaceView::sync_tree);
        }
        self.ensure_loads();
        let (items, meta) = self.build_tree_items();
        self.tree.meta = meta;
        self.tree.items = items;
        let row = match &self.tree.pending_reveal {
            Some(id) => flat_index_of(self.tree.items.as_slice(), id.as_str()),
            None => None,
        };
        if row.is_some() {
            self.tree.pending_reveal = None;
            self.emit(Effect::ShowTree { selected: row, scroll: true });
        } else {
            let selected = match &self.tree.sel {
                Some(id) => flat_index_of(self.tree.items.as_slice(), id.as_str()),
                None => None,
            };
            self.emit(Effect::ShowTree { selected, scroll: false });
        }
    }

    /// Takes in the text of the filter.
    pub fn set_filter(&mut self, text: &str)
        ensures
            final(self).deep_view() == old(self).deep_view().set_filter(text@),
    {
        let v = trimmed(text);
        if !(v == self.tree.filter) {
            self.tree.filter = v;
            self.sync_tree();
        }
    }

    /// Takes in the items of the tree with their states, and the one that is selected,
    /// after one was selected, opened or closed. Asks for what an opened item lacks. The
    /// tree is not built anew: it shows the change already.
    pub fn on_tree_notify(&mut self, items: Vec<TreeItem>, selected: Option<String>)
        ensures
            final(self).deep_view() == old(self).deep_view().on_tree_notify(
                models(items@),
                selected.deep_view(),
            ),
    {
        self.tree.items = items;
        self.tree.sel = selected;
        let filtering = !trimmed(self.tree.filter.as_str()).as_str().is_empty();
        if sync_expansion(self.tree.items.as_slice(), filtering, &mut self.tree.expanded) {
            self.ensure_loads();
        }
    }

    /// Selects a relation in the tree and scrolls to it, after everything above it was
    /// opened; what is missing is loaded first.
    pub fn reveal_relation(&mut self, schema: &str, table: &str)
        ensures
            final(self).deep_view() == old(self).deep_view().reveal_relation(schema@, table@),
    {
        if self.conn.is_none() {
            return;
        }
        self.tree.expanded.insert("db".to_owned());
        self.tree.expanded.insert(node2("sch", schema));
        self.tree.expanded.insert(node2("tbls", schema));
        self.tree.pending_reveal = Some(node3("rel", schema, table));
        self.sync_tree();
    }

    /// Has the table of the self test made.
    pub fn selftest(&mut self)
        ensures
            final(self).deep_view() == old(self).deep_view().selftest(),
    {
        if let Some(conn) = self.conn {
            self.emit(Effect::SelfTest { conn });
        }
    }

    /// Takes in the schemas. What was open stays open; what belongs to it is asked for
    /// again.
    pub fn schemas_loaded(&mut self, result: Result<Vec<SchemaInfo>, DbError>, selftest: bool)
        ensures
            final(self).deep_view() == old(self).deep_view().schemas_loaded(
                outcome(result),
                selftest,
            ),
    {
        match result {
            Ok(schemas) => {
                let n: u64 = schemas.len() as u64;
                let ghost sv = schemas.deep_view();
                self.tree.schemas = bare_schemas(schemas);
                self.tree.expanded.insert("db".to_owned());
                self.set_status(decimal_text(n).concat(" schema(s)"));
                proof {
                    assert(sv.len() == n);
                }
                self.sync_tree();
                if selftest {
                    self.selftest();
                }
            },
            Err(e) => {
                self.set_status(
                    "Failed to load schemas: ".to_owned().concat(e.message().as_str()),
                );
            },
        }
    }

    /// Takes in the relations of a schema, and its other objects where they came. The
    /// schema is looked up by its name: the tree may have changed in the meantime.
    pub fn relations_loaded(
        &mut self,
        schema: &str,
        rels: Result<Vec<RelationInfo>, DbError>,
        objects: Result<SchemaObjects, DbError>,
    )
        ensures
            final(self).deep_view() == old(self).deep_view().relations_loaded(
                schema@,
                outcome(rels),
                success(objects),
            ),
    {
        let sid = node2("sch", schema);
        self.tree.loads.remove(sid.as_str());
        match rels {
            Ok(rels) => {
                let ghost rv = rels.deep_view();
                let ghost ov = success(objects);
                let ghost nodes = self.tree.schemas.deep_view();
                if let Some(i) = find_schema(&self.tree.schemas, schema) {
                    let kept = match objects {
                        Ok(o) => Some(o),
                        Err(_) => None,
                    };
                    let node = &mut self.tree.schemas[i];
                    node.relations = Some(bare_relations(rels));
                    node.objects = kept;
                    proof {
                        assert(nodes[i as int] == old(self).tree.schemas@[i as int].deep_view());
                        assert(self.tree.schemas.deep_view() =~= with_relations(
                            nodes,
                            schema@,
                            rv,
                            ov,
                        ));
                    }
                }
                self.tree.expanded.insert(node2("tbls", schema));
            },
            Err(e) => {
                self.set_status(
                    "Failed to load relations: ".to_owned().concat(e.message().as_str()),
                );
            },
        }
        self.sync_tree();
    }

    /// Takes in the detail of a relation.
    pub fn detail_loaded(
        &mut self,
        schema: &str,
        table: &str,
        result: Result<RelationDetail, DbError>,
    )
        ensures
            final(self).deep_view() == old(self).deep_view().detail_loaded(
                schema@,
                table@,
                outcome(result),
            ),
    {
        let rid = node3("rel", schema, table);
        self.tree.loads.remove(rid.as_str());
        match result {
            Ok(detail) => {
                self.set_detail(schema, table, detail);
            },
            Err(e) => {
                self.set_status(
                    "Failed to load relation detail: ".to_owned().concat(e.message().as_str()),
                );
            },
        }
        self.sync_tree();
    }

    fn set_detail(&mut self, schema: &str, table: &str, detail: RelationDetail)
        ensures
            final(self).deep_view() == old(self).deep_view().with_tree(
                SchemaTreeView {
                    schemas: with_detail(
                        old(self).deep_view().tree.schemas,
                        schema@,
                        table@,
                        detail.deep_view(),
                    ),
                    ..old(self).deep_view().tree
                },
            ),
    {
        let ghost nodes = self.tree.schemas.deep_view();
        let i = match find_schema(&self.tree.schemas, schema) {
            None => {
                return;
            },
            Some(i) => i,
        };
        proof {
            assert(nodes[i as int] == self.tree.schemas@[i as int].deep_view());
        }
        let k = match &self.tree.schemas[i].relations {
            None => {
                return;
            },
            Some(rels) => match find_relation(rels, table) {
                None => {
                    return;
                },
                Some(k) => k,
            },
        };
        let ghost dv = detail.deep_view();
        let ghost rv = nodes[i as int].relations->0;
        let node = &mut self.tree.schemas[i];
        if let Some(rels) = &mut node.relations {
            rels[k].detail = Some(detail);
        }
        proof {
            let now = self.tree.schemas@[i as int].relations->0;
            assert(now.deep_view() =~= rv.update(
                k as int,
                RelNodeView { detail: Some(dv), ..rv[k as int] },
            ));
            assert(self.tree.schemas.deep_view() =~= with_detail(nodes, schema@, table@, dv));
        }
    }

    /// Has the table of the self test opened when the window is drawn next.
    pub fn selftest_ready(&mut self)
        ensures
            final(self).deep_view() == old(self).deep_view().selftest_ready(),
    {
        self.pending_open = Some(("public".to_owned(), "zdb_selftest".to_owned()));
    }
}

} // verus!
