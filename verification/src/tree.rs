//! The schema tree of the sidebar: which items it has, what they are, and which of them
//! are open.

use vstd::hash_map::StringHashMap;
use vstd::prelude::*;
use crate::ids::IdSet;
use crate::introspect::{
    ColumnInfo, ColumnInfoView, ConstraintInfo, ConstraintInfoView, IndexInfo, IndexInfoView,
    RelationDetail, RelationDetailView, RelationKind, SchemaObjects, SchemaObjectsView,
};
use crate::text::{contains, has_part, joined, lowercase, starts_with, to_lower, trim, trimmed};

verus! {

// ---- the model ---------------------------------------------------------------------

/// A relation of a schema.
#[derive(Debug)]
pub struct RelNode {
    pub name: String,
    pub kind: RelationKind,
    /// Columns, indexes and constraints, loaded when the relation is opened.
    pub detail: Option<RelationDetail>,
}

/// What a [`RelNode`] says.
pub struct RelNodeView {
    pub name: Seq<char>,
    pub kind: RelationKind,
    pub detail: Option<RelationDetailView>,
}

impl DeepView for RelNode {
    type V = RelNodeView;

    open spec fn deep_view(&self) -> RelNodeView {
        RelNodeView { name: self.name@, kind: self.kind, detail: self.detail.deep_view() }
    }
}

/// A schema.
#[derive(Debug)]
pub struct SchemaNode {
    pub name: String,
    pub relations: Option<Vec<RelNode>>,
    /// Sequences and functions, loaded with the relations.
    pub objects: Option<SchemaObjects>,
}

/// What a [`SchemaNode`] says.
pub struct SchemaNodeView {
    pub name: Seq<char>,
    pub relations: Option<Seq<RelNodeView>>,
    pub objects: Option<SchemaObjectsView>,
}

impl DeepView for SchemaNode {
    type V = SchemaNodeView;

    open spec fn deep_view(&self) -> SchemaNodeView {
        SchemaNodeView {
            name: self.name@,
            relations: self.relations.deep_view(),
            objects: self.objects.deep_view(),
        }
    }
}

// ---- items -------------------------------------------------------------------------

/// An item of the tree.
#[derive(Debug)]
pub struct TreeItem {
    pub id: String,
    pub label: String,
    pub children: Vec<TreeItem>,
    pub expanded: bool,
    pub disabled: bool,
}

/// What a [`TreeItem`] says.
#[verifier::ext_equal]
pub struct TreeItemView {
    pub id: Seq<char>,
    pub label: Seq<char>,
    pub children: Seq<TreeItemView>,
    pub expanded: bool,
    pub disabled: bool,
}

impl TreeItem {
    /// What the item says, its children with it.
    pub open spec fn model(self) -> TreeItemView
        decreases self,
    {
        TreeItemView {
            id: self.id@,
            label: self.label@,
            children: Seq::new(
                self.children@.len(),
                |i: int|
                    if 0 <= i < self.children@.len() {
                        self.children@[i].model()
                    } else {
                        arbitrary()
                    },
            ),
            expanded: self.expanded,
            disabled: self.disabled,
        }
    }
}

/// What a list of items says.
pub open spec fn models(items: Seq<TreeItem>) -> Seq<TreeItemView> {
    items.map_values(|i: TreeItem| i.model())
}

/// A closed item without children.
pub open spec fn leaf_item(id: Seq<char>, label: Seq<char>) -> TreeItemView {
    TreeItemView { id, label, children: Seq::empty(), expanded: false, disabled: false }
}

impl TreeItem {
    /// A closed item without children.
    pub fn new(id: &str, label: &str) -> (r: Self)
        ensures
            r.model() == leaf_item(id@, label@),
    {
        let r = TreeItem {
            id: id.to_owned(),
            label: label.to_owned(),
            children: Vec::new(),
            expanded: false,
            disabled: false,
        };
        proof {
            assert(r.model().children =~= Seq::empty());
        }
        r
    }

    /// The item with one more child.
    pub fn child(self, item: TreeItem) -> (r: Self)
        ensures
            r.model() == (TreeItemView {
                children: self.model().children.push(item.model()),
                ..self.model()
            }),
    {
        let mut r = self;
        r.children.push(item);
        proof {
            assert(r.model().children =~= self.model().children.push(item.model()));
        }
        r
    }

    /// The item with these children behind those that it has.
    pub fn children(self, items: Vec<TreeItem>) -> (r: Self)
        ensures
            r.model() == (TreeItemView {
                children: self.model().children + models(items@),
                ..self.model()
            }),
    {
        let mut r = self;
        let mut items = items;
        let ghost more = items@;
        r.children.append(&mut items);
        proof {
            assert(r.model().children =~= self.model().children + models(more));
        }
        r
    }

    /// The item, open or closed.
    pub fn expanded(self, expanded: bool) -> (r: Self)
        ensures
            r.model() == (TreeItemView { expanded, ..self.model() }),
    {
        let mut r = self;
        r.expanded = expanded;
        proof {
            assert(r.model().children =~= self.model().children);
        }
        r
    }

    /// The item, with or without a reaction to clicks.
    pub fn disabled(self, disabled: bool) -> (r: Self)
        ensures
            r.model() == (TreeItemView { disabled, ..self.model() }),
    {
        let mut r = self;
        r.disabled = disabled;
        proof {
            assert(r.model().children =~= self.model().children);
        }
        r
    }

    /// Whether the item is open.
    pub fn is_expanded(&self) -> (r: bool)
        ensures
            r == self.model().expanded,
    {
        self.expanded
    }

    /// Whether the item has children.
    pub fn is_folder(&self) -> (r: bool)
        ensures
            r == (self.model().children.len() > 0),
    {
        self.children.len() > 0
    }
}

// ---- identifiers -------------------------------------------------------------------

/// The identifier of an item: its parts with U+0001 between each two, which no SQL
/// identifier holds.
pub open spec fn node(parts: Seq<Seq<char>>) -> Seq<char> {
    joined(parts, "\u{1}"@)
}

/// The identifier of an item.
pub fn node_id(parts: &[&str]) -> (r: String)
    ensures
        r@ == node(parts.deep_view()),
{
    let mut r = String::new();
    let ghost pv = parts.deep_view();
    let mut i: usize = 0;
    while i < parts.len()
        invariant
            i <= parts@.len(),
            pv == parts.deep_view(),
            r@ == joined(pv.take(i as int), "\u{1}"@),
        decreases parts@.len() - i,
    {
        proof {
            assert(pv.take(i + 1).drop_last() =~= pv.take(i as int));
            assert(pv[i as int] == parts@[i as int]@);
        }
        if i > 0 {
            r.append("\u{1}");
        }
        r.append(parts[i]);
        i += 1;
    }
    proof {
        assert(pv.take(i as int) =~= pv);
    }
    r
}

pub(crate) fn node2(a: &str, b: &str) -> (r: String)
    ensures
        r@ == node(seq![a@, b@]),
{
    let parts = [a, b];
    let s: &[&str] = &parts;
    proof {
        assert(s.deep_view() =~= seq![a@, b@]);
    }
    node_id(s)
}

pub(crate) fn node3(a: &str, b: &str, c: &str) -> (r: String)
    ensures
        r@ == node(seq![a@, b@, c@]),
{
    let parts = [a, b, c];
    let s: &[&str] = &parts;
    proof {
        assert(s.deep_view() =~= seq![a@, b@, c@]);
    }
    node_id(s)
}

fn node4(a: &str, b: &str, c: &str, d: &str) -> (r: String)
    ensures
        r@ == node(seq![a@, b@, c@, d@]),
{
    let parts = [a, b, c, d];
    let s: &[&str] = &parts;
    proof {
        assert(s.deep_view() =~= seq![a@, b@, c@, d@]);
    }
    node_id(s)
}

// ---- what the items are --------------------------------------------------------------

/// What an item of the tree is.
#[derive(Debug, Clone)]
pub enum NodeMeta {
    Db,
    Schema { name: String },
    Rel { schema: String, name: String, kind: RelationKind },
    /// Section header (COLUMNS, INDEXES, CONSTRAINTS and the like).
    Group,
    /// A column, index, constraint, sequence or function: its name and a note on it.
    Leaf { name: String, meta: String },
    /// Filler for what is not there (yet).
    Placeholder,
}

/// What a [`NodeMeta`] says.
pub enum NodeMetaView {
    Db,
    Schema { name: Seq<char> },
    Rel { schema: Seq<char>, name: Seq<char>, kind: RelationKind },
    Group,
    Leaf { name: Seq<char>, meta: Seq<char> },
    Placeholder,
}

impl DeepView for NodeMeta {
    type V = NodeMetaView;

    open spec fn deep_view(&self) -> NodeMetaView {
        match self {
            NodeMeta::Db => NodeMetaView::Db,
            NodeMeta::Schema { name } => NodeMetaView::Schema { name: name@ },
            NodeMeta::Rel { schema, name, kind } => NodeMetaView::Rel {
                schema: schema@,
                name: name@,
                kind: *kind,
            },
            NodeMeta::Group => NodeMetaView::Group,
            NodeMeta::Leaf { name, meta } => NodeMetaView::Leaf { name: name@, meta: meta@ },
            NodeMeta::Placeholder => NodeMetaView::Placeholder,
        }
    }
}

/// An identifier with what its item is.
pub type Entry = (Seq<char>, NodeMetaView);

/// The map that entries make, later ones before earlier ones of the same identifier.
pub open spec fn entry_map(entries: Seq<Entry>) -> Map<Seq<char>, NodeMetaView>
    decreases entries.len(),
{
    if entries.len() == 0 {
        Map::empty()
    } else {
        entry_map(entries.drop_last()).insert(entries.last().0, entries.last().1)
    }
}

/// What the items of a tree are, by identifier.
pub struct NodeMetaMap {
    map: StringHashMap<NodeMeta>,
}

impl DeepView for NodeMetaMap {
    type V = Map<Seq<char>, NodeMetaView>;

    closed spec fn deep_view(&self) -> Map<Seq<char>, NodeMetaView> {
        self.map@.map_values(|m: NodeMeta| m.deep_view())
    }
}

impl NodeMetaMap {
    /// Nothing is known of any item.
    pub fn new() -> (r: Self)
        ensures
            r.deep_view() == Map::<Seq<char>, NodeMetaView>::empty(),
    {
        let r = NodeMetaMap { map: StringHashMap::new() };
        proof {
            assert(r.deep_view() =~= Map::<Seq<char>, NodeMetaView>::empty());
        }
        r
    }

    /// Says what an item is.
    pub fn insert(&mut self, id: String, meta: NodeMeta)
        ensures
            final(self).deep_view() == old(self).deep_view().insert(id@, meta.deep_view()),
    {
        self.map.insert(id, meta);
        proof {
            assert(self.deep_view() =~= old(self).deep_view().insert(id@, meta.deep_view()));
        }
    }

    /// What an item is, if it is known.
    pub fn get(&self, id: &str) -> (r: Option<&NodeMeta>)
        ensures
            (match r {
                Some(m) => self.deep_view().dom().contains(id@) && m.deep_view()
                    == self.deep_view()[id@],
                None => !self.deep_view().dom().contains(id@),
            }),
    {
        self.map.get(id)
    }
}

fn map_of(entries: Vec<(String, NodeMeta)>) -> (r: NodeMetaMap)
    ensures
        r.deep_view() == entry_map(entries.deep_view()),
{
    let mut r = NodeMetaMap::new();
    let ghost ev = entries.deep_view();
    proof {
        assert(ev.take(0) =~= Seq::empty());
    }
    for e in it: entries
        invariant
            it.seq() == entries@,
            ev == entries.deep_view(),
            r.deep_view() == entry_map(ev.take(it.index() as int)),
    {
        proof {
            let k = it.index() as int;
            assert(ev.take(k + 1).drop_last() =~= ev.take(k));
            assert(ev.take(k + 1).last() == e.deep_view());
        }
        r.insert(e.0, e.1);
    }
    proof {
        assert(ev.take(ev.len() as int) =~= ev);
    }
    r
}

// ---- fillers and leaves --------------------------------------------------------------

/// The identifier of the filler below an item.
pub open spec fn filler_id(parent: Seq<char>) -> Seq<char> {
    "load"@ + "\u{1}"@ + parent
}

/// A filler: an item without reaction, which makes its parent a folder.
pub open spec fn filler(parent: Seq<char>, label: Seq<char>) -> TreeItemView {
    TreeItemView { disabled: true, ..leaf_item(filler_id(parent), label) }
}

/// A filler below an item. It also makes that item a folder, so that it can be opened
/// before its children are known.
pub fn placeholder_item(
    parent: &str,
    label: &'static str,
    meta: &mut Vec<(String, NodeMeta)>,
) -> (r: TreeItem)
    ensures
        r.model() == filler(parent@, label@),
        final(meta).deep_view() == old(meta).deep_view().push(
            (filler_id(parent@), NodeMetaView::Placeholder),
        ),
{
    let id = "load".to_owned().concat("\u{1}").concat(parent);
    let item = TreeItem::new(id.as_str(), label).disabled(true);
    meta.push((id, NodeMeta::Placeholder));
    proof {
        assert(meta.deep_view() =~= old(meta).deep_view().push(
            (filler_id(parent@), NodeMetaView::Placeholder),
        ));
    }
    item
}

/// A leaf that is to be made: identifier, name, note.
pub type LeafView = (Seq<char>, Seq<char>, Seq<char>);

/// The items of leaves.
pub open spec fn leaf_items(leaves: Seq<LeafView>) -> Seq<TreeItemView> {
    leaves.map_values(|l: LeafView| leaf_item(l.0, l.1))
}

/// The entries of leaves.
pub open spec fn leaf_entries(leaves: Seq<LeafView>) -> Seq<Entry> {
    leaves.map_values(|l: LeafView| (l.0, NodeMetaView::Leaf { name: l.1, meta: l.2 }))
}

fn make_leaves(
    leaves: Vec<(String, String, String)>,
    meta: &mut Vec<(String, NodeMeta)>,
) -> (r: Vec<TreeItem>)
    ensures
        models(r@) == leaf_items(leaves.deep_view()),
        final(meta).deep_view() == old(meta).deep_view() + leaf_entries(leaves.deep_view()),
{
    let mut items: Vec<TreeItem> = Vec::new();
    let ghost lv = leaves.deep_view();
    let ghost before = meta.deep_view();
    proof {
        assert(before + leaf_entries(lv.take(0)) =~= before);
        assert(models(items@) =~= leaf_items(lv.take(0)));
    }
    for l in it: leaves
        invariant
            it.seq() == leaves@,
            lv == leaves.deep_view(),
            models(items@) == leaf_items(lv.take(it.index() as int)),
            meta.deep_view() == before + leaf_entries(lv.take(it.index() as int)),
    {
        let ghost k = it.index() as int;
        let ghost now = meta.deep_view();
        let ghost made = models(items@);
        let (id, name, note) = l;
        items.push(TreeItem::new(id.as_str(), name.as_str()));
        meta.push((id, NodeMeta::Leaf { name, meta: note }));
        proof {
            assert(lv[k] == l.deep_view());
            assert(lv.take(k + 1) =~= lv.take(k).push(lv[k]));
            assert(models(items@) =~= made.push(leaf_item(lv[k].0, lv[k].1)));
            assert(leaf_items(lv.take(k + 1)) =~= leaf_items(lv.take(k)).push(
                leaf_item(lv[k].0, lv[k].1),
            ));
            let entry = (lv[k].0, NodeMetaView::Leaf { name: lv[k].1, meta: lv[k].2 });
            assert(meta.deep_view() =~= now.push(entry));
            assert(leaf_entries(lv.take(k + 1)) =~= leaf_entries(lv.take(k)).push(entry));
            assert(before + leaf_entries(lv.take(k)).push(entry) =~= (before + leaf_entries(
                lv.take(k),
            )).push(entry));
        }
    }
    proof {
        assert(lv.take(lv.len() as int) =~= lv);
    }
    items
}

/// The note on a column: its type, and whether it is a key or may not be NULL.
pub open spec fn column_note(c: ColumnInfoView) -> Seq<char> {
    c.type_label + (if c.is_primary_key {
        "  PK"@
    } else if !c.nullable {
        "  NOT NULL"@
    } else {
        Seq::empty()
    })
}

/// The note on an index.
pub open spec fn index_note(ix: IndexInfoView) -> Seq<char> {
    if ix.is_primary {
        "PRIMARY"@
    } else if ix.is_unique {
        "UNIQUE"@
    } else {
        Seq::empty()
    }
}

/// The note on a constraint.
pub open spec fn constraint_note(con: ConstraintInfoView) -> Seq<char> {
    if con.kind == 'p' {
        "PRIMARY KEY"@
    } else if con.kind == 'f' {
        "FOREIGN KEY"@
    } else if con.kind == 'u' {
        "UNIQUE"@
    } else if con.kind == 'c' {
        "CHECK"@
    } else if con.kind == 'x' {
        "EXCLUDE"@
    } else {
        Seq::empty()
    }
}

/// The leaves for columns.
pub open spec fn column_leaves(
    schema: Seq<char>,
    rel: Seq<char>,
    columns: Seq<ColumnInfoView>,
) -> Seq<LeafView> {
    columns.map_values(
        |c: ColumnInfoView| (node(seq!["col"@, schema, rel, c.name]), c.name, column_note(c)),
    )
}

/// The leaves for indexes.
pub open spec fn index_leaves(
    schema: Seq<char>,
    rel: Seq<char>,
    indexes: Seq<IndexInfoView>,
) -> Seq<LeafView> {
    indexes.map_values(
        |ix: IndexInfoView| (node(seq!["idx"@, schema, rel, ix.name]), ix.name, index_note(ix)),
    )
}

/// The leaves for constraints.
pub open spec fn constraint_leaves(
    schema: Seq<char>,
    rel: Seq<char>,
    constraints: Seq<ConstraintInfoView>,
) -> Seq<LeafView> {
    constraints.map_values(
        |con: ConstraintInfoView|
            (node(seq!["con"@, schema, rel, con.name]), con.name, constraint_note(con)),
    )
}

/// The leaves for sequences or functions.
pub open spec fn object_leaves(
    tag: Seq<char>,
    schema: Seq<char>,
    names: Seq<Seq<char>>,
) -> Seq<LeafView> {
    names.map_values(|n: Seq<char>| (node(seq![tag, schema, n]), n, Seq::empty()))
}

fn leaves_of_columns(
    schema: &str,
    rel: &str,
    columns: &Vec<ColumnInfo>,
) -> (r: Vec<(String, String, String)>)
    ensures
        r.deep_view() == column_leaves(schema@, rel@, columns.deep_view()),
{
    let mut leaves: Vec<(String, String, String)> = Vec::new();
    for i in 0..columns.len()
        invariant
            leaves@.len() == i,
            forall|j: int|
                0 <= j < i ==> (#[trigger] leaves@[j]).deep_view() == column_leaves(
                    schema@,
                    rel@,
                    columns.deep_view(),
                )[j],
    {
        let c = &columns[i];
        let note = if c.is_primary_key {
            c.type_label.clone().concat("  PK")
        } else if !c.nullable {
            c.type_label.clone().concat("  NOT NULL")
        } else {
            c.type_label.clone()
        };
        proof {
            assert(c.type_label@ + Seq::<char>::empty() =~= c.type_label@);
        }
        leaves.push((node4("col", schema, rel, c.name.as_str()), c.name.clone(), note));
    }
    proof {
        assert(leaves.deep_view() =~= column_leaves(schema@, rel@, columns.deep_view()));
    }
    leaves
}

fn leaves_of_indexes(
    schema: &str,
    rel: &str,
    indexes: &Vec<IndexInfo>,
) -> (r: Vec<(String, String, String)>)
    ensures
        r.deep_view() == index_leaves(schema@, rel@, indexes.deep_view()),
{
    let mut leaves: Vec<(String, String, String)> = Vec::new();
    for i in 0..indexes.len()
        invariant
            leaves@.len() == i,
            forall|j: int|
                0 <= j < i ==> (#[trigger] leaves@[j]).deep_view() == index_leaves(
                    schema@,
                    rel@,
                    indexes.deep_view(),
                )[j],
    {
        let ix = &indexes[i];
        let note = if ix.is_primary {
            "PRIMARY".to_owned()
        } else if ix.is_unique {
            "UNIQUE".to_owned()
        } else {
            String::new()
        };
        leaves.push((node4("idx", schema, rel, ix.name.as_str()), ix.name.clone(), note));
    }
    proof {
        assert(leaves.deep_view() =~= index_leaves(schema@, rel@, indexes.deep_view()));
    }
    leaves
}

fn leaves_of_constraints(
    schema: &str,
    rel: &str,
    constraints: &Vec<ConstraintInfo>,
) -> (r: Vec<(String, String, String)>)
    ensures
        r.deep_view() == constraint_leaves(schema@, rel@, constraints.deep_view()),
{
    let mut leaves: Vec<(String, String, String)> = Vec::new();
    for i in 0..constraints.len()
        invariant
            leaves@.len() == i,
            forall|j: int|
                0 <= j < i ==> (#[trigger] leaves@[j]).deep_view() == constraint_leaves(
                    schema@,
                    rel@,
                    constraints.deep_view(),
                )[j],
    {
        let con = &constraints[i];
        let note = if con.kind == 'p' {
            "PRIMARY KEY".to_owned()
        } else if con.kind == 'f' {
            "FOREIGN KEY".to_owned()
        } else if con.kind == 'u' {
            "UNIQUE".to_owned()
        } else if con.kind == 'c' {
            "CHECK".to_owned()
        } else if con.kind == 'x' {
            "EXCLUDE".to_owned()
        } else {
            String::new()
        };
        leaves.push((node4("con", schema, rel, con.name.as_str()), con.name.clone(), note));
    }
    proof {
        assert(leaves.deep_view() =~= constraint_leaves(schema@, rel@, constraints.deep_view()));
    }
    leaves
}

fn leaves_of_objects(
    tag: &str,
    schema: &str,
    names: &Vec<String>,
) -> (r: Vec<(String, String, String)>)
    ensures
        r.deep_view() == object_leaves(tag@, schema@, names.deep_view()),
{
    let mut leaves: Vec<(String, String, String)> = Vec::new();
    for i in 0..names.len()
        invariant
            leaves@.len() == i,
            forall|j: int|
                0 <= j < i ==> (#[trigger] leaves@[j]).deep_view() == object_leaves(
                    tag@,
                    schema@,
                    names.deep_view(),
                )[j],
    {
        leaves.push((node3(tag, schema, names[i].as_str()), names[i].clone(), String::new()));
    }
    proof {
        assert(leaves.deep_view() =~= object_leaves(tag@, schema@, names.deep_view()));
    }
    leaves
}

// ---- groups ----------------------------------------------------------------------------

/// A section of the tree: open where its identifier is among the open ones.
pub open spec fn group_item(
    gid: Seq<char>,
    label: Seq<char>,
    children: Seq<TreeItemView>,
    open: bool,
) -> TreeItemView {
    TreeItemView { id: gid, label, children, expanded: open, disabled: false }
}

/// The section for leaves, none where there are no leaves.
pub open spec fn group_of(
    gid: Seq<char>,
    label: Seq<char>,
    leaves: Seq<LeafView>,
    open: Set<Seq<char>>,
) -> Seq<TreeItemView> {
    if leaves.len() == 0 {
        Seq::empty()
    } else {
        seq![group_item(gid, label, leaf_items(leaves), open.contains(gid))]
    }
}

/// The entries for the section.
pub open spec fn group_entries(gid: Seq<char>, leaves: Seq<LeafView>) -> Seq<Entry> {
    if leaves.len() == 0 {
        Seq::empty()
    } else {
        seq![(gid, NodeMetaView::Group)] + leaf_entries(leaves)
    }
}

fn push_group(
    items: &mut Vec<TreeItem>,
    gid: String,
    label: &str,
    leaves: Vec<(String, String, String)>,
    open: &IdSet,
    meta: &mut Vec<(String, NodeMeta)>,
)
    ensures
        models(final(items)@) == models(old(items)@) + group_of(
            gid@,
            label@,
            leaves.deep_view(),
            open.deep_view(),
        ),
        final(meta).deep_view() == old(meta).deep_view() + group_entries(
            gid@,
            leaves.deep_view(),
        ),
{
    let ghost items0 = models(items@);
    let ghost meta0 = meta.deep_view();
    let ghost lv = leaves.deep_view();
    if leaves.len() == 0 {
        proof {
            assert(items0 + group_of(gid@, label@, lv, open.deep_view()) =~= items0);
            assert(meta0 + group_entries(gid@, lv) =~= meta0);
        }
        return;
    }
    meta.push((gid.clone(), NodeMeta::Group));
    proof {
        assert(meta.deep_view() =~= meta0.push((gid@, NodeMetaView::Group)));
    }
    let kids = make_leaves(leaves, meta);
    let item = TreeItem::new(gid.as_str(), label).children(kids).expanded(
        open.contains(gid.as_str()),
    );
    proof {
        assert(item.model().children =~= leaf_items(lv));
        assert(item.model() =~= group_item(
            gid@,
            label@,
            leaf_items(lv),
            open.deep_view().contains(gid@),
        ));
        assert(meta.deep_view() =~= meta0 + group_entries(gid@, lv));
    }
    items.push(item);
    proof {
        assert(models(items@) =~= items0 + group_of(gid@, label@, lv, open.deep_view()));
    }
}

// ---- relations -------------------------------------------------------------------------

/// The sections of a relation whose detail is known: its columns (with a filler where it
/// has none), its indexes and its constraints (where it has any).
pub open spec fn detail_items(
    schema: Seq<char>,
    rel: Seq<char>,
    d: RelationDetailView,
    open: Set<Seq<char>>,
) -> Seq<TreeItemView> {
    let gid = node(seq!["cols"@, schema, rel]);
    let columns = column_leaves(schema, rel, d.columns);
    let first = group_item(
        gid,
        "COLUMNS"@,
        if columns.len() == 0 {
            seq![filler(gid, "(none)"@)]
        } else {
            leaf_items(columns)
        },
        open.contains(gid),
    );
    seq![first] + group_of(
        node(seq!["idxs"@, schema, rel]),
        "INDEXES"@,
        index_leaves(schema, rel, d.indexes),
        open,
    ) + group_of(
        node(seq!["cons"@, schema, rel]),
        "CONSTRAINTS"@,
        constraint_leaves(schema, rel, d.constraints),
        open,
    )
}

/// The entries for the sections.
pub open spec fn detail_entries(
    schema: Seq<char>,
    rel: Seq<char>,
    d: RelationDetailView,
) -> Seq<Entry> {
    let gid = node(seq!["cols"@, schema, rel]);
    let columns = column_leaves(schema, rel, d.columns);
    seq![(gid, NodeMetaView::Group)] + leaf_entries(columns) + (if columns.len() == 0 {
        seq![(filler_id(gid), NodeMetaView::Placeholder)]
    } else {
        Seq::empty()
    }) + group_entries(
        node(seq!["idxs"@, schema, rel]),
        index_leaves(schema, rel, d.indexes),
    ) + group_entries(
        node(seq!["cons"@, schema, rel]),
        constraint_leaves(schema, rel, d.constraints),
    )
}

/// The item of a relation. Only tables can be opened; they hold a filler until their
/// detail is known.
pub open spec fn rel_item(
    schema: Seq<char>,
    rel: RelNodeView,
    open: Set<Seq<char>>,
) -> TreeItemView {
    let rid = node(seq!["rel"@, schema, rel.name]);
    if rel.kind != RelationKind::Table {
        leaf_item(rid, rel.name)
    } else {
        group_item(
            rid,
            rel.name,
            match rel.detail {
                None => seq![filler(rid, "loading\u{2026}"@)],
                Some(d) => detail_items(schema, rel.name, d, open),
            },
            open.contains(rid),
        )
    }
}

/// The entries for a relation.
pub open spec fn rel_entries(schema: Seq<char>, rel: RelNodeView) -> Seq<Entry> {
    let rid = node(seq!["rel"@, schema, rel.name]);
    seq![(rid, NodeMetaView::Rel { schema, name: rel.name, kind: rel.kind })] + (if rel.kind
        != RelationKind::Table {
        Seq::empty()
    } else {
        match rel.detail {
            None => seq![(filler_id(rid), NodeMetaView::Placeholder)],
            Some(d) => detail_entries(schema, rel.name, d),
        }
    })
}

fn detail_children(
    schema: &str,
    rel: &str,
    d: &RelationDetail,
    open: &IdSet,
    meta: &mut Vec<(String, NodeMeta)>,
) -> (r: Vec<TreeItem>)
    ensures
        models(r@) == detail_items(schema@, rel@, d.deep_view(), open.deep_view()),
        final(meta).deep_view() == old(meta).deep_view() + detail_entries(
            schema@,
            rel@,
            d.deep_view(),
        ),
{
    let ghost meta0 = meta.deep_view();
    let gid = node3("cols", schema, rel);
    meta.push((gid.clone(), NodeMeta::Group));
    proof {
        assert(meta.deep_view() =~= meta0 + seq![(gid@, NodeMetaView::Group)]);
    }
    let leaves = leaves_of_columns(schema, rel, &d.columns);
    let ghost columns = leaves.deep_view();
    let mut kids = make_leaves(leaves, meta);
    if kids.len() == 0 {
        proof {
            assert(models(kids@).len() == 0);
        }
        kids.push(placeholder_item(gid.as_str(), "(none)", meta));
        proof {
            assert(models(kids@) =~= seq![filler(gid@, "(none)"@)]);
        }
    } else {
        proof {
            assert(models(kids@).len() > 0);
            assert(meta.deep_view() + Seq::<Entry>::empty() =~= meta.deep_view());
        }
    }
    let first = TreeItem::new(gid.as_str(), "COLUMNS").children(kids).expanded(
        open.contains(gid.as_str()),
    );
    let ghost shown = models(kids@);
    proof {
        assert(first.model().children =~= shown);
        assert(first.model() =~= group_item(
            gid@,
            "COLUMNS"@,
            shown,
            open.deep_view().contains(gid@),
        ));
        assert(meta.deep_view() =~= meta0 + (seq![(gid@, NodeMetaView::Group)] + leaf_entries(
            columns,
        ) + (if columns.len() == 0 {
            seq![(filler_id(gid@), NodeMetaView::Placeholder)]
        } else {
            Seq::empty()
        })));
    }
    let mut items: Vec<TreeItem> = Vec::new();
    items.push(first);
    proof {
        assert(models(items@) =~= seq![first.model()]);
    }
    push_group(
        &mut items,
        node3("idxs", schema, rel),
        "INDEXES",
        leaves_of_indexes(schema, rel, &d.indexes),
        open,
        meta,
    );
    push_group(
        &mut items,
        node3("cons", schema, rel),
        "CONSTRAINTS",
        leaves_of_constraints(schema, rel, &d.constraints),
        open,
        meta,
    );
    proof {
        assert(meta.deep_view() =~= meta0 + detail_entries(schema@, rel@, d.deep_view()));
    }
    items
}

/// The item of a relation.
pub fn rel_tree_item(
    schema: &str,
    rel: &RelNode,
    expanded: &IdSet,
    meta: &mut Vec<(String, NodeMeta)>,
) -> (r: TreeItem)
    ensures
        r.model() == rel_item(schema@, rel.deep_view(), expanded.deep_view()),
        final(meta).deep_view() == old(meta).deep_view() + rel_entries(
            schema@,
            rel.deep_view(),
        ),
{
    let ghost meta0 = meta.deep_view();
    let rid = node3("rel", schema, rel.name.as_str());
    meta.push(
        (
            rid.clone(),
            NodeMeta::Rel { schema: schema.to_owned(), name: rel.name.clone(), kind: rel.kind },
        ),
    );
    let ghost own = (
        rid@,
        NodeMetaView::Rel { schema: schema@, name: rel.name@, kind: rel.kind },
    );
    proof {
        assert(meta.deep_view() =~= meta0 + seq![own]);
    }
    let item = TreeItem::new(rid.as_str(), rel.name.as_str());
    if rel.kind != RelationKind::Table {
        proof {
            assert(meta.deep_view() =~= meta0 + rel_entries(schema@, rel.deep_view()));
        }
        return item;
    }
    let kids = match &rel.detail {
        None => {
            let mut kids: Vec<TreeItem> = Vec::new();
            kids.push(placeholder_item(rid.as_str(), "loading\u{2026}", meta));
            proof {
                assert(models(kids@) =~= seq![filler(rid@, "loading\u{2026}"@)]);
            }
            kids
        },
        Some(d) => detail_children(schema, rel.name.as_str(), d, expanded, meta),
    };
    let ghost shown = models(kids@);
    let item = item.children(kids).expanded(expanded.contains(rid.as_str()));
    proof {
        assert(item.model().children =~= shown);
        assert(item.model() =~= rel_item(schema@, rel.deep_view(), expanded.deep_view()));
        assert(meta.deep_view() =~= meta0 + rel_entries(schema@, rel.deep_view()));
    }
    item
}

// ---- schemas ---------------------------------------------------------------------------

/// Whether a relation is kept under a filter, which is in lower case; the empty filter
/// keeps all.
pub open spec fn is_kept(name: Seq<char>, needle: Seq<char>) -> bool {
    needle.len() == 0 || has_part(lowercase(name), needle)
}

/// The relations that a filter keeps, in order.
pub open spec fn kept(rels: Seq<RelNodeView>, needle: Seq<char>) -> Seq<RelNodeView>
    decreases rels.len(),
{
    if rels.len() == 0 {
        rels
    } else if is_kept(rels.last().name, needle) {
        kept(rels.drop_last(), needle).push(rels.last())
    } else {
        kept(rels.drop_last(), needle)
    }
}

/// The items of relations.
pub open spec fn rel_items(
    schema: Seq<char>,
    rels: Seq<RelNodeView>,
    open: Set<Seq<char>>,
) -> Seq<TreeItemView> {
    rels.map_values(|r: RelNodeView| rel_item(schema, r, open))
}

/// The entries for relations.
pub open spec fn all_rel_entries(schema: Seq<char>, rels: Seq<RelNodeView>) -> Seq<Entry>
    decreases rels.len(),
{
    if rels.len() == 0 {
        Seq::empty()
    } else {
        all_rel_entries(schema, rels.drop_last()) + rel_entries(schema, rels.last())
    }
}

/// What stands below a schema: a filler until its relations are known; then the tables
/// that the filter keeps and, without a filter, the sequences and the functions.
pub open spec fn schema_kids(
    n: SchemaNodeView,
    open: Set<Seq<char>>,
    needle: Seq<char>,
) -> Seq<TreeItemView> {
    match n.relations {
        None => seq![filler(node(seq!["sch"@, n.name]), "loading\u{2026}"@)],
        Some(rels) => {
            let gid = node(seq!["tbls"@, n.name]);
            let shown = kept(rels, needle);
            seq![
                group_item(
                    gid,
                    "TABLES"@,
                    if shown.len() == 0 {
                        seq![filler(gid, "(empty)"@)]
                    } else {
                        rel_items(n.name, shown, open)
                    },
                    needle.len() > 0 || open.contains(gid),
                ),
            ] + object_items(n, open, needle)
        },
    }
}

/// The sections for sequences and functions; none under a filter.
pub open spec fn object_items(
    n: SchemaNodeView,
    open: Set<Seq<char>>,
    needle: Seq<char>,
) -> Seq<TreeItemView> {
    if needle.len() > 0 {
        Seq::empty()
    } else {
        match n.objects {
            None => Seq::empty(),
            Some(o) => group_of(
                node(seq!["seqs"@, n.name]),
                "SEQUENCES"@,
                object_leaves("seq"@, n.name, o.sequences),
                open,
            ) + group_of(
                node(seq!["funcs"@, n.name]),
                "FUNCTIONS"@,
                object_leaves("func"@, n.name, o.functions),
                open,
            ),
        }
    }
}

/// The entries for sequences and functions.
pub open spec fn object_entries(n: SchemaNodeView, needle: Seq<char>) -> Seq<Entry> {
    if needle.len() > 0 {
        Seq::empty()
    } else {
        match n.objects {
            None => Seq::empty(),
            Some(o) => group_entries(
                node(seq!["seqs"@, n.name]),
                object_leaves("seq"@, n.name, o.sequences),
            ) + group_entries(
                node(seq!["funcs"@, n.name]),
                object_leaves("func"@, n.name, o.functions),
            ),
        }
    }
}

/// Whether a schema is shown: under a filter, not where it is known that no relation of it
/// is kept.
pub open spec fn schema_shown(n: SchemaNodeView, needle: Seq<char>) -> bool {
    needle.len() == 0 || n.relations is None || kept(n.relations->0, needle).len() > 0
}

/// The item of a schema. A filter opens it.
pub open spec fn schema_item(
    n: SchemaNodeView,
    open: Set<Seq<char>>,
    needle: Seq<char>,
) -> TreeItemView {
    let sid = node(seq!["sch"@, n.name]);
    group_item(sid, n.name, schema_kids(n, open, needle), needle.len() > 0 || open.contains(sid))
}

/// The entries for what stands below a schema.
pub open spec fn kid_entries(n: SchemaNodeView, needle: Seq<char>) -> Seq<Entry> {
    match n.relations {
        None => seq![(filler_id(node(seq!["sch"@, n.name])), NodeMetaView::Placeholder)],
        Some(rels) => {
            let gid = node(seq!["tbls"@, n.name]);
            let shown = kept(rels, needle);
            seq![(gid, NodeMetaView::Group)] + all_rel_entries(n.name, shown) + (if shown.len()
                == 0 {
                seq![(filler_id(gid), NodeMetaView::Placeholder)]
            } else {
                Seq::empty()
            }) + object_entries(n, needle)
        },
    }
}

/// The entries for a schema.
pub open spec fn schema_entries(n: SchemaNodeView, needle: Seq<char>) -> Seq<Entry> {
    kid_entries(n, needle) + (if schema_shown(n, needle) {
        seq![(node(seq!["sch"@, n.name]), NodeMetaView::Schema { name: n.name })]
    } else {
        Seq::empty()
    })
}

/// The items of the schemas that are shown, in order.
pub open spec fn schema_items(
    nodes: Seq<SchemaNodeView>,
    open: Set<Seq<char>>,
    needle: Seq<char>,
) -> Seq<TreeItemView>
    decreases nodes.len(),
{
    if nodes.len() == 0 {
        Seq::empty()
    } else if schema_shown(nodes.last(), needle) {
        schema_items(nodes.drop_last(), open, needle).push(
            schema_item(nodes.last(), open, needle),
        )
    } else {
        schema_items(nodes.drop_last(), open, needle)
    }
}

/// The entries for the schemas.
pub open spec fn all_schema_entries(nodes: Seq<SchemaNodeView>, needle: Seq<char>) -> Seq<Entry>
    decreases nodes.len(),
{
    if nodes.len() == 0 {
        Seq::empty()
    } else {
        all_schema_entries(nodes.drop_last(), needle) + schema_entries(nodes.last(), needle)
    }
}

/// The filter as it is compared: without white space round it, in lower case.
pub open spec fn needle_of(filter: Seq<char>) -> Seq<char> {
    lowercase(trim(filter))
}

/// The whole tree: the database with its schemas. Without a database there is none.
pub open spec fn tree_items(
    dbname: Option<Seq<char>>,
    nodes: Seq<SchemaNodeView>,
    open: Set<Seq<char>>,
    needle: Seq<char>,
) -> Seq<TreeItemView> {
    match dbname {
        None => Seq::empty(),
        Some(name) => seq![
            group_item(
                "db"@,
                name,
                schema_items(nodes, open, needle),
                needle.len() > 0 || open.contains("db"@),
            ),
        ],
    }
}

/// What the items of the tree are.
pub open spec fn tree_entries(
    dbname: Option<Seq<char>>,
    nodes: Seq<SchemaNodeView>,
    needle: Seq<char>,
) -> Seq<Entry> {
    match dbname {
        None => Seq::empty(),
        Some(_) => all_schema_entries(nodes, needle).push(("db"@, NodeMetaView::Db)),
    }
}

fn keeps(name: &str, needle: &str) -> (r: bool)
    ensures
        r == is_kept(name@, needle@),
{
    needle.is_empty() || contains(to_lower(name).as_str(), needle)
}

fn table_children(
    schema: &str,
    gid: &str,
    rels: &Vec<RelNode>,
    open: &IdSet,
    needle: &str,
    meta: &mut Vec<(String, NodeMeta)>,
) -> (r: (Vec<TreeItem>, bool))
    ensures
        ({
            let shown = kept(rels.deep_view(), needle@);
            &&& r.1 == (shown.len() > 0)
            &&& models(r.0@) == (if shown.len() == 0 {
                seq![filler(gid@, "(empty)"@)]
            } else {
                rel_items(schema@, shown, open.deep_view())
            })
            &&& final(meta).deep_view() == old(meta).deep_view() + (all_rel_entries(
                schema@,
                shown,
            ) + (if shown.len() == 0 {
                seq![(filler_id(gid@), NodeMetaView::Placeholder)]
            } else {
                Seq::empty()
            }))
        }),
{
    let ghost meta0 = meta.deep_view();
    let ghost rv = rels.deep_view();
    let mut items: Vec<TreeItem> = Vec::new();
    proof {
        assert(kept(rv.take(0), needle@) =~= Seq::<RelNodeView>::empty());
        assert(models(items@) =~= rel_items(schema@, kept(rv.take(0), needle@), open.deep_view()));
        assert(meta0 + all_rel_entries(schema@, kept(rv.take(0), needle@)) =~= meta0);
    }
    let mut i: usize = 0;
    while i < rels.len()
        invariant
            i <= rels@.len(),
            rv == rels.deep_view(),
            models(items@) == rel_items(
                schema@,
                kept(rv.take(i as int), needle@),
                open.deep_view(),
            ),
            meta.deep_view() == meta0 + all_rel_entries(
                schema@,
                kept(rv.take(i as int), needle@),
            ),
        decreases rels@.len() - i,
    {
        let ghost before = kept(rv.take(i as int), needle@);
        let ghost made = models(items@);
        let ghost known = meta.deep_view();
        proof {
            assert(rv.take(i + 1).drop_last() =~= rv.take(i as int));
            assert(rv[i as int] == rels@[i as int].deep_view());
        }
        if keeps(rels[i].name.as_str(), needle) {
            let item = rel_tree_item(schema, &rels[i], open, meta);
            items.push(item);
            proof {
                let r = rv[i as int];
                assert(kept(rv.take(i + 1), needle@) == before.push(r));
                assert(before.push(r).drop_last() =~= before);
                assert(models(items@) =~= made.push(rel_item(schema@, r, open.deep_view())));
                assert(rel_items(schema@, before.push(r), open.deep_view()) =~= rel_items(
                    schema@,
                    before,
                    open.deep_view(),
                ).push(rel_item(schema@, r, open.deep_view())));
                assert(meta.deep_view() =~= meta0 + all_rel_entries(schema@, before.push(r)));
            }
        }
        i += 1;
    }
    proof {
        assert(rv.take(i as int) =~= rv);
        assert(models(items@).len() == items@.len());
    }
    let ghost shown = kept(rv, needle@);
    if items.len() == 0 {
        items.push(placeholder_item(gid, "(empty)", meta));
        proof {
            assert(models(items@) =~= seq![filler(gid@, "(empty)"@)]);
            assert(meta.deep_view() =~= meta0 + (all_rel_entries(schema@, shown) + seq![
                (filler_id(gid@), NodeMetaView::Placeholder),
            ]));
        }
        (items, false)
    } else {
        proof {
            assert(meta.deep_view() =~= meta0 + (all_rel_entries(schema@, shown)
                + Seq::<Entry>::empty()));
        }
        (items, true)
    }
}

fn push_objects(
    n: &SchemaNode,
    items: &mut Vec<TreeItem>,
    open: &IdSet,
    needle: &str,
    meta: &mut Vec<(String, NodeMeta)>,
)
    ensures
        models(final(items)@) == models(old(items)@) + object_items(
            n.deep_view(),
            open.deep_view(),
            needle@,
        ),
        final(meta).deep_view() == old(meta).deep_view() + object_entries(
            n.deep_view(),
            needle@,
        ),
{
    let ghost items0 = models(items@);
    let ghost meta0 = meta.deep_view();
    if needle.is_empty() {
        if let Some(o) = &n.objects {
            push_group(
                items,
                node2("seqs", n.name.as_str()),
                "SEQUENCES",
                leaves_of_objects("seq", n.name.as_str(), &o.sequences),
                open,
                meta,
            );
            push_group(
                items,
                node2("funcs", n.name.as_str()),
                "FUNCTIONS",
                leaves_of_objects("func", n.name.as_str(), &o.functions),
                open,
                meta,
            );
            proof {
                assert(models(items@) =~= items0 + object_items(
                    n.deep_view(),
                    open.deep_view(),
                    needle@,
                ));
                assert(meta.deep_view() =~= meta0 + object_entries(n.deep_view(), needle@));
            }
            return;
        }
    }
    proof {
        assert(items0 =~= items0 + object_items(n.deep_view(), open.deep_view(), needle@));
        assert(meta0 =~= meta0 + object_entries(n.deep_view(), needle@));
    }
}

fn schema_children(
    n: &SchemaNode,
    sid: &str,
    open: &IdSet,
    needle: &str,
    meta: &mut Vec<(String, NodeMeta)>,
) -> (r: (Vec<TreeItem>, bool))
    requires
        sid@ == node(seq!["sch"@, n.name@]),
    ensures
        models(r.0@) == schema_kids(n.deep_view(), open.deep_view(), needle@),
        r.1 == schema_shown(n.deep_view(), needle@),
        final(meta).deep_view() == old(meta).deep_view() + kid_entries(n.deep_view(), needle@),
{
    let ghost meta0 = meta.deep_view();
    let mut kids: Vec<TreeItem> = Vec::new();
    match &n.relations {
        None => {
            kids.push(placeholder_item(sid, "loading\u{2026}", meta));
            proof {
                assert(models(kids@) =~= schema_kids(n.deep_view(), open.deep_view(), needle@));
                assert(meta.deep_view() =~= meta0 + kid_entries(n.deep_view(), needle@));
            }
            (kids, true)
        },
        Some(rels) => {
            let gid = node2("tbls", n.name.as_str());
            meta.push((gid.clone(), NodeMeta::Group));
            proof {
                assert(meta.deep_view() =~= meta0 + seq![(gid@, NodeMetaView::Group)]);
            }
            let (items, any) = table_children(
                n.name.as_str(),
                gid.as_str(),
                rels,
                open,
                needle,
                meta,
            );
            let ghost shown = models(items@);
            let tables = TreeItem::new(gid.as_str(), "TABLES").children(items).expanded(
                !needle.is_empty() || open.contains(gid.as_str()),
            );
            proof {
                assert(tables.model().children =~= shown);
                assert(tables.model() =~= group_item(
                    gid@,
                    "TABLES"@,
                    shown,
                    needle@.len() > 0 || open.deep_view().contains(gid@),
                ));
            }
            kids.push(tables);
            proof {
                assert(models(kids@) =~= seq![tables.model()]);
            }
            push_objects(n, &mut kids, open, needle, meta);
            proof {
                assert(models(kids@) =~= schema_kids(n.deep_view(), open.deep_view(), needle@));
                assert(meta.deep_view() =~= meta0 + kid_entries(n.deep_view(), needle@));
            }
            (kids, needle.is_empty() || any)
        },
    }
}

/// The tree for a filter that is in lower case already.
pub fn build_tree_for(
    dbname: Option<&str>,
    tree: &[SchemaNode],
    expanded: &IdSet,
    needle: &str,
) -> (r: (Vec<TreeItem>, NodeMetaMap))
    ensures
        models(r.0@) == tree_items(
            dbname.deep_view(),
            tree.deep_view(),
            expanded.deep_view(),
            needle@,
        ),
        r.1.deep_view() == entry_map(tree_entries(dbname.deep_view(), tree.deep_view(), needle@)),
{
    let mut roots: Vec<TreeItem> = Vec::new();
    let mut meta: Vec<(String, NodeMeta)> = Vec::new();
    proof {
        assert(meta.deep_view() =~= Seq::<Entry>::empty());
        assert(models(roots@) =~= Seq::<TreeItemView>::empty());
    }
    let dbname = match dbname {
        None => {
            return (roots, map_of(meta));
        },
        Some(name) => name,
    };
    let ghost tv = tree.deep_view();
    let ghost open = expanded.deep_view();
    let mut schemas: Vec<TreeItem> = Vec::new();
    proof {
        assert(models(schemas@) =~= schema_items(tv.take(0), open, needle@));
        assert(meta.deep_view() =~= all_schema_entries(tv.take(0), needle@));
    }
    let mut i: usize = 0;
    while i < tree.len()
        invariant
            i <= tree@.len(),
            tv == tree.deep_view(),
            open == expanded.deep_view(),
            models(schemas@) == schema_items(tv.take(i as int), open, needle@),
            meta.deep_view() == all_schema_entries(tv.take(i as int), needle@),
        decreases tree@.len() - i,
    {
        let ghost made = models(schemas@);
        let ghost known = meta.deep_view();
        let n = &tree[i];
        proof {
            assert(tv.take(i + 1).drop_last() =~= tv.take(i as int));
            assert(tv[i as int] == n.deep_view());
        }
        let sid = node2("sch", n.name.as_str());
        let (kids, shown) = schema_children(n, sid.as_str(), expanded, needle, &mut meta);
        if shown {
            let ghost below = models(kids@);
            let item = TreeItem::new(sid.as_str(), n.name.as_str()).children(kids).expanded(
                !needle.is_empty() || expanded.contains(sid.as_str()),
            );
            proof {
                assert(item.model().children =~= below);
                assert(item.model() =~= schema_item(n.deep_view(), open, needle@));
            }
            schemas.push(item);
            let ghost mid = meta.deep_view();
            meta.push((sid, NodeMeta::Schema { name: n.name.clone() }));
            proof {
                assert(meta.deep_view() =~= mid.push(
                    (sid@, NodeMetaView::Schema { name: n.name@ }),
                ));
                assert(models(schemas@) =~= made.push(item.model()));
                assert(meta.deep_view() =~= known + schema_entries(n.deep_view(), needle@));
            }
        } else {
            proof {
                assert(meta.deep_view() =~= known + schema_entries(n.deep_view(), needle@));
            }
        }
        i += 1;
    }
    proof {
        assert(tv.take(i as int) =~= tv);
    }
    let ghost below = models(schemas@);
    let ghost known = meta.deep_view();
    meta.push(("db".to_owned(), NodeMeta::Db));
    let db = TreeItem::new("db", dbname).children(schemas).expanded(
        !needle.is_empty() || expanded.contains("db"),
    );
    proof {
        assert(db.model().children =~= below);
        assert(meta.deep_view() =~= known.push(("db"@, NodeMetaView::Db)));
    }
    roots.push(db);
    proof {
        assert(models(roots@) =~= tree_items(Some(dbname@), tv, open, needle@));
    }
    (roots, map_of(meta))
}

/// Builds the items of the tree (database, schemas, sections, relations, leaves) and says
/// what they are. Which items are open comes from `expanded`. A filter that is not blank
/// keeps only the relations whose name holds it, in whatever case, and opens the database,
/// the schemas and their tables for as long as it stands.
pub fn build_tree(
    dbname: Option<&str>,
    tree: &[SchemaNode],
    expanded: &IdSet,
    filter: &str,
) -> (r: (Vec<TreeItem>, NodeMetaMap))
    ensures
        models(r.0@) == tree_items(
            dbname.deep_view(),
            tree.deep_view(),
            expanded.deep_view(),
            needle_of(filter@),
        ),
        r.1.deep_view() == entry_map(
            tree_entries(dbname.deep_view(), tree.deep_view(), needle_of(filter@)),
        ),
{
    let needle = to_lower(trimmed(filter).as_str());
    build_tree_for(dbname, tree, expanded, needle.as_str())
}

// ---- the visible rows --------------------------------------------------------------------

/// The identifiers of the rows that an item shows: its own and, where it is open, those of
/// its children.
pub open spec fn visible(item: TreeItemView) -> Seq<Seq<char>>
    decreases item,
{
    seq![item.id] + (if item.expanded {
        visible_all(item.children)
    } else {
        Seq::empty()
    })
}

/// The identifiers of the rows that items show, from top to bottom.
pub open spec fn visible_all(items: Seq<TreeItemView>) -> Seq<Seq<char>>
    decreases items,
{
    if items.len() == 0 {
        Seq::empty()
    } else {
        visible_all(items.drop_last()) + visible(items.last())
    }
}

/// The first row in which an identifier stands, counted from 0.
pub open spec fn first_row(rows: Seq<Seq<char>>, id: Seq<char>) -> Option<int>
    decreases rows.len(),
{
    if rows.len() == 0 {
        None
    } else {
        match first_row(rows.drop_last(), id) {
            Some(k) => Some(k),
            None => if rows.last() == id {
                Some(rows.len() - 1)
            } else {
                None
            },
        }
    }
}

fn collect_item(item: &TreeItem, out: &mut Vec<String>)
    ensures
        final(out).deep_view() == old(out).deep_view() + visible(item.model()),
    decreases *item,
{
    let ghost before = out.deep_view();
    out.push(item.id.clone());
    let ghost mid = out.deep_view();
    proof {
        assert(mid =~= before + seq![item.id@]);
    }
    if item.expanded {
        let ghost kids = item.model().children;
        let mut i: usize = 0;
        proof {
            assert(mid + visible_all(kids.take(0)) =~= mid);
        }
        while i < item.children.len()
            invariant
                i <= item.children@.len(),
                kids == item.model().children,
                kids.len() == item.children@.len(),
                out.deep_view() == mid + visible_all(kids.take(i as int)),
            decreases item.children@.len() - i,
        {
            proof {
                assert(kids.take(i + 1).drop_last() =~= kids.take(i as int));
                assert(kids.take(i + 1).last() == item.children@[i as int].model());
            }
            let ghost done = visible_all(kids.take(i as int));
            collect_item(&item.children[i], out);
            proof {
                let own = visible(item.children@[i as int].model());
                assert(mid + done + own =~= mid + (done + own));
            }
            i += 1;
        }
        proof {
            assert(kids.take(i as int) =~= kids);
            assert(mid + visible_all(kids) =~= before + visible(item.model()));
        }
    } else {
        proof {
            assert(mid =~= before + visible(item.model()));
        }
    }
}

/// The identifiers of the rows that items show, from top to bottom.
pub fn visible_rows(items: &[TreeItem]) -> (r: Vec<String>)
    ensures
        r.deep_view() == visible_all(models(items@)),
{
    let ghost all = models(items@);
    let mut out: Vec<String> = Vec::new();
    proof {
        assert(out.deep_view() =~= visible_all(all.take(0)));
    }
    let mut i: usize = 0;
    while i < items.len()
        invariant
            i <= items@.len(),
            all == models(items@),
            out.deep_view() == visible_all(all.take(i as int)),
        decreases items@.len() - i,
    {
        proof {
            assert(all.take(i + 1).drop_last() =~= all.take(i as int));
            assert(all.take(i + 1).last() == items@[i as int].model());
        }
        collect_item(&items[i], &mut out);
        i += 1;
    }
    proof {
        assert(all.take(i as int) =~= all);
    }
    out
}

/// The row, counted from 0, in which an item is shown; `None` where it is not shown.
pub fn flat_index_of(items: &[TreeItem], id: &str) -> (r: Option<usize>)
    ensures
        (match r {
            Some(k) => first_row(visible_all(models(items@)), id@) == Some(k as int),
            None => first_row(visible_all(models(items@)), id@) is None,
        }),
{
    let rows = visible_rows(items);
    let ghost rv = rows.deep_view();
    let mut i: usize = 0;
    while i < rows.len()
        invariant
            i <= rows@.len(),
            rv == rows.deep_view(),
            rv == visible_all(models(items@)),
            first_row(rv.take(i as int), id@) is None,
        decreases rows@.len() - i,
    {
        proof {
            assert(rv.take(i + 1).drop_last() =~= rv.take(i as int));
            assert(rv.take(i + 1).last() == rows@[i as int]@);
        }
        if *rows[i].as_str() == *id {
            proof {
                lemma_first_row_stays(rv, id@, i + 1);
            }
            return Some(i);
        }
        i += 1;
    }
    proof {
        assert(rv.take(i as int) =~= rv);
    }
    None
}

proof fn lemma_first_row_stays(rows: Seq<Seq<char>>, id: Seq<char>, k: int)
    requires
        0 <= k <= rows.len(),
        first_row(rows.take(k), id) is Some,
    ensures
        first_row(rows, id) == first_row(rows.take(k), id),
    decreases rows.len() - k,
{
    if k == rows.len() {
        assert(rows.take(k) =~= rows);
    } else {
        assert(rows.take(k + 1).drop_last() =~= rows.take(k));
        lemma_first_row_stays(rows, id, k + 1);
    }
}

/// The row that is found shows the item, no row above it does, and an item that is shown
/// is found.
pub proof fn law_first_row(rows: Seq<Seq<char>>, id: Seq<char>)
    ensures
        (match first_row(rows, id) {
            Some(k) => 0 <= k < rows.len() && rows[k] == id && forall|j: int|
                0 <= j < k ==> #[trigger] rows[j] != id,
            None => forall|j: int| 0 <= j < rows.len() ==> #[trigger] rows[j] != id,
        }),
    decreases rows.len(),
{
    if rows.len() > 0 {
        let front = rows.drop_last();
        law_first_row(front, id);
        match first_row(front, id) {
            Some(k) => {
                assert(front[k] == rows[k]);
                assert forall|j: int| 0 <= j < k implies #[trigger] rows[j] != id by {
                    assert(front[j] == rows[j]);
                }
            },
            None => {
                assert forall|j: int| 0 <= j < rows.len() - 1 implies #[trigger] rows[j] != id by {
                    assert(front[j] == rows[j]);
                }
            },
        }
    }
}

// ---- keeping track of what is open -----------------------------------------------------

/// Whether the state of an item is the filter's doing: the database and the schemas are
/// open for as long as a filter stands.
pub open spec fn is_transient(id: Seq<char>, filtering: bool) -> bool {
    filtering && (id == "db"@ || "sch\u{1}"@.is_prefix_of(id))
}

/// The folders of an item with their states, from top to bottom, without those whose
/// state is the filter's doing.
pub open spec fn states(item: TreeItemView, filtering: bool) -> Seq<(Seq<char>, bool)>
    decreases item,
{
    if item.children.len() == 0 {
        Seq::empty()
    } else {
        (if is_transient(item.id, filtering) {
            Seq::empty()
        } else {
            seq![(item.id, item.expanded)]
        }) + all_states(item.children, filtering)
    }
}

/// The folders of items with their states.
pub open spec fn all_states(items: Seq<TreeItemView>, filtering: bool) -> Seq<(Seq<char>, bool)>
    decreases items,
{
    if items.len() == 0 {
        Seq::empty()
    } else {
        all_states(items.drop_last(), filtering) + states(items.last(), filtering)
    }
}

/// The open items after the states were noted, one after the other.
pub open spec fn noted(open: Set<Seq<char>>, marks: Seq<(Seq<char>, bool)>) -> Set<Seq<char>>
    decreases marks.len(),
{
    if marks.len() == 0 {
        open
    } else {
        let before = noted(open, marks.drop_last());
        if marks.last().1 {
            before.insert(marks.last().0)
        } else {
            before.remove(marks.last().0)
        }
    }
}

/// Whether noting the states changed anything on the way.
pub open spec fn any_change(open: Set<Seq<char>>, marks: Seq<(Seq<char>, bool)>) -> bool
    decreases marks.len(),
{
    marks.len() > 0 && (any_change(open, marks.drop_last()) || noted(
        open,
        marks.drop_last(),
    ).contains(marks.last().0) != marks.last().1)
}

proof fn lemma_noted_concat(
    open: Set<Seq<char>>,
    a: Seq<(Seq<char>, bool)>,
    b: Seq<(Seq<char>, bool)>,
)
    ensures
        noted(open, a + b) == noted(noted(open, a), b),
        any_change(open, a + b) == (any_change(open, a) || any_change(noted(open, a), b)),
    decreases b.len(),
{
    if b.len() == 0 {
        assert(a + b =~= a);
    } else {
        lemma_noted_concat(open, a, b.drop_last());
        assert((a + b).drop_last() =~= a + b.drop_last());
    }
}

fn note_item(item: &TreeItem, filtering: bool, expanded: &mut IdSet) -> (r: bool)
    ensures
        final(expanded).deep_view() == noted(
            old(expanded).deep_view(),
            states(item.model(), filtering),
        ),
        r == any_change(old(expanded).deep_view(), states(item.model(), filtering)),
    decreases *item,
{
    if item.children.len() == 0 {
        return false;
    }
    let ghost open0 = expanded.deep_view();
    let ghost kids = item.model().children;
    let transient = filtering && (*item.id.as_str() == *"db" || starts_with(
        item.id.as_str(),
        "sch\u{1}",
    ));
    let mut changed = false;
    let ghost own = if is_transient(item.id@, filtering) {
        Seq::empty()
    } else {
        seq![(item.id@, item.expanded)]
    };
    if !transient {
        if item.expanded != expanded.contains(item.id.as_str()) {
            if item.expanded {
                expanded.insert(item.id.clone());
            } else {
                expanded.remove(item.id.as_str());
            }
            changed = true;
        } else {
            proof {
                if item.expanded {
                    assert(open0.insert(item.id@) =~= open0);
                } else {
                    assert(open0.remove(item.id@) =~= open0);
                }
            }
        }
        proof {
            assert(own.drop_last() =~= Seq::<(Seq<char>, bool)>::empty());
            assert(noted(open0, own.drop_last()) == open0);
            assert(!any_change(open0, own.drop_last()));
        }
    }
    let ghost mid = expanded.deep_view();
    let ghost first = changed;
    proof {
        assert(mid == noted(open0, own));
        assert(first == any_change(open0, own));
        assert(all_states(kids.take(0), filtering) =~= Seq::<(Seq<char>, bool)>::empty());
    }
    let mut i: usize = 0;
    while i < item.children.len()
        invariant
            i <= item.children@.len(),
            kids == item.model().children,
            kids.len() == item.children@.len(),
            expanded.deep_view() == noted(mid, all_states(kids.take(i as int), filtering)),
            changed == (first || any_change(mid, all_states(kids.take(i as int), filtering))),
        decreases item.children@.len() - i,
    {
        proof {
            assert(kids.take(i + 1).drop_last() =~= kids.take(i as int));
            assert(kids.take(i + 1).last() == item.children@[i as int].model());
            lemma_noted_concat(
                mid,
                all_states(kids.take(i as int), filtering),
                states(item.children@[i as int].model(), filtering),
            );
        }
        if note_item(&item.children[i], filtering, expanded) {
            changed = true;
        }
        i += 1;
    }
    proof {
        assert(kids.take(i as int) =~= kids);
        lemma_noted_concat(open0, own, all_states(kids, filtering));
    }
    changed
}

/// Notes which items are open now. While a filter stands, the database and the schemas are
/// open on its account and are left out. Tells whether anything changed.
pub fn sync_expansion(items: &[TreeItem], filtering: bool, expanded: &mut IdSet) -> (r: bool)
    ensures
        final(expanded).deep_view() == noted(
            old(expanded).deep_view(),
            all_states(models(items@), filtering),
        ),
        r == any_change(old(expanded).deep_view(), all_states(models(items@), filtering)),
{
    let ghost all = models(items@);
    let ghost open0 = expanded.deep_view();
    let mut changed = false;
    proof {
        assert(all_states(all.take(0), filtering) =~= Seq::<(Seq<char>, bool)>::empty());
    }
    let mut i: usize = 0;
    while i < items.len()
        invariant
            i <= items@.len(),
            all == models(items@),
            expanded.deep_view() == noted(open0, all_states(all.take(i as int), filtering)),
            changed == any_change(open0, all_states(all.take(i as int), filtering)),
        decreases items@.len() - i,
    {
        proof {
            assert(all.take(i + 1).drop_last() =~= all.take(i as int));
            assert(all.take(i + 1).last() == items@[i as int].model());
            lemma_noted_concat(
                open0,
                all_states(all.take(i as int), filtering),
                states(items@[i as int].model(), filtering),
            );
        }
        if note_item(&items[i], filtering, expanded) {
            changed = true;
        }
        i += 1;
    }
    proof {
        assert(all.take(i as int) =~= all);
    }
    changed
}

} // verus!
