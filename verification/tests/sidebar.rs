use zdb::config::ConnectionConfig;
use zdb::error::DbError;
use zdb::ids::IdSet;
use zdb::introspect::{
    ColumnInfo, ConstraintInfo, IndexInfo, RelationDetail, RelationInfo, RelationKind, SchemaInfo,
    SchemaObjects,
};
use zdb::settings::Settings;
use zdb::tree::{
    build_tree, flat_index_of, node_id, sync_expansion, visible_rows, NodeMeta, RelNode,
    SchemaNode, TreeItem,
};
use zdb::workspace::state::{Effect, Workspace};
use zdb::workspace::tab::TabKind;
use zdb::workspace::view::SidebarRow;

fn leaf(id: &str) -> TreeItem {
    TreeItem::new(id, id)
}

fn sample_tree() -> Vec<SchemaNode> {
    vec![
        SchemaNode {
            name: "public".into(),
            relations: Some(vec![
                RelNode { name: "users".into(), kind: RelationKind::Table, detail: None },
                RelNode { name: "v_orders".into(), kind: RelationKind::View, detail: None },
            ]),
            objects: None,
        },
        SchemaNode { name: "audit".into(), relations: None, objects: None },
    ]
}

fn connected() -> Workspace {
    let mut ws = Workspace::new(Settings::default(), None);
    ws.conn = Some(1);
    ws.cfg = Some(ConnectionConfig::new("dev", "h", "zdb", "u"));
    ws
}

#[test]
fn flat_index_mirrors_widget_flattening() {
    // Same semantics as the widget's own `test_tree_entry`: children are
    // visible (counted) only under an expanded parent.
    let items = vec![
        TreeItem::new("src", "src")
            .expanded(true)
            .child(TreeItem::new("src/ui", "ui").child(leaf("src/ui/button.rs")))
            .child(leaf("src/lib.rs")),
        leaf("Cargo.toml"),
    ];
    assert_eq!(flat_index_of(&items, "src"), Some(0));
    assert_eq!(flat_index_of(&items, "src/ui"), Some(1));
    assert_eq!(flat_index_of(&items, "src/ui/button.rs"), None); // collapsed
    assert_eq!(flat_index_of(&items, "src/lib.rs"), Some(2));
    assert_eq!(flat_index_of(&items, "Cargo.toml"), Some(3));
    assert_eq!(flat_index_of(&items, "nope"), None);
}

#[test]
fn visible_rows_are_those_of_open_items() {
    let items = vec![
        TreeItem::new("a", "a").expanded(true).child(leaf("b")).child(leaf("c")),
        TreeItem::new("d", "d").child(leaf("e")),
    ];
    assert_eq!(visible_rows(&items), vec!["a", "b", "c", "d"]);
}

#[test]
fn build_tree_shapes_and_filters() {
    let mut expanded = IdSet::new();
    expanded.insert("db".to_string());
    expanded.insert(node_id(&["sch", "public"]));

    let (items, meta) = build_tree(Some("zdb"), &sample_tree(), &expanded, "");
    assert_eq!(items.len(), 1);
    let db = &items[0];
    assert!(db.is_expanded());
    assert_eq!(db.children.len(), 2);
    let public = &db.children[0];
    assert!(public.is_expanded());
    // Relations sit under a TABLES group (folded here: not in `expanded`).
    assert_eq!(public.children.len(), 1);
    let tables = &public.children[0];
    assert_eq!(tables.label, "TABLES");
    assert!(!tables.is_expanded());
    assert_eq!(tables.children.len(), 2);
    // Unloaded table gets a loading placeholder so it stays expandable;
    // views are plain leaves.
    assert!(tables.children[0].is_folder());
    assert!(!tables.children[1].is_folder());
    // Unloaded schema: collapsed folder with a loading placeholder.
    let audit = &db.children[1];
    assert!(audit.is_folder());
    assert!(!audit.is_expanded());
    assert!(matches!(
        meta.get(&node_id(&["rel", "public", "users"])),
        Some(NodeMeta::Rel { .. })
    ));

    // Filtering: only matching relations remain; loaded schemas without a
    // match drop out, unloaded ones stay (results refine as loads land);
    // db + schemas + TABLES groups are force-expanded.
    let (items, _) = build_tree(Some("zdb"), &sample_tree(), &IdSet::new(), "user");
    let db = &items[0];
    assert!(db.is_expanded());
    let names: Vec<_> = db.children.iter().map(|c| c.label.to_string()).collect();
    assert_eq!(names, vec!["public", "audit"]);
    let tables = &db.children[0].children[0];
    assert!(tables.is_expanded());
    assert_eq!(tables.children.len(), 1);
    assert_eq!(tables.children[0].label, "users");

    // Not connected → no items at all.
    assert!(build_tree(None, &sample_tree(), &IdSet::new(), "").0.is_empty());
}

#[test]
fn filter_takes_any_case() {
    let (items, _) = build_tree(Some("zdb"), &sample_tree(), &IdSet::new(), "  USERS ");
    assert_eq!(items[0].children[0].children[0].children[0].label, "users");
    let mut nodes = sample_tree();
    nodes[0].relations.as_mut().unwrap()[0].name = "ÄPFEL".into();
    let (items, _) = build_tree(Some("zdb"), &nodes, &IdSet::new(), "äpf");
    assert_eq!(items[0].children[0].children[0].children[0].label, "ÄPFEL");
}

#[test]
fn details_and_objects_are_sections() {
    let mut nodes = sample_tree();
    nodes[0].relations.as_mut().unwrap()[0].detail = Some(RelationDetail {
        columns: vec![
            ColumnInfo {
                name: "id".into(),
                type_label: "int4".into(),
                nullable: false,
                default: None,
                is_primary_key: true,
                position: 1,
            },
            ColumnInfo {
                name: "mail".into(),
                type_label: "text".into(),
                nullable: false,
                default: None,
                is_primary_key: false,
                position: 2,
            },
            ColumnInfo {
                name: "note".into(),
                type_label: "text".into(),
                nullable: true,
                default: None,
                is_primary_key: false,
                position: 3,
            },
        ],
        indexes: vec![IndexInfo {
            name: "users_pkey".into(),
            is_unique: true,
            is_primary: true,
            definition: "".into(),
        }],
        constraints: vec![ConstraintInfo {
            name: "users_fk".into(),
            kind: 'f',
            definition: "".into(),
        }],
    });
    nodes[0].objects = Some(SchemaObjects {
        sequences: vec!["users_id_seq".into()],
        functions: vec!["f".into()],
    });
    let (items, meta) = build_tree(Some("zdb"), &nodes, &IdSet::new(), "");
    let public = &items[0].children[0];
    let labels: Vec<&str> = public.children.iter().map(|c| c.label.as_str()).collect();
    assert_eq!(labels, vec!["TABLES", "SEQUENCES", "FUNCTIONS"]);
    let users = &public.children[0].children[0];
    let labels: Vec<&str> = users.children.iter().map(|c| c.label.as_str()).collect();
    assert_eq!(labels, vec!["COLUMNS", "INDEXES", "CONSTRAINTS"]);
    let note = |parts: &[&str]| match meta.get(&node_id(parts)) {
        Some(NodeMeta::Leaf { meta, .. }) => meta.clone(),
        _ => panic!("no leaf"),
    };
    assert_eq!(note(&["col", "public", "users", "id"]), "int4  PK");
    assert_eq!(note(&["col", "public", "users", "mail"]), "text  NOT NULL");
    assert_eq!(note(&["col", "public", "users", "note"]), "text");
    assert_eq!(note(&["idx", "public", "users", "users_pkey"]), "PRIMARY");
    assert_eq!(note(&["con", "public", "users", "users_fk"]), "FOREIGN KEY");
}

#[test]
fn sync_expansion_mirrors_widget_toggles() {
    let mut expanded = IdSet::new();
    let mut items = vec![TreeItem::new("db", "zdb")
        .child(TreeItem::new("sch\u{1}public", "public").child(leaf("x")))];
    // A toggle in the widget opens the items.
    items[0].expanded = true;
    items[0].children[0].expanded = true;
    assert!(sync_expansion(&items, false, &mut expanded));
    assert!(expanded.contains("db"));
    assert!(expanded.contains("sch\u{1}public"));
    // While filtering, db/schema expansion is transient: a widget-side
    // collapse must not touch expanded_ids.
    items[0].expanded = false;
    items[0].children[0].expanded = false;
    assert!(!sync_expansion(&items, true, &mut expanded));
    assert!(expanded.contains("db"));
    // The same collapse with no filter does sync.
    assert!(sync_expansion(&items, false, &mut expanded));
    assert!(!expanded.contains("db"));
}

#[test]
fn opening_table_reveals_tree_node() {
    // A connected state with loaded relations (no real DB).
    let mut ws = connected();
    ws.tree.schemas = sample_tree();
    ws.open_table_tab("public".into(), "users".into());
    assert!(ws.tree.expanded.contains("db"));
    assert!(ws.tree.expanded.contains(&node_id(&["sch", "public"])));
    assert!(ws.tree.pending_reveal.is_none(), "reveal consumed");
    let rel = node_id(&["rel", "public", "users"]);
    let ix = flat_index_of(&ws.tree.items, &rel).expect("node visible");
    let selected = ws.take_outbox().into_iter().find_map(|e| match e {
        Effect::ShowTree { selected, scroll: true } => selected,
        _ => None,
    });
    assert_eq!(selected, Some(ix));
}

#[test]
fn widget_toggle_kicks_lazy_load() {
    let mut ws = connected();
    ws.tree.schemas = vec![SchemaNode { name: "public".into(), relations: None, objects: None }];
    ws.tree.expanded.insert("db".into());
    ws.sync_tree();
    let sch = node_id(&["sch", "public"]);
    assert!(!ws.tree.loads.contains(&sch), "collapsed schema: nothing to load");
    // The widget opens the schema row and tells of it.
    let mut items = std::mem::take(&mut ws.tree.items);
    assert!(items[0].children[0].is_folder(), "loading placeholder keeps it expandable");
    items[0].children[0].expanded = true;
    ws.on_tree_notify(items, Some(sch.clone()));
    assert!(ws.tree.expanded.contains(&node_id(&["sch", "public"])));
    assert!(ws.tree.loads.contains(&node_id(&["sch", "public"])));
    assert_eq!(ws.tree.sel.as_deref(), Some(sch.as_str()));
}

#[test]
fn nothing_is_asked_for_twice() {
    let mut ws = connected();
    ws.tree.schemas = sample_tree();
    ws.tree.expanded.insert(node_id(&["sch", "audit"]));
    ws.tree.expanded.insert(node_id(&["rel", "public", "users"]));
    ws.ensure_loads();
    let asked = ws.take_outbox();
    assert_eq!(asked.len(), 2);
    assert!(matches!(&asked[0], Effect::LoadRelations { schema, .. } if schema == "audit"));
    assert!(matches!(&asked[1], Effect::LoadDetail { table, .. } if table == "users"));
    ws.ensure_loads();
    assert!(ws.take_outbox().is_empty());
}

#[test]
fn schemas_come_and_relations_follow() {
    let mut ws = connected();
    ws.tree.expanded.insert(node_id(&["sch", "public"]));
    ws.schemas_loaded(Ok(vec![SchemaInfo { oid: 1, name: "public".into() }]), true);
    assert_eq!(ws.status, "1 schema(s)");
    let out = ws.take_outbox();
    assert!(matches!(&out[0], Effect::LoadRelations { schema, .. } if schema == "public"));
    assert!(matches!(out[1], Effect::ShowTree { selected: None, scroll: false }));
    assert!(matches!(out[2], Effect::SelfTest { conn: 1 }));

    ws.relations_loaded(
        "public",
        Ok(vec![RelationInfo::from_row("public", 7, "users".into(), "r")]),
        Err(DbError::WorkerGone),
    );
    assert!(!ws.tree.loads.contains(&node_id(&["sch", "public"])));
    let rels = ws.tree.schemas[0].relations.as_ref().unwrap();
    assert_eq!(rels[0].name, "users");
    assert!(ws.tree.schemas[0].objects.is_none());
    assert!(ws.tree.expanded.contains(&node_id(&["tbls", "public"])));

    ws.detail_loaded("public", "users", Err(DbError::NoConnection(1)));
    assert_eq!(ws.status, "Failed to load relation detail: no such connection: 1");
    ws.schemas_loaded(Err(DbError::WorkerGone), false);
    assert_eq!(ws.status, "Failed to load schemas: database worker stopped");
    ws.relations_loaded("nowhere", Err(DbError::WorkerGone), Err(DbError::WorkerGone));
    assert_eq!(ws.status, "Failed to load relations: database worker stopped");
}

#[test]
fn reveal_waits_for_the_relations() {
    let mut ws = connected();
    ws.tree.schemas = vec![SchemaNode { name: "public".into(), relations: None, objects: None }];
    ws.reveal_relation("public", "users");
    assert!(ws.tree.pending_reveal.is_some());
    ws.relations_loaded(
        "public",
        Ok(vec![RelationInfo::from_row("public", 7, "users".into(), "r")]),
        Ok(SchemaObjects { sequences: vec![], functions: vec![] }),
    );
    assert!(ws.tree.pending_reveal.is_none());
    assert!(matches!(
        ws.take_outbox().last(),
        Some(Effect::ShowTree { selected: Some(3), scroll: true })
    ));
}

#[test]
fn filter_asks_for_all_schemas() {
    let mut ws = connected();
    ws.tree.schemas = sample_tree();
    ws.set_filter("  us ");
    assert_eq!(ws.tree.filter, "us");
    assert!(matches!(
        ws.take_outbox().first(),
        Some(Effect::LoadRelations { schema, .. }) if schema == "audit"
    ));
    ws.set_filter("us");
    assert!(ws.take_outbox().is_empty());
}

#[test]
fn selected_relation_is_opened() {
    let mut ws = connected();
    ws.tree.schemas = sample_tree();
    ws.sync_tree();
    let id = node_id(&["rel", "public", "v_orders"]);
    ws.open_selected_tree_node(Some(&id));
    assert!(matches!(
        &ws.active_tab().unwrap().kind,
        TabKind::Table { schema, table } if schema == "public" && table == "v_orders"
    ));
    ws.open_selected_tree_node(Some("db"));
    ws.open_selected_tree_node(None);
    assert_eq!(ws.tabs.len(), 1);
}

#[test]
fn sidebar_lists_schemas_and_relations() {
    let mut ws = connected();
    ws.tree.schemas = sample_tree();
    ws.tree.schemas.push(SchemaNode {
        name: "empty".into(),
        relations: Some(vec![]),
        objects: None,
    });
    ws.toggle_schema(0);
    ws.toggle_schema(1);
    ws.toggle_schema(2);
    let side = ws.sidebar();
    assert_eq!(side.title, "dev");
    assert_eq!(side.buttons.len(), 3);
    let rows: Vec<String> = side
        .rows
        .iter()
        .map(|r| match r {
            SidebarRow::Schema { chevron, name, .. } => format!("{chevron} {name}"),
            SidebarRow::Note { text } => text.to_string(),
            SidebarRow::Relation { icon, name, .. } => format!("{icon} {name}"),
        })
        .collect();
    assert_eq!(
        rows,
        vec![
            "icons/chevron-down.svg public",
            "icons/table.svg users",
            "icons/eye.svg v_orders",
            "icons/chevron-down.svg audit",
            "loading…",
            "icons/chevron-down.svg empty",
            "(no tables)",
        ]
    );
    ws.toggle_schema(0);
    assert_eq!(ws.sidebar().rows.len(), 5);
    ws.conn = None;
    let side = ws.sidebar();
    assert_eq!(side.title, "DATABASE");
    assert_eq!(side.buttons.len(), 2);
}
