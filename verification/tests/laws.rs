use zdb::catalog::{catalog_queries, selftest_statements, COLUMNS_SQL, RELATIONS_SQL, SCHEMAS_SQL};
use zdb::edit::{build_batch, EditTarget, RowEdit};
use zdb::export::{to_csv, to_inserts, to_json, to_tsv};
use zdb::ids::IdSet;
use zdb::introspect::{IntrospectKind, RelationDetail, RelationKind, SchemaObjects};
use zdb::lsp::json_quote;
use zdb::settings::Settings;
use zdb::sql::statement_at;
use zdb::tree::{
    build_tree, flat_index_of, node_id, sync_expansion, visible_rows, NodeMetaMap, RelNode,
    SchemaNode, TreeItem,
};
use zdb::types::CellValue;
use zdb::workspace::action::{Action, TabAction};
use zdb::workspace::state::Workspace;

const NASTY: &str = "a'b\"c;d--e/*f*/$g$ \n\\ä";

fn text(s: &str) -> CellValue {
    CellValue::Text(s.into())
}

fn target() -> EditTarget {
    EditTarget { schema: NASTY.into(), table: "t;".into(), pk_columns: vec!["id'".into()] }
}

fn edits() -> Vec<RowEdit> {
    vec![
        RowEdit::Update {
            pk: vec![("id'".into(), text(NASTY))],
            set: vec![(NASTY.into(), text(";--"))],
        },
        RowEdit::Insert { values: vec![("x;".into(), text(NASTY)), ("y".into(), CellValue::Null)] },
        RowEdit::Delete { pk: vec![("id'".into(), text("$$;$$"))] },
    ]
}

/// The statements of a text, each one once, by where the cursor can stand.
fn statements(sql: &str) -> Vec<String> {
    let mut found: Vec<String> = Vec::new();
    for cursor in 0..=sql.len() {
        let s = statement_at(sql, cursor);
        if s != sql.trim() && found.last() != Some(&s) {
            found.push(s);
        }
    }
    found
}

#[test]
fn a_change_is_one_statement() {
    for edit in edits() {
        let sql = edit.to_sql(&target()).unwrap();
        for cursor in 0..=sql.len() {
            assert_eq!(statement_at(&sql, cursor), sql);
        }
    }
}

#[test]
fn a_batch_reads_as_its_statements() {
    let batch = build_batch(&target(), &edits()).unwrap().unwrap();
    let mut expected = vec!["BEGIN".to_string()];
    expected.extend(edits().iter().map(|e| e.to_sql(&target()).unwrap()));
    expected.push("COMMIT".to_string());
    assert_eq!(statements(&batch), expected);
}

#[test]
fn inserts_read_as_one_statement_each() {
    let headers = vec![NASTY.to_string(), "b;".to_string()];
    let rows = vec![vec![text(NASTY), CellValue::Null], vec![text(";"), text("'")]];
    let sql = to_inserts("\"s;\".\"t\"", &headers, &rows);
    assert_eq!(statements(&sql).len(), 2);
}

#[test]
fn csv_reads_back() {
    let headers = vec!["a,b".to_string(), "c\"d".to_string()];
    let rows = vec![vec![text("1\r\n2"), CellValue::Null], vec![text(""), text("\"\"")]];
    let csv = to_csv(&headers, &rows);
    let mut records: Vec<Vec<String>> = vec![vec![String::new()]];
    let mut inside = false;
    let mut chars = csv.chars().peekable();
    while let Some(c) = chars.next() {
        let field = records.last_mut().unwrap().last_mut().unwrap();
        match c {
            '"' if inside && chars.peek() == Some(&'"') => {
                chars.next();
                field.push('"');
            }
            '"' => inside = !inside,
            ',' if !inside => records.last_mut().unwrap().push(String::new()),
            '\r' if !inside => {}
            '\n' if !inside => records.push(vec![String::new()]),
            c => field.push(c),
        }
    }
    records.pop();
    assert_eq!(
        records,
        vec![vec!["a,b", "c\"d"], vec!["1\r\n2", ""], vec!["", "\"\""]]
    );
}

#[test]
fn json_reads_back() {
    let headers = vec!["b".to_string(), "a\"\n".to_string()];
    let rows = vec![vec![text("\u{1}\\\t"), CellValue::Null], vec![text(NASTY)]];
    let v: serde_json::Value = serde_json::from_str(&to_json(&headers, &rows)).unwrap();
    assert_eq!(v.as_array().unwrap().len(), 2);
    assert_eq!(v[0]["b"], "\u{1}\\\t");
    assert!(v[0]["a\"\n"].is_null());
    assert_eq!(v[1]["b"], NASTY);
    assert!(v[1]["a\"\n"].is_null());
    let v: serde_json::Value = serde_json::from_str(&to_json(&headers, &[])).unwrap();
    assert_eq!(v.as_array().unwrap().len(), 0);
}

#[test]
fn tsv_has_a_line_a_row() {
    let headers = vec!["a\tb".to_string(), "c\n".to_string()];
    let rows = vec![vec![text("1\t\n2"), text("\r")], vec![CellValue::Null, text("x")]];
    let tsv = to_tsv(&headers, &rows);
    assert_eq!(tsv.lines().count(), 3);
    assert!(tsv.lines().all(|l| l.matches('\t').count() == 1));
}

#[test]
fn quoted_values_stay_on_their_line() {
    let all: String = (0u8..128).map(char::from).collect();
    assert!(json_quote(&all).chars().all(|c| c > '\u{1f}'));
}

#[test]
fn a_statement_holds_the_cursor() {
    let sql = "a ; b$x$;$x$ ; 'c;'";
    assert_eq!(statements(sql), vec!["a", "b$x$;$x$", "'c;'"]);
    assert_eq!(statement_at(sql, 2), "a");
    assert_eq!(statement_at(sql, 3), "b$x$;$x$");
    assert_eq!(statement_at(sql, 999), "'c;'");
}

fn nodes() -> Vec<SchemaNode> {
    vec![
        SchemaNode {
            name: "s".into(),
            relations: Some(vec![
                RelNode {
                    name: "t".into(),
                    kind: RelationKind::Table,
                    detail: Some(RelationDetail {
                        columns: vec![],
                        indexes: vec![],
                        constraints: vec![],
                    }),
                },
                RelNode { name: "u".into(), kind: RelationKind::Table, detail: None },
            ]),
            objects: Some(SchemaObjects { sequences: vec!["q".into()], functions: vec![] }),
        },
        SchemaNode { name: "empty".into(), relations: Some(vec![]), objects: None },
        SchemaNode { name: "new".into(), relations: None, objects: None },
    ]
}

fn explained(items: &[TreeItem], meta: &NodeMetaMap) -> bool {
    items.iter().all(|i| meta.get(&i.id).is_some() && explained(&i.children, meta))
}

#[test]
fn every_item_is_explained() {
    for filter in ["", "t", "zzz"] {
        let (items, meta) = build_tree(Some("d"), &nodes(), &IdSet::new(), filter);
        assert!(explained(&items, &meta));
    }
}

#[test]
fn a_built_tree_is_in_step() {
    let mut open = IdSet::new();
    for id in ["db".to_string(), node_id(&["sch", "s"]), node_id(&["tbls", "s"])] {
        open.insert(id);
    }
    let (mut items, _) = build_tree(Some("d"), &nodes(), &open, "");
    assert!(!sync_expansion(&items, false, &mut open));
    items[0].children[2].expanded = true;
    assert!(sync_expansion(&items, false, &mut open));
    assert!(!sync_expansion(&items, false, &mut open));
    for (k, id) in visible_rows(&items).iter().enumerate() {
        assert_eq!(flat_index_of(&items, id), Some(k));
    }
}

#[test]
fn identifiers_tell_items_apart() {
    assert_eq!(node_id(&["rel", "a", "b"]), "rel\u{1}a\u{1}b");
    assert_ne!(node_id(&["rel", "a.b", "c"]), node_id(&["rel", "a", "b.c"]));
    assert_ne!(node_id(&["a", ""]), node_id(&["a"]));
}

#[test]
fn the_active_tab_is_always_there() {
    let mut ws = Workspace::new(Settings::default(), None);
    let actions = || {
        vec![
            Action::NewQuery,
            Action::OpenTable { schema: "s".into(), table: "t".into() },
            Action::NewQuery,
            Action::ActivateTab { idx: 1 },
            Action::CloseTab { tab: 2 },
            Action::ActivateTab { idx: 9 },
            Action::OnTab { tab: 3, what: TabAction::Reload },
            Action::CloseTab { tab: 1 },
            Action::CloseTab { tab: 3 },
            Action::CloseTab { tab: 3 },
        ]
    };
    for action in actions() {
        ws.perform(action);
        match ws.active {
            Some(i) => assert!(i < ws.tabs.len()),
            None => assert!(ws.tabs.is_empty()),
        }
        assert!(ws.tabs.iter().all(|t| t.id < ws.next_tab_id));
    }
    assert!(ws.tabs.is_empty());
}

#[test]
fn requests_of_the_catalog() {
    let q = catalog_queries(&IntrospectKind::Schemas);
    assert_eq!((q.len(), q[0].sql, q[0].params.len()), (1, SCHEMAS_SQL, 0));
    assert!(SCHEMAS_SQL.contains("NOT LIKE 'pg\\_%'"));
    let q = catalog_queries(&IntrospectKind::Relations { schema: "s".into() });
    assert_eq!((q[0].sql, q[0].params.clone()), (RELATIONS_SQL, vec!["s".to_string()]));
    let q = catalog_queries(&IntrospectKind::Columns { schema: "s".into(), table: "t".into() });
    assert_eq!((q[0].sql, q[0].params.len()), (COLUMNS_SQL, 2));
    let detail = IntrospectKind::RelationDetail { schema: "s".into(), table: "t".into() };
    let q = catalog_queries(&detail);
    assert_eq!(q.len(), 3);
    assert!(q.iter().all(|q| q.params == vec!["s", "t"]));
    let q = catalog_queries(&IntrospectKind::SchemaObjects { schema: "s".into() });
    assert!(q.len() == 2 && q.iter().all(|q| q.params == vec!["s"]));
    assert_eq!(selftest_statements().len(), 3);
}
