use zdb::config::ConnectionConfig;
use zdb::edit::{EditTarget, RowEdit};
use zdb::error::DbError;
use zdb::export::ExportFormat;
use zdb::query::QueryOutcome;
use zdb::settings::{ConnectionEntry, PasswordProbe, Settings, Theme};
use zdb::types::{CellValue, Elapsed};
use zdb::workspace::action::{Action, ConnAction, TabAction};
use zdb::workspace::conn::ConnForm;
use zdb::workspace::export::{export_basename, export_table_name};
use zdb::workspace::palette::{login_shell, palette_list, PaletteCmd};
use zdb::workspace::state::{Effect, Workspace};
use zdb::workspace::tab::{Tab, TabKind};
use zdb::workspace::view::{cell_click, max_icon, CellModel, Review};

fn new_workspace() -> Workspace {
    Workspace::new(Settings::default(), None)
}

/// Open a blank Query tab and return its id.
fn seed_query_tab(ws: &mut Workspace) -> u64 {
    ws.open_query_tab();
    ws.active_id().expect("active tab")
}

fn tab_mut(ws: &mut Workspace, id: u64) -> &mut Tab {
    ws.tabs.iter_mut().find(|t| t.id == id).expect("tab")
}

/// Make a tab an editable result over `public.widget(id pk, …)`.
fn editable_tab(ws: &mut Workspace, id: u64, headers: Vec<&str>) {
    let tab = tab_mut(ws, id);
    tab.headers = headers.iter().map(|s| s.to_string()).collect();
    tab.edit_target = Some(EditTarget {
        schema: "public".into(),
        table: "widget".into(),
        pk_columns: vec!["id".into()],
    });
    tab.edit_cols = headers.iter().map(|s| Some(s.to_string())).collect();
}

fn text(s: &str) -> CellValue {
    CellValue::Text(s.into())
}

fn entry(name: &str, port: u16) -> ConnectionEntry {
    ConnectionEntry {
        name: name.into(),
        host: "127.0.0.1".into(),
        port,
        dbname: "d".into(),
        user: "u".into(),
        ssl_mode: "disable".into(),
    }
}

fn outcome(headers: Vec<&str>, rows: Vec<Vec<CellValue>>) -> QueryOutcome {
    let mut out = QueryOutcome::new();
    out.headers = headers.iter().map(|s| s.to_string()).collect();
    out.rows = rows;
    out.elapsed = Elapsed { secs: 0, nanos: 1_500_000 };
    out
}

// ---- tabs ------------------------------------------------------------------------------

#[test]
fn tabs_table_query_builds_where() {
    let mut ws = new_workspace();
    ws.open_table_tab("public".into(), "users".into());
    let id = ws.active_id().unwrap();
    ws.filter_changed(id, "id > 5".into());
    assert_eq!(
        ws.table_query(id),
        "SELECT * FROM \"public\".\"users\" WHERE id > 5 LIMIT 500"
    );
    ws.filter_changed(id, "".into());
    assert_eq!(
        ws.table_query(id),
        "SELECT * FROM \"public\".\"users\" LIMIT 500"
    );
}

#[test]
fn tabs_new_query_tab_titles_increment() {
    let mut ws = new_workspace();
    assert!(ws.active.is_none());
    ws.open_query_tab();
    ws.open_query_tab();
    assert_eq!(ws.tabs.len(), 2);
    assert_eq!(ws.tabs[0].title, "Query 1");
    assert_eq!(ws.tabs[1].title, "Query 2");
    assert_eq!(ws.active, Some(1));
}

#[test]
fn tabs_close_last_tab_shows_welcome() {
    let mut ws = new_workspace();
    let id = seed_query_tab(&mut ws);
    ws.close_tab(id);
    assert!(ws.tabs.is_empty());
    assert_eq!(ws.active, None);
    assert!(ws.center().is_none());
}

#[test]
fn tabs_scratch_tab_is_singleton() {
    let mut ws = new_workspace();
    ws.focus_scratch_tab("select 1".into());
    ws.focus_scratch_tab("other".into());
    let n = ws.tabs.iter().filter(|t| matches!(t.kind, TabKind::Scratch)).count();
    assert_eq!(n, 1);
    assert_eq!(ws.tabs[0].editor, "select 1");
    assert_eq!(ws.tabs[0].title, "Scratch");
}

#[test]
fn tabs_switching_tables_preserves_state() {
    let mut ws = new_workspace();
    // Open table A and select a row.
    ws.open_table_tab("public".into(), "aaa".into());
    let a = ws.active_id().unwrap();
    ws.set_current_row(a, 4);
    assert_eq!(ws.tab(a).unwrap().current_row, Some(4));

    // Open table B: a brand-new tab with its own (empty) selection.
    ws.open_table_tab("public".into(), "bbb".into());
    let b = ws.active_id().unwrap();
    assert_ne!(a, b);
    assert_eq!(ws.tab(b).unwrap().current_row, None);

    // Switch back to A: its selection is intact (tabs keep their state).
    let a_idx = ws.tabs.iter().position(|t| t.id == a).unwrap();
    ws.activate_tab(a_idx);
    assert_eq!(ws.tab(a).unwrap().current_row, Some(4));

    // Re-opening A's table focuses the SAME tab (focus-if-open, no dup).
    ws.open_table_tab("public".into(), "aaa".into());
    assert_eq!(ws.active_id(), Some(a));
    let n = ws
        .tabs
        .iter()
        .filter(|t| matches!(&t.kind, TabKind::Table { table, .. } if table == "aaa"))
        .count();
    assert_eq!(n, 1);
}

#[test]
fn closing_keeps_the_active_tab() {
    let mut ws = new_workspace();
    let a = seed_query_tab(&mut ws);
    let b = seed_query_tab(&mut ws);
    let c = seed_query_tab(&mut ws);
    ws.close_tab(a);
    assert_eq!(ws.active_id(), Some(c));
    ws.activate_tab(0);
    ws.close_tab(b);
    assert_eq!(ws.active_id(), Some(c));
    ws.close_tab(77);
    assert_eq!(ws.tabs.len(), 1);
    // The number of a new tab counts those that are open.
    let d = seed_query_tab(&mut ws);
    assert_eq!(ws.tab(d).unwrap().title, "Query 2");
    ws.close_all_tabs();
    assert_eq!(ws.active, None);
    ws.activate_tab(3);
    assert_eq!(ws.active, None);
}

#[test]
fn identifiers_in_table_queries_are_quoted() {
    let mut ws = new_workspace();
    ws.open_table_tab("s".into(), "a\"b".into());
    let id = ws.active_id().unwrap();
    assert_eq!(ws.table_query(id), "SELECT * FROM \"s\".\"a\"\"b\" LIMIT 500");
    assert_eq!(ws.tab(id).unwrap().title, "s.a\"b");
    assert_eq!(ws.table_query(99), "");
}

#[test]
fn waiting_table_is_opened_once() {
    let mut ws = new_workspace();
    ws.selftest_ready();
    ws.open_waiting();
    ws.open_waiting();
    assert_eq!(ws.tabs.len(), 1);
    assert_eq!(ws.tabs[0].title, "public.zdb_selftest");
}

// ---- edits -----------------------------------------------------------------------------

#[test]
fn edit_single_click_selects_row() {
    let mut ws = new_workspace();
    let id = seed_query_tab(&mut ws);
    ws.set_current_row(id, 3);
    assert_eq!(ws.tab(id).unwrap().current_row, Some(3));
}

#[test]
fn edit_add_row_then_save_stages_insert() {
    let mut ws = new_workspace();
    let id = seed_query_tab(&mut ws);
    editable_tab(&mut ws, id, vec!["id", "name"]);
    ws.add_row(id);
    let idx = ws.tab(id).unwrap().new_row_idx.expect("new row");

    // Editing the new row updates memory, not a staged statement.
    ws.begin_edit(id, idx, 0);
    ws.cell_text = "7".into();
    ws.commit_cell_edit();
    assert!(ws.tab(id).unwrap().pending.is_empty());

    ws.begin_edit(id, idx, 1);
    ws.cell_text = "zed".into();
    ws.commit_cell_edit();

    ws.save_new_row(id);
    assert_eq!(ws.tab(id).unwrap().pending.len(), 1);
    let target = ws.tab(id).unwrap().edit_target.clone().unwrap();
    let sql = ws.tab(id).unwrap().pending[0].to_sql(&target).unwrap();
    assert_eq!(
        sql,
        r#"INSERT INTO "public"."widget" ("id", "name") VALUES ('7', 'zed')"#
    );
}

#[test]
fn edit_discard_unsaved_new_row() {
    let mut ws = new_workspace();
    let id = seed_query_tab(&mut ws);
    editable_tab(&mut ws, id, vec!["id"]);
    tab_mut(&mut ws, id).rows = vec![vec![text("1")]];
    ws.add_row(id);
    assert_eq!(ws.tab(id).unwrap().rows.len(), 2);
    ws.delete_current_row(id); // current row is the new one → discard
    assert_eq!(ws.tab(id).unwrap().rows.len(), 1);
    assert!(ws.tab(id).unwrap().new_row_idx.is_none());
    assert!(ws.tab(id).unwrap().pending.is_empty());
}

#[test]
fn edit_inline_edit_stages_update_sql() {
    let mut ws = new_workspace();
    let id = seed_query_tab(&mut ws);
    editable_tab(&mut ws, id, vec!["id", "name"]);
    tab_mut(&mut ws, id).rows = vec![vec![text("1"), text("alpha")]];

    ws.begin_edit(id, 0, 1);
    assert_eq!(ws.tab(id).unwrap().editing, Some((0, 1)));
    ws.cell_text = "beta".into();
    ws.commit_cell_edit();

    assert_eq!(ws.tab(id).unwrap().pending.len(), 1);
    let target = ws.tab(id).unwrap().edit_target.clone().unwrap();
    let sql = ws.tab(id).unwrap().pending[0].to_sql(&target).unwrap();
    assert_eq!(
        sql,
        r#"UPDATE "public"."widget" SET "name" = 'beta' WHERE "id" = '1'"#
    );
    // Optimistic update reflects in the grid before Apply.
    assert_eq!(ws.tab(id).unwrap().rows[0][1], CellValue::Text("beta".into()));
}

#[test]
fn edit_multiple_edits_accumulate_into_one_batch() {
    let mut ws = new_workspace();
    let id = seed_query_tab(&mut ws);
    editable_tab(&mut ws, id, vec!["id", "name"]);
    tab_mut(&mut ws, id).rows = vec![vec![text("1"), text("a")], vec![text("2"), text("b")]];

    // Edit two different rows; both stage without replacing each other.
    ws.begin_edit(id, 0, 1);
    ws.cell_text = "x".into();
    ws.commit_cell_edit();
    ws.begin_edit(id, 1, 1);
    ws.cell_text = "y".into();
    ws.commit_cell_edit();

    assert_eq!(ws.tab(id).unwrap().pending.len(), 2);
    let batch = ws.pending_sql(id).expect("combined sql");
    assert!(batch.starts_with("BEGIN;"));
    assert!(batch.trim_end().ends_with("COMMIT;"));
    assert!(batch.contains(r#"SET "name" = 'x' WHERE "id" = '1'"#));
    assert!(batch.contains(r#"SET "name" = 'y' WHERE "id" = '2'"#));
}

#[test]
fn edit_revert_to_original_drops_edit() {
    let mut ws = new_workspace();
    let id = seed_query_tab(&mut ws);
    editable_tab(&mut ws, id, vec!["id", "name"]);
    {
        let tab = tab_mut(&mut ws, id);
        tab.rows = vec![vec![text("1"), text("alpha")]];
        tab.orig_rows = tab.rows.clone();
    }

    // Edit to a new value: stages + marks the cell.
    ws.begin_edit(id, 0, 1);
    ws.cell_text = "beta".into();
    ws.commit_cell_edit();
    assert_eq!(ws.tab(id).unwrap().pending.len(), 1);
    assert!(ws.tab(id).unwrap().edited_cells.contains((0, 1)));

    // Edit back to the original value: the staged edit is dropped and
    // the cell is no longer marked.
    ws.begin_edit(id, 0, 1);
    ws.cell_text = "alpha".into();
    ws.commit_cell_edit();
    assert!(ws.tab(id).unwrap().pending.is_empty(), "edit reverted → no pending");
    assert!(!ws.tab(id).unwrap().edited_cells.contains((0, 1)));
    assert_eq!(ws.tab(id).unwrap().rows[0][1], CellValue::Text("alpha".into()));
    assert_eq!(ws.status, "Reverted to original");
}

#[test]
fn second_edit_of_a_cell_replaces_the_first() {
    let mut ws = new_workspace();
    let id = seed_query_tab(&mut ws);
    editable_tab(&mut ws, id, vec!["id", "name"]);
    {
        let tab = tab_mut(&mut ws, id);
        tab.rows = vec![vec![text("1"), text("alpha")]];
        tab.orig_rows = tab.rows.clone();
    }
    for value in ["beta", "gamma"] {
        ws.begin_edit(id, 0, 1);
        ws.cell_text = value.into();
        ws.commit_cell_edit();
        assert_eq!(ws.status, "1 change staged — review, then Apply.");
    }
    assert_eq!(
        ws.pending_sql(id).unwrap(),
        "BEGIN;\nUPDATE \"public\".\"widget\" SET \"name\" = 'gamma' WHERE \"id\" = '1';\nCOMMIT;\n"
    );
    // An empty text is no value.
    ws.begin_edit(id, 0, 1);
    ws.cell_text = "".into();
    ws.commit_cell_edit();
    assert_eq!(ws.tab(id).unwrap().rows[0][1], CellValue::Null);
    // Deleting adds to what is staged.
    ws.delete_current_row(id);
    assert_eq!(ws.status, "2 changes staged — review, then Apply.");
}

fn enter(ws: &mut Workspace, id: u64, col: usize, value: &str) {
    ws.begin_edit(id, 0, col);
    ws.cell_text = value.into();
    ws.commit_cell_edit();
}

fn loaded_widget(ws: &mut Workspace) -> u64 {
    let id = seed_query_tab(ws);
    editable_tab(ws, id, vec!["id", "name"]);
    let tab = tab_mut(ws, id);
    tab.rows = vec![vec![text("1"), text("alpha")]];
    tab.orig_rows = tab.rows.clone();
    id
}

#[test]
fn a_key_that_is_set_back_leaves_nothing() {
    let mut ws = new_workspace();
    let id = loaded_widget(&mut ws);
    enter(&mut ws, id, 0, "2");
    assert_eq!(
        ws.pending_sql(id).unwrap(),
        "BEGIN;\nUPDATE \"public\".\"widget\" SET \"id\" = '2' WHERE \"id\" = '1';\nCOMMIT;\n"
    );
    // A second key takes the place of the first one.
    enter(&mut ws, id, 0, "3");
    assert_eq!(
        ws.pending_sql(id).unwrap(),
        "BEGIN;\nUPDATE \"public\".\"widget\" SET \"id\" = '3' WHERE \"id\" = '1';\nCOMMIT;\n"
    );
    enter(&mut ws, id, 0, "1");
    let tab = ws.tab(id).unwrap();
    assert!(tab.pending.is_empty());
    assert!(!tab.edited_cells.contains((0, 0)));
    assert_eq!(tab.rows[0][0], text("1"));
    assert_eq!(ws.status, "Reverted to original");
}

#[test]
fn edits_of_a_row_with_a_new_key_are_one_statement() {
    let mut ws = new_workspace();
    let id = loaded_widget(&mut ws);
    enter(&mut ws, id, 0, "2");
    enter(&mut ws, id, 1, "beta");
    assert_eq!(ws.status, "1 change staged — review, then Apply.");
    assert_eq!(
        ws.pending_sql(id).unwrap(),
        "BEGIN;\nUPDATE \"public\".\"widget\" SET \"id\" = '2', \"name\" = 'beta' WHERE \"id\" = '1';\nCOMMIT;\n"
    );
    // The key is set back; the other column stays staged.
    enter(&mut ws, id, 0, "1");
    assert_eq!(
        ws.pending_sql(id).unwrap(),
        "BEGIN;\nUPDATE \"public\".\"widget\" SET \"name\" = 'beta' WHERE \"id\" = '1';\nCOMMIT;\n"
    );
    enter(&mut ws, id, 1, "alpha");
    assert!(ws.tab(id).unwrap().pending.is_empty());
}

#[test]
fn a_row_with_a_new_key_can_be_deleted() {
    let mut ws = new_workspace();
    let id = loaded_widget(&mut ws);
    enter(&mut ws, id, 1, "beta");
    enter(&mut ws, id, 0, "2");
    assert_eq!(ws.tab(id).unwrap().pending.len(), 2);
    ws.set_current_row(id, 0);
    ws.delete_current_row(id);
    assert_eq!(ws.status, "2 changes staged — review, then Apply.");
    assert_eq!(
        ws.pending_sql(id).unwrap(),
        "BEGIN;\nUPDATE \"public\".\"widget\" SET \"name\" = 'beta' WHERE \"id\" = '1';\n\
         DELETE FROM \"public\".\"widget\" WHERE \"id\" = '1';\nCOMMIT;\n"
    );
}

#[test]
fn cells_that_cannot_be_edited() {
    let mut ws = new_workspace();
    let id = seed_query_tab(&mut ws);
    editable_tab(&mut ws, id, vec!["id", "name"]);
    tab_mut(&mut ws, id).edit_cols[1] = None;
    ws.begin_edit(id, 0, 1);
    ws.begin_edit(id, 0, 7);
    ws.begin_edit(99, 0, 0);
    assert_eq!(ws.tab(id).unwrap().editing, None);
    // Committing and cancelling without an editor changes nothing.
    ws.commit_cell_edit();
    ws.begin_edit(id, 0, 0);
    ws.cancel_cell_edit();
    assert_eq!(ws.tab(id).unwrap().editing, None);
    assert!(ws.tab(id).unwrap().pending.is_empty());
}

#[test]
fn new_row_needs_a_value() {
    let mut ws = new_workspace();
    let id = seed_query_tab(&mut ws);
    ws.add_row(id);
    assert!(ws.tab(id).unwrap().rows.is_empty(), "not editable");
    editable_tab(&mut ws, id, vec!["id"]);
    ws.add_row(id);
    assert_eq!(ws.status, "New row — double-click cells to fill, then Save row.");
    ws.save_new_row(id);
    assert_eq!(ws.status, "Fill at least one column");
    ws.delete_current_row(id);
    assert_eq!(ws.status, "New row discarded");
}

#[test]
fn a_target_without_a_key_cannot_be_updated() {
    let mut ws = new_workspace();
    let id = seed_query_tab(&mut ws);
    editable_tab(&mut ws, id, vec!["id"]);
    {
        let tab = tab_mut(&mut ws, id);
        tab.edit_target.as_mut().unwrap().pk_columns.clear();
        tab.rows = vec![vec![text("1")]];
        tab.current_row = Some(0);
    }
    ws.delete_current_row(id);
    assert_eq!(ws.status, "Cannot build statement: query failed: delete has no primary key");
    assert!(ws.tab(id).unwrap().pending.is_empty());
}

#[test]
fn applying_hands_the_edits_out_and_takes_them_back() {
    let mut ws = new_workspace();
    let id = seed_query_tab(&mut ws);
    editable_tab(&mut ws, id, vec!["id", "name"]);
    {
        let tab = tab_mut(&mut ws, id);
        tab.rows = vec![vec![text("1"), text("a")]];
        tab.last_sql = Some("SELECT 1".into());
    }
    ws.begin_edit(id, 0, 1);
    ws.cell_text = "b".into();
    ws.commit_cell_edit();
    ws.take_outbox();
    // Without a connection nothing happens.
    ws.apply_pending(id);
    assert_eq!(ws.tab(id).unwrap().pending.len(), 1);
    assert!(ws.take_outbox().is_empty());

    ws.conn = Some(3);
    ws.apply_pending(id);
    assert_eq!(ws.status, "Applying…");
    assert!(ws.tab(id).unwrap().pending.is_empty());
    let (edits, sql, reload) = match ws.take_outbox().pop().unwrap() {
        Effect::Apply { conn: 3, edits, sql, reload, .. } => (edits, sql, reload),
        _ => panic!("no batch"),
    };
    assert!(sql.starts_with("BEGIN;\nUPDATE"));

    ws.apply_finished(id, edits, &sql, reload.clone(), Err(DbError::Query("no".into())));
    assert_eq!(ws.status, "Apply failed: query failed: no");
    assert_eq!(ws.tab(id).unwrap().pending.len(), 1);
    assert!(!ws.log.entries[0].ok);

    ws.apply_pending(id);
    let edits = match ws.take_outbox().pop().unwrap() {
        Effect::Apply { edits, .. } => edits,
        _ => panic!("no batch"),
    };
    ws.apply_finished(id, edits, &sql, reload, Ok(()));
    assert_eq!(ws.status, "Applied 1 change(s)");
    assert!(!ws.tab(id).unwrap().edited_cells.contains((0, 1)));
    assert!(ws.tab(id).unwrap().running);
    assert!(matches!(
        ws.take_outbox().last(),
        Some(Effect::Query { sql, .. }) if sql == "SELECT 1"
    ));
}

#[test]
fn discarding_edits_reloads() {
    let mut ws = new_workspace();
    ws.conn = Some(1);
    let id = seed_query_tab(&mut ws);
    editable_tab(&mut ws, id, vec!["id"]);
    {
        let tab = tab_mut(&mut ws, id);
        tab.last_sql = Some("SELECT 2".into());
        tab.pending = vec![RowEdit::Delete { pk: vec![("id".into(), text("1"))] }];
        tab.edited_cells.insert((0, 0));
    }
    assert!(matches!(
        ws.review(),
        Review::Pending { header, .. } if header == "PENDING — 1 CHANGE(S), REVIEW THEN APPLY"
    ));
    ws.cancel_pending(id);
    assert!(ws.tab(id).unwrap().pending.is_empty());
    assert!(!ws.tab(id).unwrap().edited_cells.contains((0, 0)));
    assert_eq!(ws.status, "Running…");
    assert!(matches!(ws.review(), Review::Messages { text } if text == "Running…"));
}

// ---- queries ---------------------------------------------------------------------------

#[test]
fn query_header_click_cycles_sort() {
    let mut ws = new_workspace();
    let id = seed_query_tab(&mut ws);
    {
        let tab = tab_mut(&mut ws, id);
        tab.base_sql = Some("SELECT * FROM t".into());
        tab.headers = vec!["qty".into()];
    }
    assert_eq!(ws.tab(id).unwrap().sort_state, None);
    ws.toggle_sort(id, 0);
    assert_eq!(ws.tab(id).unwrap().sort_state, Some((0, false))); // ascending
    assert_eq!(ws.tab(id).unwrap().header_text(0), "qty ▲");
    ws.toggle_sort(id, 0);
    assert_eq!(ws.tab(id).unwrap().sort_state, Some((0, true))); // descending
    assert_eq!(ws.tab(id).unwrap().header_text(0), "qty ▼");
    ws.toggle_sort(id, 0);
    assert_eq!(ws.tab(id).unwrap().sort_state, None); // cleared
    assert_eq!(ws.tab(id).unwrap().header_text(0), "qty");
}

#[test]
fn query_run_without_connection_is_guarded() {
    let mut ws = new_workspace();
    let id = seed_query_tab(&mut ws);
    ws.run_sql(id, "SELECT 1".into());
    assert_eq!(ws.status, "Not connected");
    assert!(!ws.tab(id).unwrap().running);
}

#[test]
fn query_new_query_resets_editability() {
    let mut ws = new_workspace();
    let id = seed_query_tab(&mut ws);
    {
        let tab = tab_mut(&mut ws, id);
        tab.edit_target = Some(EditTarget {
            schema: "public".into(),
            table: "t".into(),
            pk_columns: vec!["id".into()],
        });
        tab.edit_cols = vec![Some("id".into())];
    }
    ws.run_new_query(id, "SELECT 1".into());
    assert!(ws.tab(id).unwrap().edit_target.is_none());
    assert!(ws.tab(id).unwrap().edit_cols.is_empty());
}

#[test]
fn run_button_rereads_table_filter() {
    let mut ws = new_workspace();
    ws.open_table_tab("public".into(), "users".into());
    let id = ws.active_id().unwrap();
    ws.filter_changed(id, "id > 5".into());
    ws.apply_where(id);
    let base = ws.tab(id).unwrap().base_sql.clone().unwrap();
    assert!(base.contains("WHERE id > 5"));

    // Clearing the filter and pressing Run must drop the WHERE —
    // without requiring Enter in the filter box first.
    ws.filter_changed(id, "".into());
    ws.run_active_tab();
    let base = ws.tab(id).unwrap().base_sql.clone().unwrap();
    assert!(!base.contains("WHERE"));
}

#[test]
fn query_query_log_records_runs() {
    let mut ws = new_workspace();
    assert!(ws.log.entries.is_empty());
    ws.log.push("SELECT 1", true);
    ws.log.push("BAD", false);
    assert_eq!(ws.log.entries.len(), 2);
    assert!(!ws.log.entries[1].ok);
    assert_eq!(ws.log.entries[0].line(), "✓  SELECT 1");
    assert_eq!(ws.log.entries[1].line(), "✗  BAD");
}

#[test]
fn the_latest_query_stands_first() {
    let mut ws = new_workspace();
    assert!(ws.log.lines().is_empty());
    ws.log.push("SELECT\n  1", true);
    ws.log.push("BAD", false);
    assert_eq!(
        ws.log.lines(),
        vec![("✗  BAD".to_string(), false), ("✓  SELECT 1".to_string(), true)]
    );
    // A long query is cut between two characters.
    ws.log.push(&format!("{}ü and more", "y".repeat(119)), true);
    assert_eq!(ws.log.lines()[0].0, format!("✓  {}…", "y".repeat(119)));
}

#[test]
fn log_is_capped() {
    let mut ws = new_workspace();
    for i in 0..501 {
        ws.log.push(&format!("q{i}"), true);
    }
    assert_eq!(ws.log.entries.len(), 500);
    assert_eq!(ws.log.entries[0].sql, "q1");
    assert_eq!(ws.log.entries[499].sql, "q500");
}

#[test]
fn running_the_statement_at_the_cursor() {
    let mut ws = new_workspace();
    ws.conn = Some(1);
    let id = seed_query_tab(&mut ws);
    ws.editor_changed(id, "select 1; select 2".into(), 12);
    ws.take_outbox();
    ws.run_active_tab();
    assert_eq!(ws.status, "Running…");
    assert!(ws.tab(id).unwrap().running);
    let out = ws.take_outbox();
    assert!(matches!(out[0], Effect::ClearSelection { .. }));
    assert!(matches!(&out[1], Effect::Describe { sql, .. } if sql == "select 2"));
    assert!(matches!(&out[2], Effect::Query { sql, conn: 1, .. } if sql == "select 2"));

    ws.query_finished(id, "select 2", outcome(vec!["?column?"], vec![vec![text("2")]]));
    assert_eq!(ws.status, "1 row(s) in 1.5ms");
    assert!(!ws.tab(id).unwrap().running);
    assert_eq!(ws.tab(id).unwrap().rows, vec![vec![text("2")]]);
    assert_eq!(ws.tab(id).unwrap().orig_rows, vec![vec![text("2")]]);

    let mut done = outcome(vec![], vec![]);
    done.affected = 3;
    done.elapsed = Elapsed { secs: 2, nanos: 0 };
    ws.query_finished(id, "update t", done);
    assert_eq!(ws.status, "3 row(s) affected in 2s");

    let mut failed = outcome(vec!["a"], vec![]);
    failed.error = Some("no table".into());
    let before = ws.tab(id).unwrap().headers.clone();
    ws.query_finished(id, "select 3", failed);
    assert_eq!(ws.status, "Error: no table");
    assert_eq!(ws.tab(id).unwrap().headers, before);
}

#[test]
fn what_comes_for_a_closed_tab_is_only_logged() {
    let mut ws = new_workspace();
    ws.conn = Some(1);
    let other = seed_query_tab(&mut ws);
    ws.run_sql(other, "select 1".into());
    let id = seed_query_tab(&mut ws);
    ws.run_sql(id, "select 2".into());
    ws.close_tab(id);
    ws.take_outbox();
    let status = ws.status.clone();
    ws.query_finished(id, "late", outcome(vec!["a"], vec![vec![text("1")]]));
    assert_eq!(ws.log.entries.len(), 1);
    assert_eq!(ws.log.entries[0].sql, "late");
    assert!(ws.log.entries[0].ok);
    let mut failed = outcome(vec![], vec![]);
    failed.error = Some("gone".into());
    ws.explain_finished(id, "EXPLAIN late", failed);
    assert_eq!(ws.log.entries.len(), 2);
    assert_eq!(ws.log.entries[1].sql, "EXPLAIN late");
    assert!(!ws.log.entries[1].ok);
    // The tab that is open still waits for its own answer.
    let tab = ws.tab(other).unwrap();
    assert!(tab.running && tab.headers.is_empty() && tab.rows.is_empty() && tab.plan.is_none());
    assert_eq!(tab.current_row, None);
    assert_eq!(ws.status, status);
    assert!(ws.take_outbox().is_empty());
}

#[test]
fn blank_text_is_not_run() {
    let mut ws = new_workspace();
    ws.conn = Some(1);
    let id = seed_query_tab(&mut ws);
    ws.run_sql(id, " \n ".into());
    assert_eq!(ws.status, "Nothing to run");
    ws.explain_active(false);
    assert_eq!(ws.status, "Nothing to explain");
}

#[test]
fn plans_are_shown_and_put_away() {
    let mut ws = new_workspace();
    let id = seed_query_tab(&mut ws);
    ws.editor_changed(id, " select 1; ".into(), 0);
    ws.explain_active(true);
    assert_eq!(ws.status, "Not connected");
    ws.conn = Some(1);
    ws.take_outbox();
    ws.explain_active(true);
    assert_eq!(ws.status, "Explaining…");
    assert!(matches!(
        ws.take_outbox().pop(),
        Some(Effect::Explain { sql, .. }) if sql == "EXPLAIN (ANALYZE, BUFFERS) select 1"
    ));
    ws.explain_active(false);
    assert!(matches!(
        ws.take_outbox().pop(),
        Some(Effect::Explain { sql, .. }) if sql == "EXPLAIN select 1"
    ));
    let rows = vec![vec![text("Result")], vec![CellValue::Null], vec![], vec![text("  cost")]];
    ws.explain_finished(id, "EXPLAIN select 1", outcome(vec!["QUERY PLAN"], rows));
    assert_eq!(ws.tab(id).unwrap().plan.as_deref(), Some("Result\n  cost"));
    assert_eq!(ws.status, "Plan: 2 line(s)");
    assert_eq!(ws.center().unwrap().plan.as_deref(), Some("Result\n  cost"));
    let mut failed = outcome(vec![], vec![]);
    failed.error = Some("no".into());
    ws.explain_finished(id, "EXPLAIN select 1", failed);
    assert_eq!(ws.tab(id).unwrap().plan.as_deref(), Some("Error: no"));
    ws.close_plan(id);
    assert!(ws.tab(id).unwrap().plan.is_none());
}

#[test]
fn formatting_the_editor() {
    let mut ws = new_workspace();
    let id = seed_query_tab(&mut ws);
    ws.take_outbox();
    ws.format_active();
    assert!(ws.take_outbox().is_empty(), "a blank text stays");
    ws.editor_changed(id, "select 1 from t".into(), 0);
    ws.format_active();
    assert!(ws.tab(id).unwrap().editor.contains("SELECT"));
    assert!(matches!(
        ws.take_outbox().pop(),
        Some(Effect::SetEditor { text, .. }) if text.contains("FROM")
    ));
    ws.open_table_tab("a".into(), "b".into());
    ws.format_active();
    assert_eq!(ws.status, "Nothing to format");
}

#[test]
fn reload_runs_the_query_again() {
    let mut ws = new_workspace();
    ws.conn = Some(1);
    let id = seed_query_tab(&mut ws);
    ws.reload_data(id);
    assert!(!ws.tab(id).unwrap().running);
    ws.run_new_query(id, "SELECT 1".into());
    ws.toggle_sort(id, 0);
    ws.take_outbox();
    ws.reload_data(id);
    assert_eq!(ws.tab(id).unwrap().sort_state, None);
    assert!(matches!(
        ws.take_outbox().pop(),
        Some(Effect::Query { sql, .. }) if sql == "SELECT 1"
    ));
    ws.cancel();
    assert_eq!(ws.status, "Cancel requested");
    assert!(matches!(ws.take_outbox().pop(), Some(Effect::Cancel { conn: 1 })));
}

// ---- connections -----------------------------------------------------------------------

#[test]
fn conn_no_connection_opens_add_form() {
    let ws = new_workspace();
    assert!(ws.conn.is_none());
    assert!(ws.conn_manager_open);
    // No saved connections → straight to the add form.
    assert!(ws.conn_adding);
    assert_eq!(ws.conn_manager().header, "ADD CONNECTION");
}

#[test]
fn conn_conn_manager_toggles_list_and_form() {
    let mut ws = new_workspace();
    ws.settings.connections.push(ConnectionEntry {
        name: "x".into(),
        host: "h".into(),
        port: 5432,
        dbname: "d".into(),
        user: "u".into(),
        ssl_mode: "prefer".into(),
    });
    ws.show_conn_list();
    assert!(!ws.conn_adding);
    let rows = ws.conn_manager().list.unwrap();
    assert_eq!(rows[0].subtitle, "u@h:5432/d");
    assert!(!rows[0].active);
    ws.show_add_form();
    assert!(ws.conn_adding);
    assert!(ws.conn_manager().list.is_none());
}

#[test]
fn switching_saved_connections_survives_failures() {
    let mut ws = new_workspace();
    for name in ["a", "b"] {
        ws.settings.connections.push(entry(name, 1));
    }
    // Rapid switches, including while a connect is still in flight.
    ws.connect_saved(0);
    ws.connect_saved(1);
    ws.connect_saved(0);
    for effect in ws.take_outbox() {
        if let Effect::Connect { attempt, cfg } = effect {
            ws.connect_finished(attempt, Err(DbError::Connect("refused".into())), cfg);
        }
    }
    assert!(ws.conn.is_none());
    assert!(ws.status.starts_with("Connection failed"), "status: {}", ws.status);
    // And one more switch after a failure must not blow up.
    ws.connect_saved(1);
    assert_eq!(ws.status, "Connecting to b…");
    ws.connect_saved(9);
    assert_eq!(ws.cfg.as_ref().unwrap().name, "b");
}

#[test]
fn connect_saved_defers_keychain_off_ui_thread() {
    let name = "zdb-regression-ui-thread-probe";
    let mut probe = PasswordProbe::new();
    let mut ws = new_workspace();
    ws.settings.connections.push(entry(name, 1));
    // No session-cached password → the keychain is the only source.
    assert_eq!(probe.get_password_calls(name), 0);
    ws.connect_saved(0);
    // What the click did not do is left to whoever connects.
    assert_eq!(probe.get_password_calls(name), 0);
    for effect in ws.take_outbox() {
        if let Effect::Connect { cfg, .. } = effect {
            if cfg.password.is_none() {
                probe.record(&cfg.name);
            }
        }
    }
    assert_eq!(probe.get_password_calls(name), 1);
}

/// The attempt to connect that was asked for last.
fn last_attempt(ws: &mut Workspace) -> (u64, ConnectionConfig) {
    match ws.take_outbox().pop() {
        Some(Effect::Connect { attempt, cfg }) => (attempt, cfg),
        other => panic!("no attempt: {}", other.is_some()),
    }
}

#[test]
fn one_connection_at_a_time() {
    let mut ws = new_workspace();
    ws.settings.connections.push(entry("a", 1));
    ws.settings.connections.push(entry("b", 2));
    ws.connect_saved(0);
    let (first, a) = last_attempt(&mut ws);
    ws.connect_saved(1);
    let (second, b) = last_attempt(&mut ws);
    assert_ne!(first, second);
    // The answer to the attempt that was given up comes first, and is closed.
    ws.connect_finished(first, Ok(1), a.clone());
    assert_eq!(ws.conn, None);
    assert_eq!(ws.status, "Connecting to b…");
    let out = ws.take_outbox();
    assert_eq!(out.len(), 1);
    assert!(matches!(out[0], Effect::Disconnect { conn: 1 }));
    ws.connect_finished(second, Ok(2), b.clone());
    assert_eq!(ws.conn, Some(2));
    assert_eq!(ws.cfg.as_ref().unwrap().name, "b");
    ws.take_outbox();
    // So is one that comes later than the answer that counts.
    ws.connect_finished(first, Ok(3), a);
    assert_eq!(ws.conn, Some(2));
    assert!(matches!(ws.take_outbox()[..], [Effect::Disconnect { conn: 3 }]));
    // A connection that is replaced is closed.
    ws.connect_finished(second, Ok(4), b);
    assert_eq!(ws.conn, Some(4));
    assert!(matches!(ws.take_outbox()[0], Effect::Disconnect { conn: 2 }));
    // Switching closes it, and leaves nothing open.
    seed_query_tab(&mut ws);
    ws.take_outbox();
    ws.connect_saved(0);
    assert_eq!(ws.conn, None);
    assert!(ws.tabs.is_empty() && ws.active.is_none() && ws.tree.schemas.is_empty());
    assert_eq!(ws.cfg.as_ref().unwrap().name, "a");
    assert!(matches!(ws.take_outbox()[0], Effect::Disconnect { conn: 4 }));
}

#[test]
fn connecting_twice_keeps_one_connection() {
    let mut ws = new_workspace();
    ws.settings.connections.push(entry("a", 1));
    ws.connect_saved(0);
    let (first, cfg) = last_attempt(&mut ws);
    ws.connect_or_refresh();
    let (second, _) = last_attempt(&mut ws);
    ws.connect_finished(second, Ok(8), cfg.clone());
    ws.take_outbox();
    ws.connect_finished(first, Ok(7), cfg);
    assert_eq!(ws.conn, Some(8));
    assert!(matches!(ws.take_outbox()[..], [Effect::Disconnect { conn: 7 }]));
}

#[test]
fn a_connection_is_made_and_left() {
    let mut ws = new_workspace();
    ws.settings.connections.push(entry("a", 1));
    ws.connect_saved(0);
    let (attempt, cfg) = last_attempt(&mut ws);
    ws.connect_finished(attempt, Ok(4), cfg);
    assert_eq!(ws.status, "Connected. Loading schemas…");
    let out = ws.take_outbox();
    assert!(matches!(out[0], Effect::StartLsp { .. }));
    assert!(matches!(out[1], Effect::LoadSchemas { conn: 4 }));
    assert_eq!(ws.titlebar(), ("a".to_string(), true));
    assert!(ws.conn_manager().list.unwrap_or_default().is_empty() || ws.conn_adding);
    ws.show_conn_list();
    assert!(ws.conn_manager().list.unwrap()[0].active);
    seed_query_tab(&mut ws);
    ws.take_outbox();
    ws.connect_or_refresh();
    assert!(matches!(ws.take_outbox()[0], Effect::LoadSchemas { conn: 4 }));
    ws.connect_saved(0);
    let out = ws.take_outbox();
    assert!(matches!(out[0], Effect::Disconnect { conn: 4 }));
    assert!(matches!(out[1], Effect::ClearTree));
    assert!(matches!(&out[2], Effect::Connect { cfg, .. } if cfg.name == "a"));
    assert!(ws.tabs.is_empty());
    assert!(ws.take_clear_filter());
    assert!(!ws.take_clear_filter());
    assert_eq!(ws.titlebar(), ("Not connected".to_string(), false));
    ws.connect_or_refresh();
    assert!(matches!(ws.take_outbox().pop(), Some(Effect::Connect { .. })));
}

#[test]
fn a_form_becomes_a_saved_connection() {
    let mut ws = new_workspace();
    ws.add_connection(ConnForm::new());
    assert_eq!(ws.status, "Fill name, host, user, and database");
    ws.settings.connections.push(entry("prod", 1));
    ws.settings.connections.push(entry("other", 2));
    let mut form = ConnForm::new();
    form.name = " prod ".into();
    form.port = "70000".into();
    form.user = "me".into();
    form.db = "shop".into();
    form.password = "pw".into();
    form.ssl = "  ".into();
    ws.add_connection(form);
    let names: Vec<&str> = ws.settings.connections.iter().map(|c| c.name.as_str()).collect();
    assert_eq!(names, vec!["other", "prod"]);
    assert_eq!(ws.settings.connections[1].port, 5432);
    assert_eq!(ws.settings.connections[1].ssl_mode, "prefer");
    assert_eq!(ws.settings.connections[1].host, "127.0.0.1");
    assert_eq!(ws.passwords.get("prod").as_deref(), Some("pw"));
    let out = ws.take_outbox();
    assert!(matches!(out[0], Effect::SaveSettings { report: false }));
    assert!(matches!(&out[1], Effect::SavePassword { name, .. } if name == "prod"));
    assert!(matches!(&out[3], Effect::Connect { cfg, .. } if cfg.password.as_deref() == Some("pw")));
    assert_eq!(ws.status, "Connecting to prod…");
    // The password is known for the rest of the session.
    ws.connect_saved(1);
    assert!(matches!(
        ws.take_outbox().pop(),
        Some(Effect::Connect { cfg, .. }) if cfg.password.as_deref() == Some("pw")
    ));
}

#[test]
fn window_opens_with_a_connection() {
    let mut cfg = ConnectionConfig::new("dev", "h", "d", "u");
    cfg.password = Some("pw".into());
    let mut ws = Workspace::new(Settings::default(), Some(cfg));
    assert!(!ws.conn_manager_open);
    assert_eq!(ws.status, "Connecting to dev…");
    assert_eq!(ws.passwords.get("dev").as_deref(), Some("pw"));
    assert_eq!(ws.passwords.get("other"), None);
    assert_eq!(ws.take_outbox().len(), 1);
}

#[test]
fn themes() {
    let mut ws = new_workspace();
    ws.set_theme(Theme::Light);
    assert!(ws.take_outbox().is_empty());
    ws.set_theme(Theme::Dark);
    let out = ws.take_outbox();
    assert!(matches!(out[0], Effect::SetTheme { theme: Theme::Dark }));
    assert!(matches!(out[1], Effect::SaveSettings { report: true }));
    ws.theme_not_saved("disk full");
    assert_eq!(ws.status, "Theme set (disk write failed: disk full)");
    let pane = ws.settings_pane(None);
    assert_eq!(pane.path, "(unavailable)");
    assert!(!pane.themes[0].selected);
    assert!(pane.themes[1].selected);
    assert_eq!(pane.keys[4], ("Terminal", "Ctrl+`"));
    assert_eq!(ws.settings_pane(Some("/x".into())).path, "/x");
    ws.toggle_settings();
    assert!(ws.settings_open);
}

// ---- palette, export, clicks -----------------------------------------------------------

#[test]
fn mod_palette_opens_and_closes() {
    let mut ws = new_workspace();
    assert!(!ws.palette_open);
    ws.toggle_palette();
    assert!(ws.palette_open);
    ws.close_palette();
    assert!(!ws.palette_open);
}

#[test]
fn palette_filters_in_any_case() {
    assert_eq!(palette_list("").len(), 13);
    let labels: Vec<&str> = palette_list("EXPLAIN").iter().map(|e| e.0).collect();
    assert_eq!(labels, vec!["Explain query", "Explain analyze (runs query)"]);
    assert_eq!(palette_list("tsv")[0].1, PaletteCmd::CopyTsv);
    assert!(palette_list("zzz").is_empty());
}

#[test]
fn commands_close_the_palette() {
    let mut ws = new_workspace();
    ws.toggle_palette();
    ws.run_command(PaletteCmd::Settings);
    assert!(!ws.palette_open);
    assert!(ws.settings_open);
    ws.toggle_palette();
    ws.close_overlays();
    assert!(!ws.palette_open && !ws.settings_open && !ws.conn_manager_open);
    ws.run_command(PaletteCmd::CopyTsv);
    assert_eq!(ws.status, "No result to copy");
    ws.run_command(PaletteCmd::ExportJson);
    assert_eq!(ws.status, "No result to export");
}

#[test]
fn terminal_is_started_once() {
    let mut ws = new_workspace();
    ws.toggle_terminal();
    assert!(matches!(ws.take_outbox().pop(), Some(Effect::StartTerminal)));
    ws.terminal_started(Err("no pty".into()));
    assert_eq!(ws.status, "Terminal failed: no pty");
    assert!(!ws.terminal_shown());
    ws.terminal_started(Ok(()));
    assert_eq!(ws.status, "Terminal opened");
    assert!(ws.terminal_shown());
    ws.take_outbox();
    ws.toggle_terminal();
    assert!(!ws.terminal_shown());
    assert!(ws.take_outbox().is_empty());
    ws.toggle_terminal();
    assert!(matches!(ws.take_outbox().pop(), Some(Effect::FocusTerminal)));
    assert_eq!(login_shell(false, None, Some("/bin/zsh".into())), "/bin/zsh");
    assert_eq!(login_shell(false, Some("x".into()), None), "/bin/sh");
    assert_eq!(login_shell(true, None, Some("x".into())), "cmd.exe");
}

#[test]
fn results_are_exported() {
    let mut ws = new_workspace();
    let id = seed_query_tab(&mut ws);
    {
        let tab = tab_mut(&mut ws, id);
        tab.title = "Query 1/ä".into();
        tab.headers = vec!["a".into()];
        tab.rows = vec![vec![text("1")]];
    }
    ws.take_outbox();
    ws.export_active(ExportFormat::Csv);
    assert!(matches!(
        ws.take_outbox().pop(),
        Some(Effect::SaveFile { suggested, data })
            if suggested == "Query_1_ä.csv" && data == "a\r\n1\r\n"
    ));
    ws.export_active(ExportFormat::Inserts);
    assert!(matches!(
        ws.take_outbox().pop(),
        Some(Effect::SaveFile { data, .. })
            if data == "INSERT INTO result (\"a\") VALUES ('1');\n"
    ));
    ws.copy_active_tsv();
    assert_eq!(ws.status, "Copied 1 row(s) to clipboard");
    assert!(matches!(ws.take_outbox().pop(), Some(Effect::Copy { text }) if text == "a\n1\n"));
    ws.exported(Some(Ok("/tmp/x.csv".into())));
    assert_eq!(ws.status, "Exported to /tmp/x.csv");
    ws.exported(None);
    assert_eq!(ws.status, "Exported to /tmp/x.csv");
    ws.exported(Some(Err("denied".into())));
    assert_eq!(ws.status, "Export failed: denied");
}

#[test]
fn export_names() {
    let table = Tab::table(1, "pub lic".into(), "t\"x".into());
    assert_eq!(export_table_name(&table), "\"pub lic\".\"t\"\"x\"");
    assert_eq!(export_basename(&table), "pub_lic.t_x");
    let mut query = Tab::query(2, 1);
    query.title = "".into();
    assert_eq!(export_basename(&query), "export");
    query.edit_target = Some(EditTarget {
        schema: "s".into(),
        table: "t".into(),
        pk_columns: vec![],
    });
    assert_eq!(export_table_name(&query), "\"s\".\"t\"");
}

#[test]
fn clicks_do_what_they_ask_for() {
    let mut ws = new_workspace();
    ws.perform(Action::NewQuery);
    let id = ws.active_id().unwrap();
    editable_tab(&mut ws, id, vec!["id", "name"]);
    tab_mut(&mut ws, id).rows = vec![vec![text("1"), CellValue::Null]];
    ws.perform(cell_click(id, 0, 1, 1));
    assert_eq!(ws.tab(id).unwrap().current_row, Some(0));
    assert_eq!(ws.tab(id).unwrap().editing, None);
    ws.perform(cell_click(id, 0, 1, 2));
    assert_eq!(ws.tab(id).unwrap().editing, Some((0, 1)));
    assert!(matches!(ws.tab(id).unwrap().cell_model(0, 1), CellModel::Editor));
    assert!(matches!(
        ws.tab(id).unwrap().cell_model(0, 0),
        CellModel::Shown { text, null: false, editable: true, edited: false } if text == "1"
    ));
    ws.perform(Action::OpenScratch);
    assert!(matches!(ws.take_outbox().pop(), Some(Effect::ReadScratch)));
    ws.perform(Action::OnConnections { what: ConnAction::Save });
    assert!(matches!(ws.take_outbox().pop(), Some(Effect::ReadForm)));
    ws.perform(Action::OnConnections { what: ConnAction::Manage });
    assert!(!ws.conn_manager_open);
    ws.perform(Action::Command { cmd: PaletteCmd::Connections });
    assert!(ws.conn_manager_open);
    ws.perform(Action::OnTab { tab: id, what: TabAction::AddRow });
    assert_eq!(ws.tab(id).unwrap().new_row_idx, Some(1));
    let chips = ws.tab_strip();
    assert_eq!(chips.len(), 1);
    assert!(chips[0].active);
    assert_eq!(chips[0].icon, "icons/file.svg");
    let close = ws.tab_strip().pop().unwrap().close;
    ws.perform(close);
    assert!(ws.tabs.is_empty());
}

#[test]
fn tab_bodies() {
    let mut ws = new_workspace();
    ws.open_table_tab("s".into(), "t".into());
    let id = ws.active_id().unwrap();
    let body = ws.center().unwrap();
    assert_eq!(body.filter_label.as_deref(), Some("s.t  WHERE"));
    assert!(!body.editor);
    assert_eq!(body.run.label, "Run (Ctrl/Cmd+Enter)");
    assert!(!body.add_row.enabled);
    assert!(!body.delete_row.enabled);
    assert!(body.reload.enabled);
    assert!(body.save_row.is_none());
    editable_tab(&mut ws, id, vec!["id"]);
    tab_mut(&mut ws, id).running = true;
    ws.add_row(id);
    let body = ws.center().unwrap();
    assert_eq!(body.run.label, "Stop");
    assert_eq!(body.delete_row.label, "Discard row");
    assert!(body.delete_row.enabled);
    assert!(body.save_row.is_some());
    assert_eq!(max_icon(true), "icons/window-restore.svg");
    assert_eq!(max_icon(false), "icons/window-maximize.svg");
}

#[test]
fn cells_of_the_grid() {
    let mut ws = new_workspace();
    let id = seed_query_tab(&mut ws);
    {
        let tab = tab_mut(&mut ws, id);
        tab.rows = vec![vec![CellValue::Null]];
        tab.edited_cells.insert((0, 0));
    }
    let shown = |ws: &Workspace, r, c| match ws.tab(id).unwrap().cell_model(r, c) {
        CellModel::Shown { text, null, editable, edited } => (text, null, editable, edited),
        CellModel::Editor => panic!("editor"),
    };
    assert_eq!(shown(&ws, 0, 0), ("NULL".to_string(), true, false, false));
    assert_eq!(shown(&ws, 5, 5), ("".to_string(), false, false, false));
    tab_mut(&mut ws, id).edit_cols = vec![Some("a".into())];
    assert_eq!(shown(&ws, 0, 0), ("NULL".to_string(), true, true, true));
}
