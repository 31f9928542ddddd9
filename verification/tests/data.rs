use zdb::config::{ConnectionConfig, SslMode};
use zdb::edit::{build_batch, pk_where, quote_ident, quote_literal, EditTarget, RowEdit};
use zdb::error::DbError;
use zdb::export::{csv_field, to_csv, to_inserts, to_json, to_tsv, ExportFormat};
use zdb::types::{CellValue, ColumnMeta};

fn target() -> EditTarget {
    EditTarget {
        schema: "public".into(),
        table: "widget".into(),
        pk_columns: vec!["id".into()],
    }
}

fn text(s: &str) -> CellValue {
    CellValue::Text(s.into())
}

fn sample() -> (Vec<String>, Vec<Vec<CellValue>>) {
    (
        vec!["id".into(), "name".into()],
        vec![
            vec![text("1"), text("a,b")],
            vec![text("2"), CellValue::Null],
            vec![text("3"), text("o'brien")],
        ],
    )
}

#[test]
fn update_sql() {
    let e = RowEdit::Update {
        pk: vec![("id".into(), text("5"))],
        set: vec![("name".into(), text("o'brien")), ("note".into(), CellValue::Null)],
    };
    assert_eq!(
        e.to_sql(&target()).unwrap(),
        r#"UPDATE "public"."widget" SET "name" = 'o''brien', "note" = NULL WHERE "id" = '5'"#
    );
}

#[test]
fn insert_sql() {
    let e = RowEdit::Insert {
        values: vec![("id".into(), text("1")), ("name".into(), text("a"))],
    };
    assert_eq!(
        e.to_sql(&target()).unwrap(),
        r#"INSERT INTO "public"."widget" ("id", "name") VALUES ('1', 'a')"#
    );
}

#[test]
fn delete_sql() {
    let e = RowEdit::Delete {
        pk: vec![("id".into(), text("5"))],
    };
    assert_eq!(
        e.to_sql(&target()).unwrap(),
        r#"DELETE FROM "public"."widget" WHERE "id" = '5'"#
    );
}

#[test]
fn composite_pk_and_identifier_quoting() {
    let t = EditTarget {
        schema: "s".into(),
        table: "weird\"name".into(),
        pk_columns: vec!["a".into(), "b".into()],
    };
    let e = RowEdit::Delete {
        pk: vec![("a".into(), text("1")), ("b".into(), text("2"))],
    };
    assert_eq!(
        e.to_sql(&t).unwrap(),
        r#"DELETE FROM "s"."weird""name" WHERE "a" = '1' AND "b" = '2'"#
    );
}

#[test]
fn batch_wraps_in_transaction() {
    let edits = vec![
        RowEdit::Insert { values: vec![("id".into(), text("1"))] },
        RowEdit::Delete { pk: vec![("id".into(), text("2"))] },
    ];
    let batch = build_batch(&target(), &edits).unwrap().unwrap();
    assert!(batch.starts_with("BEGIN;\n"));
    assert!(batch.trim_end().ends_with("COMMIT;"));
    assert_eq!(batch.matches(";\n").count(), 4); // begin + 2 stmts + commit
}

#[test]
fn empty_batch_is_none() {
    assert!(build_batch(&target(), &[]).unwrap().is_none());
}

#[test]
fn update_without_set_errors() {
    let e = RowEdit::Update {
        pk: vec![("id".into(), text("5"))],
        set: vec![],
    };
    assert!(e.to_sql(&target()).is_err());
}

#[test]
fn statements_that_cannot_be_built() {
    let shown = |e: RowEdit| e.to_sql(&target()).unwrap_err().message();
    assert_eq!(
        shown(RowEdit::Update { pk: vec![("id".into(), text("5"))], set: vec![] }),
        "query failed: update has no columns to set"
    );
    assert_eq!(
        shown(RowEdit::Update { pk: vec![], set: vec![("a".into(), text("5"))] }),
        "query failed: update has no primary key"
    );
    assert_eq!(shown(RowEdit::Insert { values: vec![] }), "query failed: insert has no values");
    assert_eq!(shown(RowEdit::Delete { pk: vec![] }), "query failed: delete has no primary key");
}

#[test]
fn batch_text_is_exact() {
    let edits = vec![
        RowEdit::Insert { values: vec![("id".into(), text("1"))] },
        RowEdit::Delete { pk: vec![("id".into(), text("2"))] },
    ];
    assert_eq!(
        build_batch(&target(), &edits).unwrap().unwrap(),
        "BEGIN;\nINSERT INTO \"public\".\"widget\" (\"id\") VALUES ('1');\n\
         DELETE FROM \"public\".\"widget\" WHERE \"id\" = '2';\nCOMMIT;\n"
    );
    // The first fault is the one that is told.
    let faulty = vec![
        RowEdit::Delete { pk: vec![("id".into(), text("2"))] },
        RowEdit::Delete { pk: vec![] },
        RowEdit::Insert { values: vec![] },
    ];
    assert_eq!(
        build_batch(&target(), &faulty).unwrap_err().message(),
        "query failed: delete has no primary key"
    );
}

#[test]
fn key_clause_takes_null_as_null() {
    let pk = vec![("a".to_string(), CellValue::Null), ("b".to_string(), text("x"))];
    assert_eq!(pk_where(&pk), r#""a" IS NULL AND "b" = 'x'"#);
}

#[test]
fn quoting() {
    assert_eq!(quote_ident("a\"b"), "\"a\"\"b\"");
    assert_eq!(quote_literal(&text("it's")), "'it''s'");
    assert_eq!(quote_literal(&CellValue::Null), "NULL");
    assert_eq!(target().qualified(), "\"public\".\"widget\"");
}

#[test]
fn csv_quotes_and_nulls() {
    let (h, r) = sample();
    let csv = to_csv(&h, &r);
    assert_eq!(
        csv,
        "id,name\r\n1,\"a,b\"\r\n2,\r\n3,o'brien\r\n"
    );
}

#[test]
fn csv_doubles_inner_quotes() {
    let h = vec!["v".into()];
    let r = vec![vec![text("say \"hi\"")]];
    assert_eq!(to_csv(&h, &r), "v\r\n\"say \"\"hi\"\"\"\r\n");
}

#[test]
fn csv_fields() {
    assert_eq!(csv_field("plain"), "plain");
    assert_eq!(csv_field("a\nb"), "\"a\nb\"");
    assert_eq!(csv_field("a\rb"), "\"a\rb\"");
    assert_eq!(csv_field(""), "");
}

#[test]
fn json_objects_and_null() {
    let (h, r) = sample();
    let js = to_json(&h, &r);
    assert!(js.starts_with("[\n"));
    assert!(js.contains(r#"{ "id": "1", "name": "a,b" }"#));
    assert!(js.contains(r#"{ "id": "2", "name": null }"#));
    assert!(js.trim_end().ends_with(']'));
}

#[test]
fn json_escapes_specials() {
    let h = vec!["v".into()];
    let r = vec![vec![text("a\"b\\c\n")]];
    assert!(to_json(&h, &r).contains(r#""v": "a\"b\\c\n""#));
}

#[test]
fn json_is_read_back_by_a_parser() {
    let (h, mut r) = sample();
    r.push(vec![text("\u{1}\t\r\"\\/ü"), text("😀")]);
    let back: serde_json::Value = serde_json::from_str(&to_json(&h, &r)).unwrap();
    let rows = back.as_array().unwrap();
    assert_eq!(rows.len(), 4);
    assert_eq!(rows[0].get("name").unwrap().as_str(), Some("a,b"));
    assert!(rows[1].get("name").unwrap().is_null());
    assert_eq!(rows[3].get("id").unwrap().as_str(), Some("\u{1}\t\r\"\\/ü"));
    assert_eq!(rows[3].get("name").unwrap().as_str(), Some("😀"));
}

#[test]
fn inserts_quote_literals() {
    let (h, r) = sample();
    let sql = to_inserts("\"public\".\"t\"", &h, &r);
    assert!(sql.contains(r#"INSERT INTO "public"."t" ("id", "name") VALUES ('1', 'a,b');"#));
    assert!(sql.contains(r#"VALUES ('2', NULL);"#));
    assert!(sql.contains(r#"VALUES ('3', 'o''brien');"#));
}

#[test]
fn tsv_flattens_and_nulls() {
    let h = vec!["a".into(), "b".into()];
    let r = vec![vec![text("x\ty"), CellValue::Null]];
    assert_eq!(to_tsv(&h, &r), "a\tb\nx y\t\n");
}

#[test]
fn extensions() {
    assert_eq!(ExportFormat::Csv.extension(), "csv");
    assert_eq!(ExportFormat::Json.extension(), "json");
    assert_eq!(ExportFormat::Inserts.extension(), "sql");
}

#[test]
fn cell_from_opt() {
    assert_eq!(CellValue::from_opt(Some("x")), CellValue::Text("x".into()));
    assert_eq!(CellValue::from_opt(None), CellValue::Null);
}

#[test]
fn column_named_has_no_metadata_yet() {
    let c = ColumnMeta::named("id");
    assert_eq!(c.name, "id");
    assert!(c.type_oid.is_none());
    assert!(c.table_oid.is_none());
    assert!(c.column_id.is_none());
}

#[test]
fn ssl_default_is_prefer() {
    assert_eq!(SslMode::default(), SslMode::Prefer);
}

#[test]
fn ssl_verifies_flags() {
    assert!(SslMode::VerifyFull.verifies());
    assert!(SslMode::VerifyCa.verifies());
    assert!(!SslMode::Require.verifies());
    assert!(!SslMode::Prefer.verifies());
    assert!(!SslMode::Disable.verifies());
}

#[test]
fn ssl_transport_mapping() {
    assert!(matches!(SslMode::Disable.transport(), tokio_postgres::config::SslMode::Disable));
    assert!(matches!(SslMode::Prefer.transport(), tokio_postgres::config::SslMode::Prefer));
    assert!(matches!(SslMode::Require.transport(), tokio_postgres::config::SslMode::Require));
    assert!(matches!(SslMode::VerifyFull.transport(), tokio_postgres::config::SslMode::Require));
    assert!(matches!(SslMode::VerifyCa.transport(), tokio_postgres::config::SslMode::Require));
}

#[test]
fn config_builder_defaults() {
    let cfg = ConnectionConfig::new("n", "h", "db", "u");
    assert_eq!(cfg.port, 5432);
    assert_eq!(cfg.ssl_mode, SslMode::Prefer);
    assert!(cfg.password.is_none());
}

#[test]
fn settings_reach_the_driver() {
    let mut cfg = ConnectionConfig::new("label", "db.example", "shop", "me");
    cfg.port = 6000;
    cfg.ssl_mode = SslMode::VerifyFull;
    cfg.password = Some("s3cret".into());
    let pg = cfg.to_pg_config();
    assert_eq!(pg.get_hosts(), &[tokio_postgres::config::Host::Tcp("db.example".into())]);
    assert_eq!(pg.get_ports(), &[6000]);
    assert_eq!(pg.get_dbname(), Some("shop"));
    assert_eq!(pg.get_user(), Some("me"));
    assert_eq!(pg.get_password(), Some("s3cret".as_bytes()));
    assert_eq!(pg.get_application_name(), Some("zdb"));
    assert!(matches!(pg.get_ssl_mode(), tokio_postgres::config::SslMode::Require));

    let open = ConnectionConfig::new("label", "h", "d", "u").to_pg_config();
    assert_eq!(open.get_password(), None);
    assert_eq!(open.get_ports(), &[5432]);
    assert!(matches!(open.get_ssl_mode(), tokio_postgres::config::SslMode::Prefer));
}

#[test]
fn errors_as_they_are_shown() {
    assert_eq!(DbError::Connect("x".into()).message(), "connection failed: x");
    assert_eq!(
        DbError::Postgres {
            message: "no table".into(),
            code: Some("42P01".into()),
            position: Some(3),
            detail: None,
            hint: None,
        }
        .message(),
        "no table"
    );
    assert_eq!(DbError::Query("x".into()).message(), "query failed: x");
    assert_eq!(DbError::Tls("x".into()).message(), "TLS configuration error: x");
    assert_eq!(DbError::NoConnection(7).message(), "no such connection: 7");
    assert_eq!(DbError::WorkerGone.message(), "database worker stopped");
}

#[test]
fn client_errors_have_no_code() {
    // A connection string that cannot be read gives an error without a server in it.
    let parsed: Result<tokio_postgres::Config, tokio_postgres::Error> = "host".parse();
    let e = parsed.err().unwrap();
    let reported = DbError::from_pg(&e);
    assert_eq!(reported.message(), "query failed: invalid connection string");
    match reported {
        DbError::Query(text) => assert_eq!(text, e.to_string()),
        other => panic!("unexpected {other:?}"),
    }
}
