use zdb::actor::{after_batch, apply_request, Command, Registry, Work};
use zdb::assets::Assets;
use zdb::config::{ConnectionConfig, SslMode};
use zdb::describe::{described, source_table, Attribute, ColumnSource};
use zdb::edit::{EditTarget, RowEdit};
use zdb::error::DbError;
use zdb::introspect::{
    ConstraintInfo, IntrospectKind, Introspection, RelationInfo, RelationKind, SchemaInfo,
};
use zdb::lsp::{
    config_file_name, config_text, first_present, frame, is_completion_trigger, json_quote,
    parse_message, read_header_line, server_name, ssl_str, Incoming, Reaction, Session,
    SqlDocument,
};
use zdb::query::{QueryOutcome, QueryRun, ServerMessage};
use zdb::settings::{
    config_from_env, entry_to_config, is_wsl, ssl_from_str, ConnectionEntry, EnvConnection,
    PasswordProbe, Settings, Theme,
};
use zdb::tls::{trust_roots, RootFile};
use zdb::types::{CellValue, Elapsed, QueryEvent};

const CERTIFICATE: &str = "-----BEGIN CERTIFICATE-----
MIIBhzCCAS2gAwIBAgIULgJKIYeiH/aKByf38QcPaAKJI6QwCgYIKoZIzj0EAwIw
GDEWMBQGA1UEAwwNemRiIHRlc3Qgcm9vdDAgFw0yNjExMTYxNzU4MjJaGA8yMTI2
MTAyMzE3NTgyMlowGDEWMBQGA1UEAwwNemRiIHRlc3Qgcm9vdDBZMBMGByqGSM49
AgEGCCqGSM49AwEHA0IABDmCBi4TeVgmOO7JJ959hndBZYxISAF/xAv002S2SfPM
iSmCjAd3OpdVXmxKNSK8LJcvlKx05+dOn/hkTic3EH+jUzBRMB0GA1UdDgQWBBSv
maIsky5u5n/O61EqZe0S/YPZRTAfBgNVHSMEGDAWgBSvmaIsky5u5n/O61EqZe0S
/YPZRTAPBgNVHRMBAf8EBTADAQH/MAoGCCqGSM49BAMCA0gAMEUCIElqib5muJnj
yE7CmT6OErvMzc8fvrkZPy4QQI4cXP97AiEAt1ExC/fAASlEP+fEDWNXdzVVHYhy
4kdMpftIdaeCbig=
-----END CERTIFICATE-----
";

fn text(s: &str) -> CellValue {
    CellValue::Text(s.into())
}

fn at(secs: u64) -> Elapsed {
    Elapsed { secs, nanos: 0 }
}

// ---- settings --------------------------------------------------------------------------

#[test]
fn defaults_fill_missing_fields() {
    // Only host/dbname/user/name given; port and ssl_mode default.
    let json = r#"{ "connections": [
            { "name": "x", "host": "h", "dbname": "d", "user": "u" }
        ] }"#;
    let v: serde_json::Value = serde_json::from_str(json).unwrap();
    let word = |e: &serde_json::Value, key: &str| e[key].as_str().map(str::to_string);
    let connections = v.get("connections").and_then(|c| c.as_array()).map(|list| {
        list.iter()
            .map(|e| {
                ConnectionEntry::filled(
                    word(e, "name").unwrap(),
                    word(e, "host").unwrap(),
                    e.get("port").and_then(|p| p.as_u64()).map(|p| p as u16),
                    word(e, "dbname").unwrap(),
                    word(e, "user").unwrap(),
                    word(e, "ssl_mode"),
                )
            })
            .collect()
    });
    let s = Settings::filled(connections, None, None);
    assert_eq!(s.connections[0].port, 5432);
    assert_eq!(s.connections[0].ssl_mode, "prefer");
    assert_eq!(s.theme, Theme::Light); // default is white scheme
}

#[test]
fn settings_are_loaded_and_saved() {
    assert_eq!(Settings::load(None).unwrap().theme, Theme::Light);
    let mut s = Settings::default();
    s.theme = Theme::Dark;
    let (path, kept) = s.save(Some("/c/settings.json".into())).unwrap();
    assert_eq!(path, "/c/settings.json");
    assert_eq!(Settings::load(Some(Ok(kept))).unwrap().theme, Theme::Dark);
    assert_eq!(s.save(None).unwrap_err(), "no config directory available");
    assert_eq!(Settings::load(Some(Err("bad".into()))).unwrap_err(), "bad");
}

#[test]
fn saved_connections_become_configurations() {
    let entry = ConnectionEntry {
        name: "n".into(),
        host: "h".into(),
        port: 6543,
        dbname: "d".into(),
        user: "u".into(),
        ssl_mode: " verify-full ".into(),
    };
    let cfg = entry_to_config(&entry, Some("pw".into()));
    assert_eq!(cfg.port, 6543);
    assert_eq!(cfg.ssl_mode, SslMode::VerifyFull);
    assert_eq!(cfg.password.as_deref(), Some("pw"));
    assert_eq!(ssl_from_str("nonsense"), SslMode::Prefer);
    for mode in [
        SslMode::Disable,
        SslMode::Prefer,
        SslMode::Require,
        SslMode::VerifyCa,
        SslMode::VerifyFull,
    ] {
        assert_eq!(ssl_from_str(ssl_str(mode)), mode);
    }
}

#[test]
fn environment_makes_a_connection() {
    let none = EnvConnection {
        host: None,
        user: Some("u".into()),
        dbname: None,
        password: None,
        port: None,
        ssl_disable: false,
    };
    assert!(config_from_env(none).is_none());
    let vars = |user: Option<&str>, port: &str, ssl_disable: bool| EnvConnection {
        host: Some("h".into()),
        user: user.map(str::to_string),
        dbname: None,
        password: Some("pw".into()),
        port: Some(port.into()),
        ssl_disable,
    };
    let cfg = config_from_env(vars(None, "6000", true)).unwrap();
    assert_eq!((cfg.user.as_str(), cfg.dbname.as_str()), ("postgres", "postgres"));
    assert_eq!((cfg.port, cfg.ssl_mode), (6000, SslMode::Disable));
    let cfg = config_from_env(vars(Some("me"), "70000", false)).unwrap();
    assert_eq!(cfg.dbname, "me");
    assert_eq!((cfg.port, cfg.ssl_mode), (5432, SslMode::Prefer));
}

#[test]
fn wsl_is_told_by_the_kernel_release() {
    assert!(is_wsl(true, None));
    assert!(is_wsl(false, Some("5.15.90.1-MICROSOFT-standard-WSL2".into())));
    assert!(!is_wsl(false, Some("6.1.0-generic".into())));
    assert!(!is_wsl(false, None));
}

#[test]
fn probe_counts_by_name() {
    let mut probe = PasswordProbe::new();
    probe.record("a");
    probe.record("b");
    probe.record("a");
    assert_eq!(probe.get_password_calls("a"), 2);
    assert_eq!(probe.get_password_calls("b"), 1);
    assert_eq!(probe.get_password_calls("c"), 0);
}

// ---- certificates ----------------------------------------------------------------------

#[test]
fn trusted_roots() {
    let pem = |bytes: &str| Some(RootFile {
        path: "/r.pem".into(),
        contents: Ok(bytes.as_bytes().to_vec()),
    });
    for mode in [SslMode::Disable, SslMode::Prefer, SslMode::Require] {
        assert!(trust_roots(mode, vec![vec![1]], pem("x")).unwrap().is_none());
    }
    // What the system has and cannot be used is passed over.
    let roots = trust_roots(SslMode::VerifyFull, vec![vec![1, 2, 3]], None).unwrap().unwrap();
    assert_eq!(roots.len(), 0);
    let two = format!("{CERTIFICATE}{CERTIFICATE}");
    let roots = trust_roots(SslMode::VerifyCa, vec![], pem(&two)).unwrap().unwrap();
    assert_eq!(roots.len(), 2);
    // A file that cannot be used is an error.
    let torn = "-----BEGIN CERTIFICATE-----\n!!!\n-----END CERTIFICATE-----\n";
    let wrong = "-----BEGIN CERTIFICATE-----\nAAAA\n-----END CERTIFICATE-----\n";
    for file in [torn, wrong] {
        let err = trust_roots(SslMode::VerifyFull, vec![], pem(file)).err().unwrap();
        assert!(matches!(err, DbError::Tls(_)));
    }
    let missing = RootFile { path: "/r.pem".into(), contents: Err("not found".into()) };
    let err = trust_roots(SslMode::VerifyFull, vec![], Some(missing)).err().unwrap();
    assert_eq!(err.message(), "TLS configuration error: reading /r.pem: not found");
}

// ---- the worker ------------------------------------------------------------------------

#[test]
fn connections_are_numbered() {
    let mut reg: Registry<&str> = Registry::new();
    assert_eq!(reg.connected(Ok("a")).unwrap(), 1);
    assert!(reg.connected(Err(DbError::Connect("no".into()))).is_err());
    assert_eq!(reg.connected(Ok("b")).unwrap(), 2);
    assert_eq!(*reg.lookup(1).unwrap(), "a");
    assert_eq!(reg.lookup(3).unwrap_err().message(), "no such connection: 3");
    assert_eq!(reg.to_cancel(2), Some(&"b"));
    assert!(matches!(reg.dispatch(Command::Disconnect { conn: 1 }), Work::Nothing));
    assert!(reg.lookup(1).is_err());
    assert!(matches!(reg.dispatch(Command::Cancel { conn: 1 }), Work::Nothing));
    assert!(matches!(reg.dispatch(Command::Cancel { conn: 2 }), Work::Do { .. }));
    assert!(matches!(
        reg.dispatch(Command::Query { conn: 9, sql: "x".into() }),
        Work::Refuse { error: DbError::NoConnection(9) }
    ));
    assert!(matches!(
        reg.dispatch(Command::Introspect { conn: 2, kind: IntrospectKind::Schemas }),
        Work::Do { .. }
    ));
    let cfg = ConnectionConfig::new("a", "h", "d", "u");
    assert!(matches!(reg.dispatch(Command::Connect { cfg }), Work::Do { .. }));
}

#[test]
fn edits_become_one_request() {
    let target = EditTarget {
        schema: "s".into(),
        table: "t".into(),
        pk_columns: vec!["id".into()],
    };
    assert!(apply_request(1, &target, &[]).unwrap().is_none());
    let delete = RowEdit::Delete { pk: vec![("id".into(), text("1"))] };
    assert!(matches!(
        apply_request(1, &target, &[delete]),
        Ok(Some(Command::Apply { conn: 1, batch })) if batch.starts_with("BEGIN;")
    ));
    let bad = RowEdit::Delete { pk: vec![] };
    assert!(matches!(apply_request(1, &target, &[bad]), Err(DbError::Query(_))));
    assert_eq!(after_batch(true), None);
    assert_eq!(after_batch(false), Some("ROLLBACK"));
}

#[test]
fn rows_come_in_batches() {
    let mut run = QueryRun::new();
    let row = |n: usize| ServerMessage::Row {
        columns: vec!["a".into()],
        cells: vec![if n % 2 == 0 { Some(n.to_string()) } else { None }],
    };
    let mut out = QueryOutcome::new();
    let mut sizes = Vec::new();
    let mut msgs = vec![ServerMessage::RowDescription(vec!["a".into()])];
    msgs.extend((0..501).map(row));
    msgs.push(ServerMessage::Other);
    msgs.push(ServerMessage::CommandComplete(501));
    for msg in msgs {
        for event in run.step(msg, at(3)) {
            if let QueryEvent::Rows(rows) = &event {
                sizes.push(rows.len());
            }
            out.absorb(event);
        }
    }
    assert!(run.finish().is_empty());
    assert_eq!(sizes, vec![500, 1]);
    assert_eq!(out.headers, vec!["a"]);
    assert_eq!(out.rows.len(), 501);
    assert_eq!(out.rows[500], vec![text("500")]);
    assert_eq!(out.rows[1], vec![CellValue::Null]);
    assert_eq!((out.affected, out.elapsed), (501, at(3)));
    assert!(out.error.is_none());
}

#[test]
fn a_failure_is_the_last_event() {
    let mut run = QueryRun::new();
    let msg = ServerMessage::Row { columns: vec!["a".into()], cells: vec![None] };
    let first = run.step(msg, at(0));
    // A row without a description before it announces its columns.
    assert!(matches!(&first[0], QueryEvent::Columns(c) if c[0].name == "a"));
    let mut out = QueryOutcome::new();
    for event in run.step(ServerMessage::Failed(DbError::Query("gone".into())), at(0)) {
        out.absorb(event);
    }
    assert_eq!(out.error.as_deref(), Some("query failed: gone"));
}

#[test]
fn answers_of_another_kind_are_refused() {
    let info = || Introspection::Schemas(vec![SchemaInfo { oid: 1, name: "s".into() }]);
    assert_eq!(info().schemas().unwrap()[0].name, "s");
    assert!(matches!(info().relations(), Err(DbError::WorkerGone)));
    assert!(matches!(info().columns(), Err(DbError::WorkerGone)));
    assert!(matches!(info().relation_detail(), Err(DbError::WorkerGone)));
    assert!(matches!(info().schema_objects(), Err(DbError::WorkerGone)));
}

#[test]
fn catalog_letters() {
    assert_eq!(RelationKind::from_relkind("m"), RelationKind::MaterializedView);
    assert_eq!(RelationKind::from_relkind("r"), RelationKind::Table);
    let rel = RelationInfo::from_row("s", 5, "v".into(), "v");
    assert_eq!((rel.schema.as_str(), rel.kind), ("s", RelationKind::View));
    assert_eq!(ConstraintInfo::from_row("c".into(), "u", "".into()).kind, 'u');
}

#[test]
fn results_of_one_table_can_be_edited() {
    let col = |table_oid, column_id| ColumnSource { table_oid, column_id };
    let attr = |attnum, name: &str, is_pk| Attribute { attnum, name: name.into(), is_pk };
    let cols = vec![col(Some(7), Some(1)), col(None, None), col(Some(7), Some(2))];
    assert_eq!(source_table(&cols), Some(7));
    assert_eq!(source_table(&vec![col(Some(7), Some(1)), col(Some(8), Some(1))]), None);
    assert_eq!(source_table(&vec![col(None, None)]), None);
    let attrs = vec![attr(1, "id", true), attr(2, "name", false)];
    let d = described(&cols, "s".into(), "t".into(), &attrs).unwrap();
    assert_eq!(d.target.pk_columns, vec!["id"]);
    assert_eq!(d.columns, vec![Some("id".to_string()), None, Some("name".to_string())]);
    let no_key = vec![attr(1, "id", false)];
    assert!(described(&cols, "s".into(), "t".into(), &no_key).is_none());
    let elsewhere = vec![attr(1, "id", false), attr(3, "key", true)];
    assert!(described(&cols, "s".into(), "t".into(), &elsewhere).is_none());
}

// ---- completion ------------------------------------------------------------------------

#[test]
fn frames_are_read_back() {
    assert_eq!(frame("{}"), "Content-Length: 2\r\n\r\n{}");
    assert_eq!(frame("ä"), "Content-Length: 2\r\n\r\nä");
    assert_eq!(read_header_line(0, "Content-Length: 12\r\n"), Some(12));
    assert_eq!(read_header_line(12, "Content-Type: x\r\n"), Some(12));
    assert_eq!(read_header_line(12, "Content-Length: x\r\n"), Some(0));
    assert_eq!(read_header_line(12, "\r\n"), None);
}

#[test]
fn strings_are_quoted_as_json() {
    assert_eq!(json_quote("a\"b\\c\n\t\u{1}é"), "\"a\\\"b\\\\c\\n\\t\\u0001é\"");
    assert_eq!(json_quote("\u{8}\u{c}\r\u{1f}\u{7f}"), "\"\\b\\f\\r\\u001f\u{7f}\"");
}

#[test]
fn messages_are_taken_apart() {
    let m = parse_message(br#"{"id": 3, "result": {"a": [1, 2]}}"#).unwrap();
    assert_eq!((m.id, m.has_method), (Some(3), false));
    assert_eq!(m.result.as_deref(), Some(r#"{"a":[1,2]}"#));
    let m = parse_message(br#"{"id": "x", "method": "m"}"#).unwrap();
    assert_eq!((m.id, m.has_method, m.result.is_none()), (None, true, true));
    // Each member is read under its own name.
    let m = parse_message(br#"{"result": 7, "method": 8, "id": 9}"#).unwrap();
    assert_eq!((m.id, m.has_method, m.result.as_deref()), (Some(9), true, Some("7")));
    let m = parse_message(br#"{"result": null}"#).unwrap();
    assert_eq!((m.id, m.has_method, m.result.as_deref()), (None, false, Some("null")));
    let m = parse_message(b"[1]").unwrap();
    assert_eq!((m.id, m.has_method, m.result.as_deref()), (None, false, None));
    assert!(parse_message(b"{").is_none());
}

#[test]
fn a_conversation() {
    let mut session: Session<&str> = Session::new();
    let (hello, ready) = session.initialize(42);
    let v: serde_json::Value = serde_json::from_str(&hello).unwrap();
    assert_eq!(v["id"], 1);
    assert_eq!(v["method"], "initialize");
    assert_eq!(v["params"]["processId"], 42);
    assert!(ready.contains("\"initialized\""));

    let mut doc = SqlDocument::new(7);
    assert_eq!(doc.uri(), "file:///zdb/tab-7.sql");
    let open = doc.sync(&mut session, "select 1\n");
    let v: serde_json::Value = serde_json::from_str(&open).unwrap();
    assert_eq!(v["method"], "textDocument/didOpen");
    assert_eq!(v["params"]["textDocument"]["text"], "select 1\n");
    let change = doc.sync(&mut session, "select 2");
    let v: serde_json::Value = serde_json::from_str(&change).unwrap();
    assert_eq!(v["method"], "textDocument/didChange");
    assert_eq!(v["params"]["textDocument"]["version"], 2);
    assert_eq!(v["params"]["contentChanges"][0]["text"], "select 2");

    let ask = session.completion(doc.uri(), 3, 9, "waiter");
    let v: serde_json::Value = serde_json::from_str(&ask).unwrap();
    assert_eq!(v["id"], 2);
    assert_eq!(v["params"]["position"]["line"], 3);
    assert_eq!(v["params"]["position"]["character"], 9);
    assert_eq!(v["params"]["textDocument"]["uri"], "file:///zdb/tab-7.sql");

    let note = |id, has_method| Incoming { id, has_method, result: None };
    assert!(matches!(session.receive(note(None, true)), Reaction::Ignore));
    assert!(matches!(
        session.receive(note(Some(5), true)),
        Reaction::Reply(b) if b == r#"{"id":5,"jsonrpc":"2.0","result":null}"#
    ));
    let answer = || Incoming { id: Some(2), has_method: false, result: Some("[]".into()) };
    assert!(matches!(
        session.receive(answer()),
        Reaction::Deliver { waiter: "waiter", result } if result == "[]"
    ));
    // Nobody waits for it any more.
    assert!(matches!(session.receive(answer()), Reaction::Ignore));
}

#[test]
fn server_configuration() {
    let mut cfg = ConnectionConfig::new("n", "h", "d\"b", "u");
    cfg.password = Some("pw".into());
    assert_eq!(
        config_text(&cfg),
        "connections:\n  - alias: zdb\n    driver: postgresql\n    proto: tcp\n    user: \"u\"\n    host: \"h\"\n    port: 5432\n    dbName: \"d\\\"b\"\n    params:\n      sslmode: prefer\n"
    );
    assert_eq!(config_file_name(12), "zdb-sqls-12.yml");
    assert_eq!(server_name(true), "sqls.exe");
    assert_eq!(server_name(false), "sqls");
    assert_eq!(first_present(vec![("a", false), ("b", true), ("c", true)]), Some("b"));
    assert_eq!(first_present(vec![("a", false)]), None);
}

#[test]
fn completion_triggers() {
    assert!(is_completion_trigger("a"));
    assert!(is_completion_trigger("x.") && is_completion_trigger("_"));
    assert!(is_completion_trigger("é"));
    assert!(!is_completion_trigger("a ") && !is_completion_trigger(""));
}

#[test]
fn icons_are_found() {
    let assets = Assets {
        icons: vec![
            ("icons/a.svg".into(), vec![1]),
            ("icons/b.svg".into(), vec![2]),
            ("other/c.svg".into(), vec![3]),
        ],
    };
    assert_eq!(assets.load("icons/b.svg"), Some(&vec![2]));
    assert_eq!(assets.load("/icons/a.svg"), Some(&vec![1]));
    assert_eq!(assets.load("icons/z.svg"), None);
    assert_eq!(assets.list("icons/"), vec!["icons/a.svg", "icons/b.svg"]);
}
