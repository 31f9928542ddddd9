use zdb::settings::ssl_from_str;
use zdb::config::SslMode;
use zdb::sql::{
    dollar_tag, format_sql, oneline, order_by_sql, statement_at, ColumnSort,
};

#[test]
fn single_statement_returned_whole() {
    assert_eq!(statement_at("select 1", 3), "select 1");
    assert_eq!(statement_at("select 1", 0), "select 1");
}

#[test]
fn picks_statement_by_cursor() {
    let sql = "select 1; select 2; select 3";
    assert_eq!(statement_at(sql, 2), "select 1"); // in first
    assert_eq!(statement_at(sql, 12), "select 2"); // in second
    assert_eq!(statement_at(sql, 28), "select 3"); // in third
}

#[test]
fn semicolon_in_string_is_not_a_split() {
    let sql = "select ';' as a; select 2";
    assert_eq!(statement_at(sql, 3), "select ';' as a");
    assert_eq!(statement_at(sql, 20), "select 2");
}

#[test]
fn semicolon_in_comment_is_not_a_split() {
    let sql = "select 1 -- ; not a split\n; select 2";
    assert_eq!(statement_at(sql, 3), "select 1 -- ; not a split");
    assert_eq!(statement_at(sql, 30), "select 2");
}

#[test]
fn block_comment_semicolon_ignored() {
    let sql = "select 1 /* ; */ + 2; select 9";
    assert_eq!(statement_at(sql, 3), "select 1 /* ; */ + 2");
}

#[test]
fn dollar_quoted_body_not_split() {
    let sql = "create function f() returns int as $$ begin; return 1; end; $$ language plpgsql; select 2";
    assert!(statement_at(sql, 10).starts_with("create function"));
    assert!(statement_at(sql, 10).contains("$$ language plpgsql"));
    assert_eq!(statement_at(sql, sql.len() - 1), "select 2");
}

#[test]
fn util_ssl_parsing() {
    assert_eq!(ssl_from_str("disable"), SslMode::Disable);
    assert_eq!(ssl_from_str("verify-full"), SslMode::VerifyFull);
    assert_eq!(ssl_from_str("whatever"), SslMode::Prefer);
}

#[test]
fn workspace_ssl_parsing() {
    assert_eq!(ssl_from_str("disable"), SslMode::Disable);
    assert_eq!(ssl_from_str("verify-full"), SslMode::VerifyFull);
    assert_eq!(ssl_from_str("whatever"), SslMode::Prefer);
}

#[test]
fn util_oneline_collapses_and_truncates() {
    assert_eq!(oneline("SELECT\n  1"), "SELECT 1");
    assert_eq!(oneline(&"x ".repeat(200)).chars().last(), Some('…'));
}

#[test]
fn workspace_oneline_collapses_and_truncates() {
    assert_eq!(oneline("SELECT\n  1"), "SELECT 1");
    assert_eq!(oneline(&"x ".repeat(200)).chars().last(), Some('…'));
}

#[test]
fn util_order_by_wraps_query() {
    assert_eq!(
        order_by_sql("SELECT * FROM t", "qty", ColumnSort::Descending),
        r#"SELECT * FROM (SELECT * FROM t) AS _zdb ORDER BY "qty" DESC"#
    );
    // Default clears the sort.
    assert_eq!(order_by_sql("SELECT 1;", "x", ColumnSort::Default), "SELECT 1;");
}

#[test]
fn workspace_order_by_wraps_query() {
    assert_eq!(
        order_by_sql("SELECT * FROM t", "qty", ColumnSort::Descending),
        r#"SELECT * FROM (SELECT * FROM t) AS _zdb ORDER BY "qty" DESC"#
    );
    // Default clears the sort.
    assert_eq!(order_by_sql("SELECT 1;", "x", ColumnSort::Default), "SELECT 1;");
}

#[test]
fn order_by_drops_semicolons_and_quotes_the_column() {
    assert_eq!(
        order_by_sql("  SELECT 1 ;;", "a\"b", ColumnSort::Ascending),
        "SELECT * FROM (SELECT 1 ) AS _zdb ORDER BY \"a\"\"b\" ASC"
    );
}

#[test]
fn tagged_dollar_quotes_end_at_their_own_tag() {
    let sql = "select $a$ ; $$ ; $a$; select $$x;y$$";
    assert_eq!(statement_at(sql, 0), "select $a$ ; $$ ; $a$");
    assert_eq!(statement_at(sql, sql.len()), "select $$x;y$$");
    // A dollar sign that opens no tag is an ordinary character.
    assert_eq!(statement_at("select $1; select 2", 0), "select $1");
}

#[test]
fn dollar_tags() {
    let tag = |s: &str| dollar_tag(&s.chars().collect::<Vec<char>>());
    assert_eq!(tag("$$ x"), Some(2));
    assert_eq!(tag("$body_1$ x"), Some(8));
    assert_eq!(tag("$1 x"), None);
    assert_eq!(tag("x$$"), None);
    assert_eq!(tag("$a"), None);
}

#[test]
fn doubled_quotes_stay_inside() {
    let sql = "select 'it''s; ok'; select \"a\"\"; b\"";
    assert_eq!(statement_at(sql, 0), "select 'it''s; ok'");
    assert_eq!(statement_at(sql, sql.len()), "select \"a\"\"; b\"");
}

#[test]
fn unterminated_pieces_run_to_the_end() {
    assert_eq!(statement_at("select 'a; b", 0), "select 'a; b");
    assert_eq!(statement_at("select /* a; b", 0), "select /* a; b");
    assert_eq!(statement_at("select $$ a; b", 0), "select $$ a; b");
}

#[test]
fn blank_statement_falls_back_to_everything() {
    assert_eq!(statement_at("select 1; ; select 2", 10), "select 1; ; select 2");
    assert_eq!(statement_at("  ", 1), "");
    assert_eq!(statement_at("", 7), "");
    // A cursor behind the end is at the end.
    assert_eq!(statement_at("select 1; select 2", 1000), "select 2");
}

#[test]
fn cursor_counts_bytes() {
    let sql = "select 'ü'; select 2";
    // The semicolon stands behind 11 bytes.
    assert_eq!(statement_at(sql, 11), "select 'ü'");
    assert_eq!(statement_at(sql, 12), "select 2");
}

#[test]
fn oneline_keeps_a_text_of_the_limit() {
    let s = "y".repeat(120);
    assert_eq!(oneline(&s), s);
    let longer = "y".repeat(121);
    assert_eq!(oneline(&longer), format!("{s}…"));
}

#[test]
fn oneline_cuts_between_characters() {
    // A character of two bytes lies across the limit.
    let s = format!("{}ü and more", "y".repeat(119));
    assert_eq!(oneline(&s), format!("{}…", "y".repeat(119)));
    // One of four bytes, with three bytes left before the limit.
    let s = format!("{}😀😀", "y".repeat(117));
    assert_eq!(oneline(&s), format!("{}…", "y".repeat(117)));
    let s = format!("{}ü and more", "y".repeat(118));
    assert_eq!(oneline(&s), format!("{}ü…", "y".repeat(118)));
    assert_eq!(oneline(" \n a\t\tb\u{a0}c \r\n"), "a b c");
    assert_eq!(oneline(""), "");
}

#[test]
fn formatting_puts_keywords_in_upper_case() {
    let pretty = format_sql("select a, b from t where a = 1");
    assert_ne!(pretty, "select a, b from t where a = 1");
    assert!(pretty.contains("SELECT"));
    assert!(pretty.contains("FROM"));
    assert!(pretty.lines().count() > 1);
}
