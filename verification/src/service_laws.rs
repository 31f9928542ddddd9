//! What the services round the window are told and trusted with: the catalog, the language
//! server and the roots of a connection.

use vstd::prelude::*;
use crate::actor::{after_batch, apply_request, Command};
use crate::catalog::{
    queries_of, COLUMNS_SQL, CONSTRAINTS_SQL, FUNCTIONS_SQL, INDEXES_SQL, RELATIONS_SQL,
    SCHEMAS_SQL, SEQUENCES_SQL,
};
use crate::config::{ConnectionConfigView, SslMode};
use crate::describe::{is_single_source, ColumnSource};
use crate::edit::{first_fault, EditTarget, RowEdit, RowEditView};
use crate::error::DbError;
use crate::introspect::{ConstraintInfo, IntrospectKind, RelationInfo, RelationKind};
use crate::listing_laws::{law_usable_certificates_are_trusted, picked};
use crate::lsp::{
    alphanumeric, completion_body, did_change_body, did_open_body, header_line,
    is_completion_trigger, json_quoted, null_reply_body, sqls_config, ssl_word, tab_uri,
};
use crate::script_laws::is_blank;
use crate::server_laws::law_relation_letters;
use crate::statement_laws::{as_read, law_batch_reads_back, law_first_fault, read_batch};
use crate::text::{decimal, lemma_decimal_parses, parsed, signed_decimal, trim, trim_end};
use crate::tls::{anchor_of, roots_for, Anchor, RootFile};

verus! {

// ---- the catalog -----------------------------------------------------------------

/// A request is answered by the queries about what it asks for, each about the schema, or the
/// schema and the table, that it names.
pub proof fn law_catalog_is_asked_about_what_is_named(kind: IntrospectKind)
    ensures
        ({
            let q = queries_of(kind);
            match kind {
                IntrospectKind::Schemas => q.len() == 1 && q[0].0 == SCHEMAS_SQL@ && q[0].1.len()
                    == 0,
                IntrospectKind::Relations { schema } => q.len() == 1 && q[0].0 == RELATIONS_SQL@
                    && q[0].1 == seq![schema@],
                IntrospectKind::Columns { schema, table } => q.len() == 1 && q[0].0 == COLUMNS_SQL@
                    && q[0].1 == seq![schema@, table@],
                IntrospectKind::RelationDetail { schema, table } => q.len() == 3 && q[0].0
                    == COLUMNS_SQL@ && q[1].0 == INDEXES_SQL@ && q[2].0 == CONSTRAINTS_SQL@
                    && forall|i: int| 0 <= i < 3 ==> (#[trigger] q[i]).1 == seq![schema@, table@],
                IntrospectKind::SchemaObjects { schema } => q.len() == 2 && q[0].0 == SEQUENCES_SQL@
                    && q[1].0 == FUNCTIONS_SQL@ && forall|i: int|
                    0 <= i < 2 ==> (#[trigger] q[i]).1 == seq![schema@],
            }
        }),
{
}

/// Columns of two tables have no one source; columns of one table, with computed ones or
/// without, have that table.
pub proof fn law_one_source(cols: Seq<ColumnSource>, i: int, j: int, t: u32)
    requires
        0 <= i < cols.len(),
        0 <= j < cols.len(),
        cols[i].table_oid == Some(t),
    ensures
        (cols[j].table_oid is Some && cols[j].table_oid != Some(t)) ==> forall|u: u32|
            !is_single_source(cols, u),
        (forall|k: int|
            0 <= k < cols.len() ==> (#[trigger] cols[k]).table_oid is None || cols[k].table_oid
                == Some(t)) ==> is_single_source(cols, t) && forall|u: u32|
            u != t ==> !is_single_source(cols, u),
{
    assert forall|u: u32|
        cols[j].table_oid is Some && cols[j].table_oid != Some(t) implies !is_single_source(
        cols,
        u,
    ) by {
        assert(cols[i].table_oid is Some);
        assert(cols[j].table_oid is Some);
    }
}

// ---- the roots of a connection ---------------------------------------------------

/// A mode that does not verify trusts anything. One that does trusts the usable certificates
/// of the operating system, and where a file is named, its certificates behind them; a file
/// that cannot be read is an error, which names it.
pub proof fn law_verifying_modes_need_roots(
    mode: SslMode,
    native: Seq<Seq<u8>>,
    file: Option<RootFile>,
)
    ensures
        (mode == SslMode::Disable || mode == SslMode::Prefer || mode == SslMode::Require)
            ==> roots_for(mode, native, file) == Ok::<Option<Seq<Anchor>>, Seq<char>>(None),
        (mode == SslMode::VerifyCa || mode == SslMode::VerifyFull) ==> {
            let base = picked(
                native,
                |c: Seq<u8>| anchor_of(c) is Ok,
                |c: Seq<u8>| anchor_of(c)->Ok_0,
            );
            let r = roots_for(mode, native, file);
            &&& r is Ok ==> r->Ok_0 is Some
            &&& file is None ==> r == Ok::<Option<Seq<Anchor>>, Seq<char>>(Some(base))
            &&& (file is Some && file->0.contents is Err) ==> r == Err::<
                Option<Seq<Anchor>>,
                Seq<char>,
            >("reading "@ + file->0.path@ + ": "@ + file->0.contents->Err_0@)
            &&& (file is Some && file->0.contents is Ok) ==> (match crate::tls::with_file(
                base,
                crate::tls::pem_certs(file->0.contents->Ok_0@),
            ) {
                Ok(all) => r == Ok::<Option<Seq<Anchor>>, Seq<char>>(Some(all)),
                Err(e) => r == Err::<Option<Seq<Anchor>>, Seq<char>>(e),
            })
        },
{
    law_usable_certificates_are_trusted(native);
}

// ---- the language server ---------------------------------------------------------

/// Whether a message has a member with a value: the name, then the value, then the end of the
/// member.
pub open spec fn has_member(body: Seq<char>, name: Seq<char>, value: Seq<char>) -> bool {
    exists|a: Seq<char>, b: Seq<char>|
        body == #[trigger] (a + name + value + b) && b.len() > 0 && (b[0] == ',' || b[0] == '}')
}

proof fn lemma_member(
    head: Seq<char>,
    text: Seq<char>,
    name: Seq<char>,
    value: Seq<char>,
    tail: Seq<char>,
)
    requires
        name.is_suffix_of(text),
        tail.len() > 0,
        tail[0] == ',' || tail[0] == '}',
    ensures
        has_member(head + text + value + tail, name, value),
{
    let n = text.len() - name.len();
    let a = head + text.take(n);
    assert(text.take(n) + name =~= text);
    assert(a + name + value + tail =~= head + text + value + tail);
}

proof fn lemma_end_of_blank(line: Seq<char>)
    ensures
        trim_end(line).len() == 0 <==> forall|i: int|
            0 <= i < line.len() ==> is_blank(#[trigger] line[i]),
    decreases line.len(),
{
    if line.len() > 0 {
        let n = line.len() - 1;
        let front = line.drop_last();
        lemma_end_of_blank(front);
        if is_blank(line[n]) {
            if trim_end(line).len() == 0 {
                assert forall|i: int| 0 <= i < line.len() implies is_blank(#[trigger] line[i]) by {
                    if i < n {
                        assert(front[i] == line[i]);
                    }
                }
            } else {
                let i = choose|i: int| 0 <= i < front.len() && !is_blank(#[trigger] front[i]);
                assert(line[i] == front[i]);
            }
        }
    }
}

/// The header of a message ends at a blank line. A line that names the length of the body sets
/// it, to nothing where it is no number; any other line leaves it as it is.
pub proof fn law_header_lines_are_read(length: nat, line: Seq<char>)
    ensures
        header_line(length, line) is None <==> forall|i: int|
            0 <= i < line.len() ==> is_blank(#[trigger] line[i]),
        header_line(length, line) matches Some(n) ==> ({
            let t = trim_end(line);
            &&& !"Content-Length:"@.is_prefix_of(t) ==> n == length
            &&& "Content-Length:"@.is_prefix_of(t) ==> (match parsed(
                trim(t.skip("Content-Length:"@.len() as int)),
                usize::MAX as nat,
            ) {
                Some(m) => n == m,
                None => n == 0,
            })
        }),
{
    lemma_end_of_blank(line);
}

/// A number with its sign: a minus sign stands before it exactly where it is negative, and its
/// digits read back.
pub proof fn law_signs_are_kept(n: int)
    ensures
        n >= 0 ==> signed_decimal(n) == decimal(n as nat),
        n < 0 ==> signed_decimal(n) == seq!['-'] + decimal((-n) as nat),
        n >= 0 ==> parsed(signed_decimal(n), n as nat) == Some(n as nat),
{
    if n >= 0 {
        lemma_decimal_parses(n as nat);
        assert(crate::text::is_digit(decimal(n as nat)[0]));
    }
}

proof fn lemma_completion_texts()
    ensures
        "\"id\":"@.is_suffix_of("{\"id\":"@),
        "\"character\":"@.is_suffix_of(
            ",\"jsonrpc\":\"2.0\",\"method\":\"textDocument/completion\",\"params\":{\"position\":{\"character\":"@,
        ),
        "\"line\":"@.is_suffix_of(",\"line\":"@),
        "\"uri\":"@.is_suffix_of("},\"textDocument\":{\"uri\":"@),
        ",\"jsonrpc\":\"2.0\",\"method\":\"textDocument/completion\",\"params\":{\"position\":{\"character\":"@.len()
            > 0 && ",\"jsonrpc\":\"2.0\",\"method\":\"textDocument/completion\",\"params\":{\"position\":{\"character\":"@[0]
            == ',',
        ",\"line\":"@.len() > 0 && ",\"line\":"@[0] == ',',
        "},\"textDocument\":{\"uri\":"@.len() > 0 && "},\"textDocument\":{\"uri\":"@[0] == '}',
        "}}}"@.len() > 0 && "}}}"@[0] == '}',
{
    let t1 = "{\"id\":"@;
    let t2 =
        ",\"jsonrpc\":\"2.0\",\"method\":\"textDocument/completion\",\"params\":{\"position\":{\"character\":"@;
    let t3 = ",\"line\":"@;
    let t4 = "},\"textDocument\":{\"uri\":"@;
    reveal_strlit("{\"id\":");
    reveal_strlit(
        ",\"jsonrpc\":\"2.0\",\"method\":\"textDocument/completion\",\"params\":{\"position\":{\"character\":",
    );
    reveal_strlit(",\"line\":");
    reveal_strlit("},\"textDocument\":{\"uri\":");
    reveal_strlit("}}}");
    reveal_strlit("\"id\":");
    reveal_strlit("\"line\":");
    reveal_strlit("\"character\":");
    reveal_strlit("\"uri\":");
    assert("\"id\":"@ =~= t1.subrange(t1.len() - "\"id\":"@.len(), t1.len() as int));
    assert("\"character\":"@ =~= t2.subrange(t2.len() - "\"character\":"@.len(), t2.len() as int));
    assert("\"line\":"@ =~= t3.subrange(t3.len() - "\"line\":"@.len(), t3.len() as int));
    assert("\"uri\":"@ =~= t4.subrange(t4.len() - "\"uri\":"@.len(), t4.len() as int));
}

/// A request for completion names its identifier, the document, and the line and the character
/// of the cursor, each under its own name.
#[verifier::rlimit(40)]
pub proof fn law_completion_names_the_place(id: i64, uri: Seq<char>, line: u32, character: u32)
    ensures
        ({
            let body = completion_body(id, uri, line, character);
            &&& has_member(body, "\"id\":"@, signed_decimal(id as int))
            &&& has_member(body, "\"line\":"@, decimal(line as nat))
            &&& has_member(body, "\"character\":"@, decimal(character as nat))
            &&& has_member(body, "\"uri\":"@, json_quoted(uri))
        }),
{
    let t1 = "{\"id\":"@;
    let t2 =
        ",\"jsonrpc\":\"2.0\",\"method\":\"textDocument/completion\",\"params\":{\"position\":{\"character\":"@;
    let t3 = ",\"line\":"@;
    let t4 = "},\"textDocument\":{\"uri\":"@;
    let t5 = "}}}"@;
    let vid = signed_decimal(id as int);
    let vc = decimal(character as nat);
    let vl = decimal(line as nat);
    let vu = json_quoted(uri);
    lemma_completion_texts();
    let body = completion_body(id, uri, line, character);
    let none = Seq::<char>::empty();
    lemma_member(none, t1, "\"id\":"@, vid, t2 + vc + t3 + vl + t4 + vu + t5);
    assert(body =~= none + t1 + vid + (t2 + vc + t3 + vl + t4 + vu + t5));
    lemma_member(t1 + vid, t2, "\"character\":"@, vc, t3 + vl + t4 + vu + t5);
    assert(body =~= (t1 + vid) + t2 + vc + (t3 + vl + t4 + vu + t5));
    lemma_member(t1 + vid + t2 + vc, t3, "\"line\":"@, vl, t4 + vu + t5);
    assert(body =~= (t1 + vid + t2 + vc) + t3 + vl + (t4 + vu + t5));
    lemma_member(t1 + vid + t2 + vc + t3 + vl, t4, "\"uri\":"@, vu, t5);
    assert(body =~= (t1 + vid + t2 + vc + t3 + vl) + t4 + vu + t5);
}

/// What the server is told of a document, opened or changed, names the document and holds its
/// text, each under its own name, and a change its version.
#[verifier::rlimit(40)]
pub proof fn law_documents_are_told_whole(uri: Seq<char>, version: i64, text: Seq<char>)
    ensures
        has_member(did_open_body(uri, text), "\"uri\":"@, json_quoted(uri)),
        has_member(did_open_body(uri, text), "\"text\":"@, json_quoted(text)),
        has_member(did_change_body(uri, version, text), "\"uri\":"@, json_quoted(uri)),
        has_member(did_change_body(uri, version, text), "\"text\":"@, json_quoted(text)),
        has_member(
            did_change_body(uri, version, text),
            "\"version\":"@,
            signed_decimal(version as int),
        ),
{
    let a1 =
        "{\"jsonrpc\":\"2.0\",\"method\":\"textDocument/didOpen\",\"params\":{\"textDocument\":{\"languageId\":\"sql\",\"text\":"@;
    let a2 = ",\"uri\":"@;
    let a3 = ",\"version\":1}}}"@;
    let b1 =
        "{\"jsonrpc\":\"2.0\",\"method\":\"textDocument/didChange\",\"params\":{\"contentChanges\":[{\"text\":"@;
    let b2 = "}],\"textDocument\":{\"uri\":"@;
    let b3 = ",\"version\":"@;
    let b4 = "}}}"@;
    let vt = json_quoted(text);
    let vu = json_quoted(uri);
    let vv = signed_decimal(version as int);
    reveal_strlit(
        "{\"jsonrpc\":\"2.0\",\"method\":\"textDocument/didOpen\",\"params\":{\"textDocument\":{\"languageId\":\"sql\",\"text\":",
    );
    reveal_strlit(",\"uri\":");
    reveal_strlit(",\"version\":1}}}");
    reveal_strlit(
        "{\"jsonrpc\":\"2.0\",\"method\":\"textDocument/didChange\",\"params\":{\"contentChanges\":[{\"text\":",
    );
    reveal_strlit("}],\"textDocument\":{\"uri\":");
    reveal_strlit(",\"version\":");
    reveal_strlit("}}}");
    reveal_strlit("\"uri\":");
    reveal_strlit("\"text\":");
    reveal_strlit("\"version\":");
    let none = Seq::<char>::empty();
    assert("\"text\":"@ =~= a1.subrange(a1.len() - "\"text\":"@.len(), a1.len() as int));
    assert("\"uri\":"@ =~= a2.subrange(a2.len() - "\"uri\":"@.len(), a2.len() as int));
    assert("\"text\":"@ =~= b1.subrange(b1.len() - "\"text\":"@.len(), b1.len() as int));
    assert("\"uri\":"@ =~= b2.subrange(b2.len() - "\"uri\":"@.len(), b2.len() as int));
    assert("\"version\":"@ =~= b3.subrange(b3.len() - "\"version\":"@.len(), b3.len() as int));
    let opened = did_open_body(uri, text);
    lemma_member(none, a1, "\"text\":"@, vt, a2 + vu + a3);
    assert(opened =~= none + a1 + vt + (a2 + vu + a3));
    lemma_member(a1 + vt, a2, "\"uri\":"@, vu, a3);
    assert(opened =~= (a1 + vt) + a2 + vu + a3);
    let changed = did_change_body(uri, version, text);
    lemma_member(none, b1, "\"text\":"@, vt, b2 + vu + b3 + vv + b4);
    assert(changed =~= none + b1 + vt + (b2 + vu + b3 + vv + b4));
    lemma_member(b1 + vt, b2, "\"uri\":"@, vu, b3 + vv + b4);
    assert(changed =~= (b1 + vt) + b2 + vu + (b3 + vv + b4));
    lemma_member(b1 + vt + b2 + vu, b3, "\"version\":"@, vv, b4);
    assert(changed =~= (b1 + vt + b2 + vu) + b3 + vv + b4);
}

/// An answer bears the identifier of what it answers.
pub proof fn law_answers_bear_the_identifier(id: i64)
    ensures
        has_member(null_reply_body(id), "\"id\":"@, signed_decimal(id as int)),
{
    let t1 = "{\"id\":"@;
    let t2 = ",\"jsonrpc\":\"2.0\",\"result\":null}"@;
    reveal_strlit("{\"id\":");
    reveal_strlit(",\"jsonrpc\":\"2.0\",\"result\":null}");
    reveal_strlit("\"id\":");
    assert("\"id\":"@ =~= t1.subrange(t1.len() - "\"id\":"@.len(), t1.len() as int));
    lemma_member(Seq::empty(), t1, "\"id\":"@, signed_decimal(id as int), t2);
    assert(null_reply_body(id) =~= Seq::<char>::empty() + t1 + signed_decimal(id as int) + t2);
}

/// Documents of different tabs have different names.
pub proof fn law_documents_have_names_of_their_own(a: u64, b: u64)
    requires
        tab_uri(a) == tab_uri(b),
    ensures
        a == b,
{
    let head = "file:///zdb/tab-"@;
    let tail = ".sql"@;
    let x = decimal(a as nat);
    let y = decimal(b as nat);
    assert(tab_uri(a).len() == head.len() + x.len() + tail.len());
    assert(tab_uri(b).len() == head.len() + y.len() + tail.len());
    assert(x =~= tab_uri(a).subrange(head.len() as int, (head.len() + x.len()) as int));
    assert(y =~= tab_uri(b).subrange(head.len() as int, (head.len() + y.len()) as int));
    lemma_decimal_parses(a as nat);
    lemma_decimal_parses(b as nat);
}

/// Whether a line of a text has a name and a value.
pub open spec fn has_line(text: Seq<char>, name: Seq<char>, value: Seq<char>) -> bool {
    exists|a: Seq<char>, b: Seq<char>|
        text == #[trigger] (a + name + value + b) && b.len() > 0 && b[0] == '\n'
}

proof fn lemma_line(
    head: Seq<char>,
    text: Seq<char>,
    name: Seq<char>,
    value: Seq<char>,
    tail: Seq<char>,
)
    requires
        name.is_suffix_of(text),
        tail.len() > 0,
        tail[0] == '\n',
    ensures
        has_line(head + text + value + tail, name, value),
{
    let n = text.len() - name.len();
    let a = head + text.take(n);
    assert(text.take(n) + name =~= text);
    assert(a + name + value + tail =~= head + text + value + tail);
}

proof fn lemma_config_texts()
    ensures
        "    user: "@.is_suffix_of(
            "connections:\n  - alias: zdb\n    driver: postgresql\n    proto: tcp\n    user: "@,
        ),
        "    host: "@.is_suffix_of("\n    host: "@),
        "    port: "@.is_suffix_of("\n    port: "@),
        "    dbName: "@.is_suffix_of("\n    dbName: "@),
        "      sslmode: "@.is_suffix_of("\n    params:\n      sslmode: "@),
        "\n    host: "@.len() > 0 && "\n    host: "@[0] == '\n',
        "\n    port: "@.len() > 0 && "\n    port: "@[0] == '\n',
        "\n    dbName: "@.len() > 0 && "\n    dbName: "@[0] == '\n',
        "\n    params:\n      sslmode: "@.len() > 0 && "\n    params:\n      sslmode: "@[0] == '\n',
        "\n"@.len() > 0 && "\n"@[0] == '\n',
{
    let t1 =
        "connections:\n  - alias: zdb\n    driver: postgresql\n    proto: tcp\n    user: "@;
    let t2 = "\n    host: "@;
    let t3 = "\n    port: "@;
    let t4 = "\n    dbName: "@;
    let t5 = "\n    params:\n      sslmode: "@;
    reveal_strlit(
        "connections:\n  - alias: zdb\n    driver: postgresql\n    proto: tcp\n    user: ",
    );
    reveal_strlit("\n    host: ");
    reveal_strlit("\n    port: ");
    reveal_strlit("\n    dbName: ");
    reveal_strlit("\n    params:\n      sslmode: ");
    reveal_strlit("\n");
    reveal_strlit("    user: ");
    reveal_strlit("    host: ");
    reveal_strlit("    port: ");
    reveal_strlit("    dbName: ");
    reveal_strlit("      sslmode: ");
    assert("    user: "@ =~= t1.subrange(t1.len() - "    user: "@.len(), t1.len() as int));
    assert("    host: "@ =~= t2.subrange(t2.len() - "    host: "@.len(), t2.len() as int));
    assert("    port: "@ =~= t3.subrange(t3.len() - "    port: "@.len(), t3.len() as int));
    assert("    dbName: "@ =~= t4.subrange(t4.len() - "    dbName: "@.len(), t4.len() as int));
    assert("      sslmode: "@ =~= t5.subrange(
        t5.len() - "      sslmode: "@.len(),
        t5.len() as int,
    ));
}

/// The configuration of the language server names the user, the host, the port, the database
/// and the mode of the connection, each on a line of its own.
#[verifier::rlimit(40)]
pub proof fn law_server_connects_as_the_window_does(cfg: ConnectionConfigView)
    ensures
        has_line(sqls_config(cfg), "    user: "@, json_quoted(cfg.user)),
        has_line(sqls_config(cfg), "    host: "@, json_quoted(cfg.host)),
        has_line(sqls_config(cfg), "    port: "@, decimal(cfg.port as nat)),
        has_line(sqls_config(cfg), "    dbName: "@, json_quoted(cfg.dbname)),
        has_line(sqls_config(cfg), "      sslmode: "@, ssl_word(cfg.ssl_mode)),
{
    let t1 =
        "connections:\n  - alias: zdb\n    driver: postgresql\n    proto: tcp\n    user: "@;
    let t2 = "\n    host: "@;
    let t3 = "\n    port: "@;
    let t4 = "\n    dbName: "@;
    let t5 = "\n    params:\n      sslmode: "@;
    let t6 = "\n"@;
    let vu = json_quoted(cfg.user);
    let vh = json_quoted(cfg.host);
    let vp = decimal(cfg.port as nat);
    let vd = json_quoted(cfg.dbname);
    let vs = ssl_word(cfg.ssl_mode);
    lemma_config_texts();
    let text = sqls_config(cfg);
    let none = Seq::<char>::empty();
    lemma_line(none, t1, "    user: "@, vu, t2 + vh + t3 + vp + t4 + vd + t5 + vs + t6);
    assert(text =~= none + t1 + vu + (t2 + vh + t3 + vp + t4 + vd + t5 + vs + t6));
    lemma_line(t1 + vu, t2, "    host: "@, vh, t3 + vp + t4 + vd + t5 + vs + t6);
    assert(text =~= (t1 + vu) + t2 + vh + (t3 + vp + t4 + vd + t5 + vs + t6));
    lemma_line(t1 + vu + t2 + vh, t3, "    port: "@, vp, t4 + vd + t5 + vs + t6);
    assert(text =~= (t1 + vu + t2 + vh) + t3 + vp + (t4 + vd + t5 + vs + t6));
    lemma_line(t1 + vu + t2 + vh + t3 + vp, t4, "    dbName: "@, vd, t5 + vs + t6);
    assert(text =~= (t1 + vu + t2 + vh + t3 + vp) + t4 + vd + (t5 + vs + t6));
    lemma_line(t1 + vu + t2 + vh + t3 + vp + t4 + vd, t5, "      sslmode: "@, vs, t6);
    assert(text =~= (t1 + vu + t2 + vh + t3 + vp + t4 + vd) + t5 + vs + t6);
}

/// Typed text asks for completion where it ends in a letter, a number, an underscore or a dot.
pub proof fn law_words_ask_for_completion(text: &str, asks: bool)
    requires
        call_ensures(is_completion_trigger, (text,), asks),
    ensures
        text@.len() == 0 ==> !asks,
        text@.len() > 0 ==> ({
            let c = text@[text@.len() - 1];
            asks <==> alphanumeric(c) || c == '_' || c == '.'
        }),
{
}

// ---- requests and answers --------------------------------------------------------

/// A batch that failed is rolled back, one that succeeded is left.
pub proof fn law_failed_batches_are_rolled_back(ok: bool, next: Option<&'static str>)
    requires
        call_ensures(after_batch, (ok,), next),
    ensures
        ok ==> next is None,
        !ok ==> next is Some && next->0@ == "ROLLBACK"@,
{
}

/// The request that applies edits reads back as those edits, all of them and in order, on
/// their table and over their connection. No edits make no request, and one without a statement
/// makes none either.
pub proof fn law_edits_are_requested_whole(
    conn: u64,
    target: &EditTarget,
    edits: &[RowEdit],
    request: Result<Option<Command>, DbError>,
)
    requires
        call_ensures(apply_request, (conn, target, edits), request),
    ensures
        edits@.len() == 0 ==> request == Ok::<Option<Command>, DbError>(None),
        (edits@.len() > 0 && forall|i: int|
            0 <= i < edits.deep_view().len() ==> (#[trigger] edits.deep_view()[i]).sql(
                target.deep_view(),
            ) is Ok) ==> (request matches Ok(Some(Command::Apply { conn: on, batch })) && on == conn
            && read_batch(batch@) == Some(
            edits.deep_view().map_values(|e: RowEditView| as_read(target.deep_view(), e)),
        )),
        (exists|i: int|
            0 <= i < edits.deep_view().len() && (#[trigger] edits.deep_view()[i]).sql(
                target.deep_view(),
            ) is Err) ==> request is Err,
{
    let t = target.deep_view();
    let all = edits.deep_view();
    law_first_fault(t, all);
    if first_fault(t, all) is None {
        law_batch_reads_back(t, all);
    }
}

/// A constraint of the catalog has the kind that its first letter says.
pub proof fn law_constraints_are_taken_as_they_are(
    name: String,
    contype: &str,
    definition: String,
    made: ConstraintInfo,
)
    requires
        call_ensures(ConstraintInfo::from_row, (name, contype, definition), made),
    ensures
        made.deep_view().name == name@,
        made.deep_view().definition == definition@,
        contype@.len() > 0 ==> made.deep_view().kind == contype@[0],
        contype@.len() == 0 ==> made.deep_view().kind == '?',
{
}

/// A relation of the catalog belongs to the schema that was asked about, under its own name.
pub proof fn law_relations_are_taken_as_they_are(
    schema: &str,
    oid: u32,
    name: String,
    relkind: &str,
    made: RelationInfo,
)
    requires
        call_ensures(RelationInfo::from_row, (schema, oid, name, relkind), made),
    ensures
        made.deep_view().oid == oid,
        made.deep_view().schema == schema@,
        made.deep_view().name == name@,
        made.deep_view().kind == RelationKind::Table <==> relkind@ == seq!['r'] || relkind@
            == seq!['p'],
        made.deep_view().kind == RelationKind::View <==> relkind@ == seq!['v'],
        made.deep_view().kind == RelationKind::MaterializedView <==> relkind@ == seq!['m'],
        made.deep_view().kind == RelationKind::ForeignTable <==> relkind@ == seq!['f'],
{
    law_relation_letters(relkind@);
}

} // verus!
