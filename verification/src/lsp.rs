//! The client side of the language server protocol, as far as SQL completion needs it:
//! the messages that are sent, how they are framed, and what is done with those that
//! come back.

use std::collections::HashMap;
use vstd::prelude::*;
use vstd::utf8::encode_utf8;
use crate::config::{ConnectionConfig, ConnectionConfigView, SslMode};
use crate::settings::mode_of;
use crate::text::{
    chars_of, concat_all, decimal, decimal_text, digit, is_white, lemma_decimal_parses,
    parse_number, parsed, signed_decimal, signed_decimal_text, stands, text_of, trim, trim_end,
    trim_start, trimmed, white,
};

verus! {

// ---- JSON text -------------------------------------------------------------------

/// A character as `serde_json` writes it inside a string.
pub open spec fn escaped(c: char) -> Seq<char> {
    if c == '"' || c == '\\' {
        seq!['\\', c]
    } else if c == '\u{8}' {
        seq!['\\', 'b']
    } else if c == '\t' {
        seq!['\\', 't']
    } else if c == '\n' {
        seq!['\\', 'n']
    } else if c == '\u{c}' {
        seq!['\\', 'f']
    } else if c == '\r' {
        seq!['\\', 'r']
    } else if c <= '\u{1f}' {
        seq!['\\', 'u', '0', '0', digit(c as nat / 16), digit(c as nat % 16)]
    } else {
        seq![c]
    }
}

/// A text as a JSON string.
pub open spec fn json_quoted(s: Seq<char>) -> Seq<char> {
    seq!['"'] + concat_all(s.map_values(|c: char| escaped(c))) + seq!['"']
}

/// `serde_json::to_string` on a string slice: always a JSON string, in which quotes,
/// backslashes and the characters below U+0020 are escaped, those with a letter of their
/// own by that letter and the others by two hexadecimal digits in lower case.
#[verifier::external_body]
fn serde_quote(s: &str) -> (r: Option<String>)
    ensures
        r is Some,
        r->0@ == json_quoted(s@),
{
    serde_json::to_string(s).ok()
}

/// A text as a JSON string, which is a YAML scalar too.
pub fn json_quote(s: &str) -> (r: String)
    ensures
        r@ == json_quoted(s@),
{
    match serde_quote(s) {
        Some(q) => q,
        None => "\"\"".to_owned(),
    }
}

// ---- framing ---------------------------------------------------------------------

/// The header line for a body of `n` bytes.
pub open spec fn header(n: nat) -> Seq<char> {
    "Content-Length: "@ + decimal(n) + "\r\n"@
}

/// A message as it goes over the wire: the length of its body in bytes, a blank line, the
/// body.
pub open spec fn framed(body: Seq<char>) -> Seq<char> {
    header(encode_utf8(body).len()) + "\r\n"@ + body
}

/// Frames a message.
pub fn frame(body: &str) -> (r: String)
    ensures
        r@ == framed(body@),
{
    let n: usize = body.as_bytes().len();
    "Content-Length: ".to_owned().concat(decimal_text(n as u64).as_str()).concat("\r\n").concat(
        "\r\n",
    ).concat(body)
}

/// What one line of a header block does to the length that is known so far: `None` ends
/// the block, any other line keeps the length or names a new one. A length that is no
/// number counts as 0.
pub open spec fn header_line(length: nat, line: Seq<char>) -> Option<nat> {
    let t = trim_end(line);
    let key = "Content-Length:"@;
    if t.len() == 0 {
        None
    } else if key.is_prefix_of(t) {
        Some(
            match parsed(trim(t.skip(key.len() as int)), usize::MAX as nat) {
                Some(n) => n,
                None => 0,
            },
        )
    } else {
        Some(length)
    }
}

/// Takes one line of a header block; `length` is the length that is known so far.
pub fn read_header_line(length: usize, line: &str) -> (r: Option<usize>)
    ensures
        (match r {
            Some(n) => header_line(length as nat, line@) == Some(n as nat),
            None => header_line(length as nat, line@) is None,
        }),
{
    let v = chars_of(line);
    let mut e: usize = v.len();
    proof {
        assert(v@.take(v@.len() as int) =~= v@);
    }
    while e > 0 && white(v[e - 1])
        invariant
            e <= v@.len(),
            trim_end(v@.take(e as int)) == trim_end(v@),
        decreases e,
    {
        proof {
            assert(v@.take(e as int).drop_last() =~= v@.take(e - 1));
        }
        e -= 1;
    }
    let ghost t = trim_end(line@);
    proof {
        assert(t == v@.take(e as int));
    }
    if e == 0 {
        return None;
    }
    let key = chars_of("Content-Length:");
    if e >= key.len() && stands(&v, &key, 0) {
        proof {
            assert(v@.subrange(0, key@.len() as int) =~= t.take(key@.len() as int));
            assert("Content-Length:"@.is_prefix_of(t));
        }
        let rest = text_of(&v, key.len(), e);
        proof {
            assert(rest@ =~= t.skip(key@.len() as int));
        }
        let word = trimmed(rest.as_str());
        match parse_number(word.as_str(), usize::MAX as u64) {
            Some(n) => Some(n as usize),
            None => Some(0),
        }
    } else {
        proof {
            if key@.is_prefix_of(t) {
                assert(t.take(key@.len() as int) =~= v@.subrange(0, key@.len() as int));
            }
        }
        Some(length)
    }
}

/// What is framed is read back: the header line names the length of the body, the next
/// line ends the block, and what follows is the body.
pub proof fn law_frame_reads_back(body: Seq<char>)
    requires
        encode_utf8(body).len() <= usize::MAX,
    ensures
        framed(body) == header(encode_utf8(body).len()) + "\r\n"@ + body,
        header_line(0, header(encode_utf8(body).len())) == Some(encode_utf8(body).len()),
        header_line(encode_utf8(body).len(), "\r\n"@) is None,
{
    reveal_strlit("\r\n");
    reveal_strlit("Content-Length: ");
    reveal_strlit("Content-Length:");
    reveal_with_fuel(trim_end, 3);
    reveal_with_fuel(trim_start, 3);
    let n = encode_utf8(body).len();
    let d = decimal(n);
    let line = header(n);
    lemma_decimal_parses(n);
    let t = "Content-Length: "@ + d;
    assert(line.drop_last().drop_last() =~= t);
    assert(line.last() == '\n');
    assert(line.drop_last().last() == '\r');
    assert(t.last() == d.last());
    assert(crate::text::is_digit(d[d.len() - 1]));
    assert(!is_white(d.last()));
    assert(trim_end(line) == t);
    let key = "Content-Length:"@;
    assert(t.take(key.len() as int) =~= key);
    let rest = t.skip(key.len() as int);
    assert(rest =~= seq![' '] + d);
    assert(rest.drop_first() =~= d);
    assert(crate::text::is_digit(d[0]));
    assert(!is_white(d[0]));
    assert(trim_start(rest) == d);
    assert(trim(rest) == d);
    assert(d[0] != '+');
    let blank = "\r\n"@;
    assert(blank.drop_last().drop_last() =~= Seq::<char>::empty());
    assert(blank.drop_last().last() == '\r');
    assert(trim_end(blank).len() == 0);
}

// ---- messages --------------------------------------------------------------------

/// The first request: the client introduces itself.
pub open spec fn initialize_body(id: i64, pid: u32) -> Seq<char> {
    "{\"id\":"@ + signed_decimal(id as int)
        + ",\"jsonrpc\":\"2.0\",\"method\":\"initialize\",\"params\":{\"capabilities\":{\"textDocument\":{\"completion\":{}}},\"processId\":"@
        + decimal(pid as nat) + ",\"rootUri\":null}}"@
}

/// The notification that follows it.
pub open spec fn initialized_body() -> Seq<char> {
    "{\"jsonrpc\":\"2.0\",\"method\":\"initialized\",\"params\":{}}"@
}

/// The notification that a document was opened.
pub open spec fn did_open_body(uri: Seq<char>, text: Seq<char>) -> Seq<char> {
    "{\"jsonrpc\":\"2.0\",\"method\":\"textDocument/didOpen\",\"params\":{\"textDocument\":{\"languageId\":\"sql\",\"text\":"@
        + json_quoted(text) + ",\"uri\":"@ + json_quoted(uri) + ",\"version\":1}}}"@
}

/// The notification that a document has a new text.
pub open spec fn did_change_body(uri: Seq<char>, version: i64, text: Seq<char>) -> Seq<char> {
    "{\"jsonrpc\":\"2.0\",\"method\":\"textDocument/didChange\",\"params\":{\"contentChanges\":[{\"text\":"@
        + json_quoted(text) + "}],\"textDocument\":{\"uri\":"@ + json_quoted(uri)
        + ",\"version\":"@ + signed_decimal(version as int) + "}}}"@
}

/// The request for completion at a position.
pub open spec fn completion_body(id: i64, uri: Seq<char>, line: u32, character: u32) -> Seq<char> {
    "{\"id\":"@ + signed_decimal(id as int)
        + ",\"jsonrpc\":\"2.0\",\"method\":\"textDocument/completion\",\"params\":{\"position\":{\"character\":"@
        + decimal(character as nat) + ",\"line\":"@ + decimal(line as nat)
        + "},\"textDocument\":{\"uri\":"@ + json_quoted(uri) + "}}}"@
}

/// The empty answer to a request of the server.
pub open spec fn null_reply_body(id: i64) -> Seq<char> {
    "{\"id\":"@ + signed_decimal(id as int) + ",\"jsonrpc\":\"2.0\",\"result\":null}"@
}

/// The parts of a message that came in.
pub struct Incoming {
    /// The identifier, if it has one that is an integer.
    pub id: Option<i64>,
    /// Whether it names a method: then it is a request or a notification.
    pub has_method: bool,
    /// Its result as JSON text, if it has one.
    pub result: Option<String>,
}

/// `serde_json::Value`, a piece of JSON.
#[verifier::external_type_specification]
#[verifier::external_body]
pub struct ExJsonValue(serde_json::Value);

/// The JSON that some bytes hold; nothing where they hold none.
pub uninterp spec fn json_value(body: Seq<u8>) -> Option<serde_json::Value>;

/// `serde_json::from_slice` into a `serde_json::Value`: what it makes of the bytes depends on
/// them alone.
#[verifier::external_body]
fn parse_json(body: &[u8]) -> (r: Option<serde_json::Value>)
    ensures
        r == json_value(body@),
{
    serde_json::from_slice::<serde_json::Value>(body).ok()
}

/// The member of an object with a name, where it is an integer of 64 bits.
pub uninterp spec fn int_member_of(value: serde_json::Value, key: Seq<char>) -> Option<i64>;

/// `serde_json::Value::get` with a name, and `serde_json::Value::as_i64` on what it finds:
/// which integer comes out depends on the value and the name alone.
#[verifier::external_body]
fn int_member(value: &serde_json::Value, key: &str) -> (r: Option<i64>)
    ensures
        r == int_member_of(*value, key@),
{
    value.get(key).and_then(serde_json::Value::as_i64)
}

/// The member of an object with a name as JSON text; nothing where there is none.
pub uninterp spec fn member_text_of(value: serde_json::Value, key: Seq<char>) -> Option<Seq<char>>;

/// `serde_json::Value::get` with a name, and `serde_json::Value::to_string` on what it finds:
/// whether there is such a member, and its text, depends on the value and the name alone.
#[verifier::external_body]
fn member_text(value: &serde_json::Value, key: &str) -> (r: Option<String>)
    ensures
        r.deep_view() == member_text_of(*value, key@),
{
    value.get(key).map(serde_json::Value::to_string)
}

/// The parts of a message, if its body is JSON: `id` as an integer, whether there is a
/// `method`, and the text of `result`.
pub fn parse_message(body: &[u8]) -> (r: Option<Incoming>)
    ensures
        (match json_value(body@) {
            Some(v) => r matches Some(m) && m.id == int_member_of(v, "id"@) && m.has_method == (
            member_text_of(v, "method"@) is Some) && m.result.deep_view() == member_text_of(
                v,
                "result"@,
            ),
            None => r is None,
        }),
{
    match parse_json(body) {
        Some(v) => Some(
            Incoming {
                id: int_member(&v, "id"),
                has_method: member_text(&v, "method").is_some(),
                result: member_text(&v, "result"),
            },
        ),
        None => None,
    }
}

/// What to do about a message that came in.
pub enum Reaction<W> {
    /// Hand the result, as JSON text, to whoever waits for it.
    Deliver { waiter: W, result: String },
    /// Send this body.
    Reply(String),
    /// Nothing.
    Ignore,
}

/// A conversation with the server. `W` is what waits for the answer to a request.
pub struct Session<W> {
    next_id: i64,
    version: i64,
    pending: HashMap<i64, W>,
}

impl<W> Session<W> {
    /// The identifier of the next request.
    pub closed spec fn next(&self) -> i64 {
        self.next_id
    }

    /// The version of the last document change.
    pub closed spec fn changes(&self) -> i64 {
        self.version
    }

    /// Who waits, by the identifier of the request.
    pub closed spec fn waiting(&self) -> Map<i64, W> {
        self.pending@
    }

    /// A conversation in which nothing was said.
    pub fn new() -> (r: Self)
        ensures
            r.next() == 1,
            r.changes() == 1,
            r.waiting() == Map::<i64, W>::empty(),
    {
        broadcast use vstd::std_specs::hash::group_hash_axioms;

        Session { next_id: 1, version: 1, pending: HashMap::new() }
    }

    fn take_id(&mut self) -> (r: i64)
        ensures
            r == old(self).next(),
            final(self).next() == old(self).next().wrapping_add(1),
            final(self).changes() == old(self).changes(),
            final(self).waiting() == old(self).waiting(),
    {
        let id = self.next_id;
        self.next_id = id.wrapping_add(1);
        id
    }

    /// The handshake: the bodies to send first, in order.
    pub fn initialize(&mut self, pid: u32) -> (r: (String, String))
        ensures
            r.0@ == initialize_body(old(self).next(), pid),
            r.1@ == initialized_body(),
            final(self).next() == old(self).next().wrapping_add(1),
            final(self).changes() == old(self).changes(),
            final(self).waiting() == old(self).waiting(),
    {
        let id = self.take_id();
        let first = "{\"id\":".to_owned().concat(signed_decimal_text(id).as_str()).concat(
            ",\"jsonrpc\":\"2.0\",\"method\":\"initialize\",\"params\":{\"capabilities\":{\"textDocument\":{\"completion\":{}}},\"processId\":",
        ).concat(decimal_text(pid as u64).as_str()).concat(",\"rootUri\":null}}");
        (first, "{\"jsonrpc\":\"2.0\",\"method\":\"initialized\",\"params\":{}}".to_owned())
    }

    /// The body that tells of an opened document.
    pub fn did_open(&self, uri: &str, text: &str) -> (r: String)
        ensures
            r@ == did_open_body(uri@, text@),
    {
        "{\"jsonrpc\":\"2.0\",\"method\":\"textDocument/didOpen\",\"params\":{\"textDocument\":{\"languageId\":\"sql\",\"text\":".to_owned().concat(
        json_quote(text).as_str()).concat(",\"uri\":").concat(json_quote(uri).as_str()).concat(
            ",\"version\":1}}}",
        )
    }

    /// Whether there is a version left for another change.
    pub fn can_change(&self) -> (r: bool)
        ensures
            r == (self.changes() < i64::MAX),
    {
        self.version < i64::MAX
    }

    /// The body that tells of a new text; each one has a higher version.
    pub fn did_change(&mut self, uri: &str, text: &str) -> (r: String)
        requires
            old(self).changes() < i64::MAX,
        ensures
            r@ == did_change_body(uri@, (old(self).changes() + 1) as i64, text@),
            final(self).changes() == old(self).changes() + 1,
            final(self).next() == old(self).next(),
            final(self).waiting() == old(self).waiting(),
    {
        self.version = self.version + 1;
        "{\"jsonrpc\":\"2.0\",\"method\":\"textDocument/didChange\",\"params\":{\"contentChanges\":[{\"text\":".to_owned().concat(
        json_quote(text).as_str()).concat("}],\"textDocument\":{\"uri\":").concat(
            json_quote(uri).as_str(),
        ).concat(",\"version\":").concat(signed_decimal_text(self.version).as_str()).concat("}}}")
    }

    /// The body that asks for completion at a line and a character (UTF-16). The answer goes
    /// to `waiter`.
    pub fn completion(&mut self, uri: &str, line: u32, character: u32, waiter: W) -> (r: String)
        ensures
            r@ == completion_body(old(self).next(), uri@, line, character),
            final(self).next() == old(self).next().wrapping_add(1),
            final(self).changes() == old(self).changes(),
            final(self).waiting() == old(self).waiting().insert(old(self).next(), waiter),
    {
        broadcast use vstd::std_specs::hash::group_hash_axioms;

        let id = self.take_id();
        self.pending.insert(id, waiter);
        "{\"id\":".to_owned().concat(signed_decimal_text(id).as_str()).concat(
            ",\"jsonrpc\":\"2.0\",\"method\":\"textDocument/completion\",\"params\":{\"position\":{\"character\":",
        ).concat(decimal_text(character as u64).as_str()).concat(",\"line\":").concat(
            decimal_text(line as u64).as_str(),
        ).concat("},\"textDocument\":{\"uri\":").concat(json_quote(uri).as_str()).concat("}}}")
    }

    /// Takes in a message. An answer goes to whoever waits for it, once; a request of the
    /// server is answered with null, so that it does not wait; anything else is ignored.
    pub fn receive(&mut self, msg: Incoming) -> (r: Reaction<W>)
        ensures
            final(self).next() == old(self).next(),
            final(self).changes() == old(self).changes(),
            (match (msg.id, msg.has_method) {
                (Some(id), false) => {
                    &&& final(self).waiting() == old(self).waiting().remove(id)
                    &&& if old(self).waiting().dom().contains(id) {
                        r matches Reaction::Deliver { waiter, result } && waiter == old(
                            self,
                        ).waiting()[id] && result@ == (match msg.result {
                            Some(t) => t@,
                            None => "null"@,
                        })
                    } else {
                        r is Ignore
                    }
                },
                (Some(id), true) => {
                    &&& final(self).waiting() == old(self).waiting()
                    &&& r matches Reaction::Reply(body) && body@ == null_reply_body(id)
                },
                _ => r is Ignore && final(self).waiting() == old(self).waiting(),
            }),
    {
        broadcast use vstd::std_specs::hash::group_hash_axioms;

        match (msg.id, msg.has_method) {
            (Some(id), false) => {
                let found = self.pending.remove(&id);
                proof {
                    if found is None {
                        assert(self.waiting() =~= old(self).waiting().remove(id));
                    }
                }
                match found {
                    Some(waiter) => Reaction::Deliver {
                        waiter,
                        result: match msg.result {
                            Some(t) => t,
                            None => "null".to_owned(),
                        },
                    },
                    None => Reaction::Ignore,
                }
            },
            (Some(id), true) => {
                Reaction::Reply(
                    "{\"id\":".to_owned().concat(signed_decimal_text(id).as_str()).concat(
                        ",\"jsonrpc\":\"2.0\",\"result\":null}",
                    ),
                )
            },
            _ => Reaction::Ignore,
        }
    }
}

// ---- the server's configuration --------------------------------------------------

/// The word for a TLS mode.
pub open spec fn ssl_word(mode: SslMode) -> Seq<char> {
    match mode {
        SslMode::Disable => "disable"@,
        SslMode::Prefer => "prefer"@,
        SslMode::Require => "require"@,
        SslMode::VerifyCa => "verify-ca"@,
        SslMode::VerifyFull => "verify-full"@,
    }
}

/// The word for a TLS mode.
pub fn ssl_str(mode: SslMode) -> (r: &'static str)
    ensures
        r@ == ssl_word(mode),
{
    match mode {
        SslMode::Disable => "disable",
        SslMode::Prefer => "prefer",
        SslMode::Require => "require",
        SslMode::VerifyCa => "verify-ca",
        SslMode::VerifyFull => "verify-full",
    }
}

/// The word for a TLS mode is read back as that mode.
pub proof fn law_ssl_word_reads_back(mode: SslMode)
    ensures
        mode_of(ssl_word(mode)) == mode,
{
    reveal_strlit("disable");
    reveal_strlit("prefer");
    reveal_strlit("require");
    reveal_strlit("verify-ca");
    reveal_strlit("verify-full");
    let w = ssl_word(mode);
    assert(!is_white(w[0]));
    assert(!is_white(w.last()));
    assert(trim(w) == w);
    assert("disable"@[0] != "require"@[0]);
    assert("disable"@[0] != "verify-ca"@[0]);
    assert("disable"@[0] != "verify-full"@[0]);
    assert("disable"@[0] != "prefer"@[0]);
    assert("require"@[0] != "prefer"@[0]);
    assert("require"@[0] != "verify-ca"@[0]);
    assert("require"@[0] != "verify-full"@[0]);
    assert("verify-ca"@.len() != "verify-full"@.len());
    assert("verify-ca"@[0] != "prefer"@[0]);
    assert("verify-full"@[0] != "prefer"@[0]);
}

/// The configuration file of the server for a connection. It holds no password.
pub open spec fn sqls_config(cfg: ConnectionConfigView) -> Seq<char> {
    "connections:\n  - alias: zdb\n    driver: postgresql\n    proto: tcp\n    user: "@
        + json_quoted(cfg.user) + "\n    host: "@ + json_quoted(cfg.host) + "\n    port: "@
        + decimal(cfg.port as nat) + "\n    dbName: "@ + json_quoted(cfg.dbname)
        + "\n    params:\n      sslmode: "@ + ssl_word(cfg.ssl_mode) + "\n"@
}

/// The configuration file of the server for a connection, without its password. Values
/// are JSON strings, so that none of them reaches beyond its line.
pub fn config_text(cfg: &ConnectionConfig) -> (r: String)
    ensures
        r@ == sqls_config(cfg.deep_view()),
{
    "connections:\n  - alias: zdb\n    driver: postgresql\n    proto: tcp\n    user: ".to_owned().concat(
    json_quote(cfg.user.as_str()).as_str()).concat("\n    host: ").concat(
        json_quote(cfg.host.as_str()).as_str(),
    ).concat("\n    port: ").concat(decimal_text(cfg.port as u64).as_str()).concat(
        "\n    dbName: ",
    ).concat(json_quote(cfg.dbname.as_str()).as_str()).concat(
        "\n    params:\n      sslmode: ",
    ).concat(ssl_str(cfg.ssl_mode)).concat("\n")
}

/// The password of a connection, its name and the path of its root certificate leave no
/// trace in the configuration file of the server.
pub proof fn law_config_holds_no_password(
    cfg: ConnectionConfigView,
    password: Option<Seq<char>>,
    name: Seq<char>,
    root_cert: Option<std::path::PathBuf>,
)
    ensures
        sqls_config(ConnectionConfigView { password, name, root_cert, ..cfg }) == sqls_config(cfg),
{
}

/// The file name of the server.
pub fn server_name(windows: bool) -> (r: &'static str)
    ensures
        r@ == (if windows {
            "sqls.exe"@
        } else {
            "sqls"@
        }),
{
    if windows {
        "sqls.exe"
    } else {
        "sqls"
    }
}

/// The first of the places to look at in which there is something.
pub fn first_present<T>(places: Vec<(T, bool)>) -> (r: Option<T>)
    ensures
        (match r {
            Some(t) => exists|k: int|
                0 <= k < places@.len() && #[trigger] places@[k] == (t, true) && forall|j: int|
                    0 <= j < k ==> !(#[trigger] places@[j]).1,
            None => forall|j: int| 0 <= j < places@.len() ==> !(#[trigger] places@[j]).1,
        }),
{
    for p in it: places
        invariant
            it.seq() == places@,
            forall|j: int| 0 <= j < it.index() ==> !(#[trigger] places@[j]).1,
    {
        let (place, there) = p;
        if there {
            proof {
                let k = it.index() as int;
                assert(places@[k] == (place, true));
            }
            return Some(place);
        }
    }
    None
}

/// The name of the configuration file for a process.
pub fn config_file_name(pid: u32) -> (r: String)
    ensures
        r@ == "zdb-sqls-"@ + decimal(pid as nat) + ".yml"@,
{
    "zdb-sqls-".to_owned().concat(decimal_text(pid as u64).as_str()).concat(".yml")
}

/// A JSON string holds no line end and no other control character, so a value never ends
/// its line.
pub proof fn law_quoted_value_stays_on_its_line(s: Seq<char>)
    ensures
        forall|i: int|
            0 <= i < json_quoted(s).len() ==> #[trigger] json_quoted(s)[i] > '\u{1f}',
{
    let parts = s.map_values(|c: char| escaped(c));
    assert forall|k: int, i: int|
        0 <= k < parts.len() && 0 <= i < parts[k].len() implies #[trigger] parts[k][i] > '\u{1f}' by {
        lemma_escaped(s[k], i);
    }
    lemma_concat_above(parts);
}

proof fn lemma_escaped(c: char, i: int)
    requires
        0 <= i < escaped(c).len(),
    ensures
        escaped(c)[i] > '\u{1f}',
{
}

proof fn lemma_concat_above(parts: Seq<Seq<char>>)
    requires
        forall|k: int, i: int|
            0 <= k < parts.len() && 0 <= i < parts[k].len() ==> #[trigger] parts[k][i] > '\u{1f}',
    ensures
        forall|i: int|
            0 <= i < concat_all(parts).len() ==> #[trigger] concat_all(parts)[i] > '\u{1f}',
    decreases parts.len(),
{
    if parts.len() > 0 {
        let front = parts.drop_last();
        assert forall|k: int, i: int|
            0 <= k < front.len() && 0 <= i < front[k].len() implies #[trigger] front[k][i]
            > '\u{1f}' by {
            assert(parts[k][i] > '\u{1f}');
        }
        lemma_concat_above(front);
        assert forall|i: int| 0 <= i < concat_all(parts).len() implies #[trigger] concat_all(
            parts,
        )[i] > '\u{1f}' by {
            let n = concat_all(front).len();
            if i >= n {
                assert(parts[parts.len() - 1][i - n] > '\u{1f}');
            } else {
                assert(concat_all(front)[i] > '\u{1f}');
            }
        }
    }
}

// ---- documents -------------------------------------------------------------------

/// A document of the server, one for each editor.
pub struct SqlDocument {
    uri: String,
    opened: bool,
}

/// The name of the document of a tab.
pub open spec fn tab_uri(tab: u64) -> Seq<char> {
    "file:///zdb/tab-"@ + decimal(tab as nat) + ".sql"@
}

impl SqlDocument {
    /// Its name.
    pub closed spec fn name(&self) -> Seq<char> {
        self.uri@
    }

    /// Whether the server was told of it.
    pub closed spec fn is_open(&self) -> bool {
        self.opened
    }

    /// The document of a tab, of which the server does not know yet.
    pub fn new(tab: u64) -> (r: Self)
        ensures
            r.name() == tab_uri(tab),
            !r.is_open(),
    {
        SqlDocument {
            uri: "file:///zdb/tab-".to_owned().concat(decimal_text(tab).as_str()).concat(".sql"),
            opened: false,
        }
    }

    /// Its name.
    pub fn uri(&self) -> (r: &str)
        ensures
            r@ == self.name(),
    {
        self.uri.as_str()
    }

    /// The body that brings the server up to date with the text: the document is opened
    /// once, and changed ever after.
    pub fn sync<W>(&mut self, session: &mut Session<W>, text: &str) -> (r: String)
        requires
            old(session).changes() < i64::MAX,
        ensures
            final(self).is_open(),
            final(self).name() == old(self).name(),
            final(session).next() == old(session).next(),
            final(session).waiting() == old(session).waiting(),
            if old(self).is_open() {
                &&& r@ == did_change_body(
                    old(self).name(),
                    (old(session).changes() + 1) as i64,
                    text@,
                )
                &&& final(session).changes() == old(session).changes() + 1
            } else {
                &&& r@ == did_open_body(old(self).name(), text@)
                &&& final(session).changes() == old(session).changes()
            },
    {
        if self.opened {
            session.did_change(self.uri.as_str(), text)
        } else {
            self.opened = true;
            session.did_open(self.uri.as_str(), text)
        }
    }
}

/// Whether `char::is_alphanumeric` holds of a character.
pub uninterp spec fn alphanumeric(c: char) -> bool;

/// `char::is_alphanumeric`: whether the character is a letter or a number in Unicode, which
/// depends on the character alone. Of the ASCII characters, these are the letters and the
/// digits.
#[verifier::external_body]
pub(crate) fn is_alphanumeric(c: char) -> (r: bool)
    ensures
        r == alphanumeric(c),
        c <= '\u{7f}' ==> r == ('0' <= c <= '9' || 'A' <= c <= 'Z' || 'a' <= c <= 'z'),
{
    c.is_alphanumeric()
}

/// Whether a character asks for completion when it is typed, given whether it is a letter
/// or a number.
pub fn triggers(c: char, alphanumeric: bool) -> (r: bool)
    ensures
        r == (alphanumeric || c == '_' || c == '.'),
{
    alphanumeric || c == '_' || c == '.'
}

/// Whether typed text asks for completion: its last character is a letter, a number, `_`
/// or `.`.
pub fn is_completion_trigger(new_text: &str) -> (r: bool)
    ensures
        r == (new_text@.len() > 0 && (alphanumeric(new_text@.last()) || new_text@.last() == '_'
            || new_text@.last() == '.')),
{
    let v = chars_of(new_text);
    if v.len() == 0 {
        return false;
    }
    let c = v[v.len() - 1];
    triggers(c, is_alphanumeric(c))
}

} // verus!
