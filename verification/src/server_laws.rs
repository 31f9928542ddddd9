//! What is made of what the server and the user say: answers to a query, errors, relation
//! kinds, requests to the worker, numbers and the settings of a connection.

use vstd::prelude::*;
use crate::actor::{Command, Registry, Work};
use crate::config::{ConnectionConfigView, SslMode};
use crate::error::{reported, DbError, DbErrorView, PlaceView, ServerErrorView};
use crate::export::Cell;
use crate::introspect::RelationKind;
use crate::query::{
    announced, flushed, QueryOutcomeView, QueryRunView, ServerMessageView, ROW_BATCH,
};
use crate::script_laws::{is_core, law_trim_leaves_the_core};
use crate::settings::{ConnectionEntryView, EnvConnection};
use crate::text::{decimal, lemma_decimal_parses, parsed, trim};
use crate::types::{Elapsed, QueryEventView};
use crate::workspace::conn::ConnFormView;

verus! {

// ---- answers to a query ----------------------------------------------------------

proof fn lemma_with_both(o: QueryOutcomeView, a: Seq<QueryEventView>, b: Seq<QueryEventView>)
    ensures
        o.with_all(a + b) == o.with_all(a).with_all(b),
    decreases b.len(),
{
    if b.len() == 0 {
        assert(a + b =~= a);
    } else {
        lemma_with_both(o, a, b.drop_last());
        assert((a + b).drop_last() =~= a + b.drop_last());
    }
}

proof fn lemma_with_one(o: QueryOutcomeView, e: QueryEventView)
    ensures
        o.with_all(seq![e]) == o.with(e),
        o.with_all(Seq::empty()) == o,
{
    reveal_with_fuel(QueryOutcomeView::with_all, 2);
    assert(seq![e].drop_last() =~= Seq::<QueryEventView>::empty());
}

/// Whether messages hand over given rows, one each and in order.
pub open spec fn hand_over(
    msgs: Seq<(ServerMessageView, Elapsed)>,
    rows: Seq<Seq<Cell>>,
) -> bool {
    &&& msgs.len() == rows.len()
    &&& forall|i: int|
        0 <= i < msgs.len() ==> ((#[trigger] msgs[i]).0 matches ServerMessageView::Row {
            cells,
            ..
        } && cells == rows[i])
}

proof fn lemma_flushed(o: QueryOutcomeView, batch: Seq<Seq<Cell>>, e: QueryEventView)
    ensures
        o.with_all(flushed(batch).push(e)) == (QueryOutcomeView {
            rows: o.rows + batch,
            ..o
        }).with(e),
{
    lemma_with_both(o, flushed(batch), seq![e]);
    assert(flushed(batch).push(e) =~= flushed(batch) + seq![e]);
    if batch.len() == 0 {
        lemma_with_one(o, e);
        assert(o.rows + batch =~= o.rows);
        assert(flushed(batch) =~= Seq::<QueryEventView>::empty());
    } else {
        lemma_with_one(o, QueryEventView::Rows(batch));
    }
    lemma_with_one(o.with_all(flushed(batch)), e);
}

proof fn lemma_rows_then(
    o: QueryOutcomeView,
    state: QueryRunView,
    msgs: Seq<(ServerMessageView, Elapsed)>,
    rows: Seq<Seq<Cell>>,
    end: (ServerMessageView, Elapsed),
)
    requires
        state.have_columns,
        hand_over(msgs, rows),
        end.0 is CommandComplete || end.0 is Failed,
    ensures
        o.with_all(state.run(msgs.push(end))) == (QueryOutcomeView {
            rows: o.rows + state.batch + rows,
            ..o
        }).with(
            match end.0 {
                ServerMessageView::CommandComplete(affected) => QueryEventView::Done {
                    affected,
                    elapsed: end.1,
                },
                ServerMessageView::Failed(e) => QueryEventView::Failed(e),
                _ => QueryEventView::Done { affected: 0, elapsed: end.1 },
            },
        ),
    decreases msgs.len(),
{
    let all = msgs.push(end);
    if msgs.len() == 0 {
        assert(all.drop_first() =~= Seq::<(ServerMessageView, Elapsed)>::empty());
        assert(o.rows + state.batch + rows =~= o.rows + state.batch);
        let e = match end.0 {
            ServerMessageView::CommandComplete(affected) => QueryEventView::Done {
                affected,
                elapsed: end.1,
            },
            ServerMessageView::Failed(e) => QueryEventView::Failed(e),
            _ => QueryEventView::Done { affected: 0, elapsed: end.1 },
        };
        lemma_flushed(o, state.batch, e);
        let events = state.events(end.0, end.1);
        assert(events == flushed(state.batch).push(e));
        if end.0 is CommandComplete {
            let rest = state.after(end.0).run(all.drop_first());
            assert(rest =~= Seq::<QueryEventView>::empty());
            assert(state.run(all) =~= events);
        } else {
            assert(state.run(all) == events);
        }
    } else {
        let first = msgs[0];
        let cells = first.0->Row_cells;
        assert(cells == rows[0]);
        let next = state.after(first.0);
        let more = msgs.drop_first();
        assert(all.drop_first() =~= more.push(end));
        assert forall|i: int| 0 <= i < more.len() implies ((#[trigger] more[i]).0 matches
            ServerMessageView::Row { cells, .. } && cells == rows.drop_first()[i]) by {
            assert(more[i] == msgs[i + 1]);
        }
        let events = state.events(first.0, first.1);
        let kept = o.with_all(events);
        lemma_with_both(o, events, next.run(more.push(end)));
        lemma_rows_then(kept, next, more, rows.drop_first(), end);
        if state.batch.len() + 1 < ROW_BATCH {
            assert(events =~= Seq::<QueryEventView>::empty());
            lemma_with_one(o, QueryEventView::Rows(state.batch));
            assert(o.rows + state.batch.push(cells) + rows.drop_first() =~= o.rows + state.batch
                + rows);
        } else {
            assert(events =~= seq![QueryEventView::Rows(state.batch.push(cells))]);
            lemma_with_one(o, QueryEventView::Rows(state.batch.push(cells)));
            assert(o.rows + state.batch.push(cells) + next.batch + rows.drop_first() =~= o.rows
                + state.batch + rows);
        }
    }
}

/// The answer to a statement is gathered whole: the columns that the server described, under
/// their names, every row that it sent, in order, how many rows it reported and how long it
/// took. Where it fails at the end, the rows are kept and the error is told.
pub proof fn law_answer_is_gathered_whole(
    names: Seq<Seq<char>>,
    at: Elapsed,
    msgs: Seq<(ServerMessageView, Elapsed)>,
    rows: Seq<Seq<Cell>>,
    end: (ServerMessageView, Elapsed),
)
    requires
        hand_over(msgs, rows),
        end.0 is CommandComplete || end.0 is Failed,
    ensures
        ({
            let sent = seq![(ServerMessageView::RowDescription(names), at)] + msgs.push(end);
            let o = QueryOutcomeView::empty().with_all(QueryRunView::start().run(sent));
            &&& o.headers == names
            &&& o.rows == rows
            &&& end.0 matches ServerMessageView::CommandComplete(n) ==> o.affected == n && o.elapsed
                == end.1 && o.error is None
            &&& end.0 matches ServerMessageView::Failed(e) ==> o.affected == 0 && o.error == Some(
                e.shown(),
            )
        }),
{
    let desc = (ServerMessageView::RowDescription(names), at);
    let sent = seq![desc] + msgs.push(end);
    let start = QueryRunView::start();
    assert(sent[0] == desc);
    assert(sent.drop_first() =~= msgs.push(end));
    let events = start.events(desc.0, at);
    assert(events =~= seq![announced(names)]);
    let next = start.after(desc.0);
    let empty = QueryOutcomeView::empty();
    lemma_with_both(empty, events, next.run(msgs.push(end)));
    lemma_with_one(empty, announced(names));
    let o = empty.with(announced(names));
    assert(o.headers =~= names);
    lemma_rows_then(o, next, msgs, rows, end);
    assert(o.rows + next.batch + rows =~= rows);
}

/// Of several statements the last one counts: its columns and its count take the place of those
/// before, whatever they were, while rows are added to those that are there and an error is
/// kept.
pub proof fn law_last_statement_counts(o: QueryOutcomeView, event: QueryEventView)
    ensures
        ({
            let n = o.with_all(seq![event]);
            match event {
                QueryEventView::Columns(c) => {
                    &&& n.headers.len() == c.len()
                    &&& forall|i: int| 0 <= i < c.len() ==> #[trigger] n.headers[i] == c[i].name
                    &&& n.rows == o.rows && n.affected == o.affected && n.elapsed == o.elapsed
                        && n.error == o.error
                },
                QueryEventView::Rows(r) => n.rows == o.rows + r && n.headers == o.headers
                    && n.affected == o.affected && n.elapsed == o.elapsed && n.error == o.error,
                QueryEventView::Done { affected, elapsed } => n.affected == affected && n.elapsed
                    == elapsed && n.headers == o.headers && n.rows == o.rows && n.error == o.error,
                QueryEventView::Failed(e) => n.error == Some(e.shown()) && n.headers == o.headers
                    && n.rows == o.rows && n.affected == o.affected && n.elapsed == o.elapsed,
            }
        }),
{
    lemma_with_one(o, event);
}

/// The answer to a statement that returns no rows holds none, and says how many rows it
/// touched.
pub proof fn law_command_is_reported(n: u64, at: Elapsed)
    ensures
        ({
            let sent = seq![(ServerMessageView::CommandComplete(n), at)];
            let o = QueryOutcomeView::empty().with_all(QueryRunView::start().run(sent));
            &&& o.headers.len() == 0
            &&& o.rows.len() == 0
            &&& o.affected == n
            &&& o.elapsed == at
            &&& o.error is None
        }),
{
    let msg = (ServerMessageView::CommandComplete(n), at);
    let sent = seq![msg];
    let start = QueryRunView::start();
    assert(sent.drop_first() =~= Seq::<(ServerMessageView, Elapsed)>::empty());
    let done = QueryEventView::Done { affected: n, elapsed: at };
    assert(start.events(msg.0, at) =~= seq![done]);
    reveal_with_fuel(QueryRunView::run, 2);
    assert(start.run(sent) =~= seq![done]);
    lemma_with_one(QueryOutcomeView::empty(), done);
}

/// A failure ends what is handed on: it is the last event, and nothing that the server sends
/// behind it counts.
pub proof fn law_failure_is_the_end(
    state: QueryRunView,
    msgs: Seq<(ServerMessageView, Elapsed)>,
    k: int,
)
    requires
        0 <= k < msgs.len(),
        msgs[k].0 is Failed,
        forall|i: int| 0 <= i < k ==> !((#[trigger] msgs[i]).0 is Failed),
    ensures
        state.run(msgs) == state.run(msgs.take(k + 1)),
        state.run(msgs).len() > 0,
        state.run(msgs).last() == QueryEventView::Failed(msgs[k].0->Failed_0),
    decreases k,
{
    if k > 0 {
        let next = state.after(msgs[0].0);
        let more = msgs.drop_first();
        assert(!(msgs[0].0 is Failed));
        assert forall|i: int| 0 <= i < k - 1 implies !((#[trigger] more[i]).0 is Failed) by {
            assert(more[i] == msgs[i + 1]);
        }
        law_failure_is_the_end(next, more, k - 1);
        assert(msgs.take(k + 1).drop_first() =~= more.take(k));
        assert(msgs.take(k + 1)[0] == msgs[0]);
        let events = state.events(msgs[0].0, msgs[0].1);
        assert((events + next.run(more)).last() == next.run(more).last());
    } else {
        assert(msgs.take(1)[0] == msgs[0]);
    }
}

/// Rows are handed on in batches of five hundred: a row that fills a batch hands it on with
/// every row in it, and any other row is kept back.
pub proof fn law_batches_are_full(
    state: QueryRunView,
    columns: Seq<Seq<char>>,
    cells: Seq<Cell>,
    at: Elapsed,
)
    requires
        state.valid(),
        state.have_columns,
    ensures
        ({
            let msg = ServerMessageView::Row { columns, cells };
            &&& state.batch.len() < 500
            &&& state.batch.len() == 499 ==> state.events(msg, at) == seq![
                QueryEventView::Rows(state.batch.push(cells)),
            ] && state.after(msg).batch.len() == 0
            &&& state.batch.len() < 499 ==> state.events(msg, at).len() == 0 && state.after(
                msg,
            ).batch == state.batch.push(cells)
        }),
{
    let msg = ServerMessageView::Row { columns, cells };
    if state.batch.len() == 499 {
        assert(state.events(msg, at) =~= seq![QueryEventView::Rows(state.batch.push(cells))]);
    }
}

/// A row that comes before any description names its columns itself.
pub proof fn law_rows_can_name_their_columns(
    state: QueryRunView,
    columns: Seq<Seq<char>>,
    cells: Seq<Cell>,
    at: Elapsed,
)
    requires
        state.valid(),
        !state.have_columns,
    ensures
        ({
            let msg = ServerMessageView::Row { columns, cells };
            let events = state.events(msg, at);
            &&& state.after(msg).have_columns
            &&& events.len() == 1
            &&& events[0] matches QueryEventView::Columns(c)
            &&& c.len() == columns.len()
            &&& forall|i: int| 0 <= i < columns.len() ==> (#[trigger] c[i]).name == columns[i]
        }),
{
}

// ---- errors ----------------------------------------------------------------------

/// An error of the server is told in its own words, with its code, detail and hint; a position
/// is kept only where it is one in what was submitted.
pub proof fn law_server_errors_keep_their_words(db: ServerErrorView, text: Seq<char>)
    ensures
        reported(Some(db), text).shown() == db.message,
        reported(Some(db), text) matches DbErrorView::Postgres {
            code,
            position,
            detail,
            hint,
            ..
        } && code == Some(db.code) && detail == db.detail && hint == db.hint && (match position {
            Some(p) => db.place == Some(PlaceView::Original(p)),
            None => !(db.place is Some && db.place->0 is Original),
        }),
{
}

/// An error of the client ends in its own words.
pub proof fn law_client_errors_keep_their_words(text: Seq<char>)
    ensures
        text.is_suffix_of(reported(None, text).shown()),
        text.is_suffix_of(DbErrorView::Connect(text).shown()),
        text.is_suffix_of(DbErrorView::Tls(text).shown()),
        reported(None, text) is Query,
{
    let a = reported(None, text).shown();
    assert(a.subrange(a.len() - text.len(), a.len() as int) =~= text);
    let b = DbErrorView::Connect(text).shown();
    assert(b.subrange(b.len() - text.len(), b.len() as int) =~= text);
    let c = DbErrorView::Tls(text).shown();
    assert(c.subrange(c.len() - text.len(), c.len() as int) =~= text);
}

// ---- the catalog -----------------------------------------------------------------

/// The letters of the catalog stand for the kinds of relations: `r` and `p` for tables, `v`
/// for views, `m` for materialized views, `f` for foreign tables; anything else is none of
/// these.
pub proof fn law_relation_letters(k: Seq<char>)
    ensures
        RelationKind::of_relkind(k) == RelationKind::Table <==> k == seq!['r'] || k == seq!['p'],
        RelationKind::of_relkind(k) == RelationKind::View <==> k == seq!['v'],
        RelationKind::of_relkind(k) == RelationKind::MaterializedView <==> k == seq!['m'],
        RelationKind::of_relkind(k) == RelationKind::ForeignTable <==> k == seq!['f'],
{
    reveal_strlit("r");
    reveal_strlit("p");
    reveal_strlit("v");
    reveal_strlit("m");
    reveal_strlit("f");
    assert("r"@ =~= seq!['r']);
    assert("p"@ =~= seq!['p']);
    assert("v"@ =~= seq!['v']);
    assert("m"@ =~= seq!['m']);
    assert("f"@ =~= seq!['f']);
    assert(seq!['r'][0] == 'r' && seq!['p'][0] == 'p' && seq!['v'][0] == 'v' && seq!['m'][0] == 'm'
        && seq!['f'][0] == 'f');
}

// ---- requests to the worker ------------------------------------------------------

/// A request that names a connection is done as it was asked for where that connection is
/// open, and refused, with the name of the connection, where it is not. Connecting needs none;
/// a cancellation or a disconnection is never refused.
pub proof fn law_requests_need_their_connection<C>(
    reg: Registry<C>,
    command: Command,
    conn: u64,
)
    ensures
        (match command {
            Command::Query { conn: c, .. } => c == conn,
            Command::Introspect { conn: c, .. } => c == conn,
            Command::Apply { conn: c, .. } => c == conn,
            Command::Describe { conn: c, .. } => c == conn,
            _ => false,
        }) ==> reg.work(command) == (if reg.open().dom().contains(conn) {
            Work::Do { command }
        } else {
            Work::Refuse { error: DbError::NoConnection(conn) }
        }),
        command is Connect ==> reg.work(command) == (Work::Do { command }),
        command is Cancel || command is Disconnect ==> !(reg.work(command) is Refuse),
        command matches Command::Cancel { conn: c } ==> (reg.work(command) is Do
            <==> reg.open().dom().contains(c)),
{
}

// ---- numbers ---------------------------------------------------------------------

/// The digits of a number stand for it wherever it is not too large, also behind a plus sign.
pub proof fn law_numbers_read_back(n: nat, max: nat)
    ensures
        parsed(decimal(n), max) == (if n <= max {
            Some(n)
        } else {
            None
        }),
        parsed(seq!['+'] + decimal(n), max) == parsed(decimal(n), max),
{
    lemma_decimal_parses(n);
    assert(crate::text::is_digit(decimal(n)[0]));
    assert((seq!['+'] + decimal(n)).drop_first() =~= decimal(n));
}

/// One more digit makes a number ten times as large and adds the digit.
pub proof fn law_numbers_grow_by_digits(s: Seq<char>, c: char, max: nat)
    requires
        parsed(s, max) is Some,
        '0' as int <= c as int <= '9' as int,
    ensures
        parsed(s.push(c), max) == ({
            let n = parsed(s, max)->0 * 10 + (c as int - 48);
            if n <= max {
                Some(n as nat)
            } else {
                None
            }
        }),
{
    let d = if s.len() > 0 && s[0] == '+' {
        s.drop_first()
    } else {
        s
    };
    assert(s.len() > 0);
    assert(s.push(c)[0] == s[0]);
    let e = if s[0] == '+' {
        s.push(c).drop_first()
    } else {
        s.push(c)
    };
    assert(e =~= d.push(c));
    assert(d.push(c).drop_last() =~= d);
    assert forall|i: int| 0 <= i < e.len() implies crate::text::is_digit(#[trigger] e[i]) by {
        if i < d.len() {
            assert(crate::text::is_digit(d[i]));
        }
    }
}

/// Only digits, with or without a plus sign before them, stand for a number.
pub proof fn law_only_digits_are_numbers(s: Seq<char>, max: nat)
    requires
        parsed(s, max) is Some,
    ensures
        s.len() > 0,
        parsed(s, max)->0 <= max,
        s[0] == '+' ==> s.len() > 1,
        s[0] == '+' || 48 <= s[0] as int <= 57,
        forall|i: int| 0 < i < s.len() ==> 48 <= #[trigger] s[i] as int <= 57,
{
    if s[0] == '+' {
        let d = s.drop_first();
        assert forall|i: int| 0 < i < s.len() implies 48 <= #[trigger] s[i] as int <= 57 by {
            assert(crate::text::is_digit(d[i - 1]));
        }
    } else {
        assert forall|i: int| 0 <= i < s.len() implies 48 <= #[trigger] s[i] as int <= 57 by {
            assert(crate::text::is_digit(s[i]));
        }
    }
}

// ---- connections -----------------------------------------------------------------

/// What `tokio_postgres` is told of a connection: the host, port, database and user, the port
/// in digits, and a password where there is one and only there.
pub proof fn law_connection_is_made_as_configured(cfg: ConnectionConfigView)
    ensures
        ({
            let m = cfg.settings();
            &&& m.dom().contains("host"@) && m["host"@] == seq![cfg.host]
            &&& m.dom().contains("port"@) && m["port"@].len() == 1 && parsed(
                m["port"@][0],
                u16::MAX as nat,
            ) == Some(cfg.port as nat)
            &&& m.dom().contains("dbname"@) && m["dbname"@] == seq![cfg.dbname]
            &&& m.dom().contains("user"@) && m["user"@] == seq![cfg.user]
            &&& (m.dom().contains("password"@) <==> cfg.password is Some)
            &&& cfg.password is Some ==> m["password"@] == seq![cfg.password->0]
            &&& m.dom().contains("sslmode"@) && m["sslmode"@] == seq![
                match cfg.ssl_mode {
                    SslMode::Disable => "disable"@,
                    SslMode::Prefer => "prefer"@,
                    SslMode::Require | SslMode::VerifyCa | SslMode::VerifyFull => "require"@,
                },
            ]
        }),
{
    reveal_strlit("host");
    reveal_strlit("port");
    reveal_strlit("dbname");
    reveal_strlit("user");
    reveal_strlit("application_name");
    reveal_strlit("sslmode");
    reveal_strlit("password");
    law_numbers_read_back(cfg.port as nat, u16::MAX as nat);
    assert("host"@[0] == 'h' && "port"@[0] == 'p' && "dbname"@[0] == 'd' && "user"@[0] == 'u'
        && "application_name"@[0] == 'a' && "sslmode"@[0] == 's' && "password"@[0] == 'p');
    assert("port"@.len() == 4 && "password"@.len() == 8);
}

/// The certificate of the server is verified exactly where the mode says so.
pub proof fn law_verifying_modes(mode: SslMode)
    ensures
        mode.must_verify() <==> mode == SslMode::VerifyCa || mode == SslMode::VerifyFull,
{
}

/// A saved connection is made as it was saved; its mode is the one that its word names,
/// whatever white space stands round it, and any other word names the standard one.
pub proof fn law_saved_mode_is_used(e: ConnectionEntryView, password: Option<Seq<char>>)
    ensures
        ({
            let cfg = e.config(password);
            let word = trim(e.ssl_mode);
            &&& cfg.name == e.name && cfg.host == e.host && cfg.port == e.port && cfg.dbname
                == e.dbname && cfg.user == e.user && cfg.password == password
            &&& cfg.root_cert is None
            &&& exists|x: int, y: int| is_core(word, e.ssl_mode, x, y)
            &&& (cfg.ssl_mode == SslMode::Disable <==> word == "disable"@)
            &&& (cfg.ssl_mode == SslMode::Require <==> word == "require"@)
            &&& (cfg.ssl_mode == SslMode::VerifyCa <==> word == "verify-ca"@)
            &&& (cfg.ssl_mode == SslMode::VerifyFull <==> word == "verify-full"@)
        }),
{
    law_trim_leaves_the_core(e.ssl_mode);
    reveal_strlit("disable");
    reveal_strlit("require");
    reveal_strlit("verify-ca");
    reveal_strlit("verify-full");
    assert("disable"@[0] == 'd' && "require"@[0] == 'r' && "verify-ca"@[0] == 'v'
        && "verify-full"@[0] == 'v');
    assert("verify-ca"@.len() == 9 && "verify-full"@.len() == 11);
}

/// A connection that the environment describes needs a host. What it does not name is taken
/// as is usual: the user `postgres`, a database named like the user, and the port 5432, also
/// where the port is no number.
pub proof fn law_environment_names_the_connection(env: EnvConnection)
    ensures
        env.described() is Some <==> env.host is Some,
        env.described() matches Some(cfg) ==> {
            &&& cfg.host == env.host->0@
            &&& cfg.user == (if env.user is Some {
                env.user->0@
            } else {
                "postgres"@
            })
            &&& cfg.dbname == (if env.dbname is Some {
                env.dbname->0@
            } else {
                cfg.user
            })
            &&& cfg.password == env.password.deep_view()
            &&& (env.port is None || parsed(env.port->0@, 65535) is None) ==> cfg.port == 5432
            &&& (env.port is Some && parsed(env.port->0@, 65535) is Some) ==> parsed(
                env.port->0@,
                65535,
            ) == Some(cfg.port as nat)
            &&& cfg.ssl_mode == (if env.ssl_disable {
                SslMode::Disable
            } else {
                SslMode::Prefer
            })
            &&& cfg.root_cert is None
        },
{
}

/// Whether a text is another one without the white space round it.
pub open spec fn is_trimmed(t: Seq<char>, s: Seq<char>) -> bool {
    exists|x: int, y: int| is_core(t, s, x, y)
}

/// What is typed into the form of a connection is taken without the white space round it. The
/// name, the host, the user and the database have to be given; a port that is no number is the
/// usual one, and so is a mode that is left out.
pub proof fn law_form_is_taken_as_typed(form: ConnFormView)
    ensures
        is_trimmed(trim(form.name), form.name),
        is_trimmed(trim(form.host), form.host),
        is_trimmed(trim(form.user), form.user),
        is_trimmed(trim(form.db), form.db),
        form.entry() is Some <==> trim(form.name).len() > 0 && trim(form.host).len() > 0 && trim(
            form.user,
        ).len() > 0 && trim(form.db).len() > 0,
        form.entry() matches Some(e) ==> {
            &&& e.name == trim(form.name)
            &&& e.host == trim(form.host)
            &&& e.user == trim(form.user)
            &&& e.dbname == trim(form.db)
            &&& parsed(trim(form.port), 65535) is Some ==> parsed(trim(form.port), 65535) == Some(
                e.port as nat,
            )
            &&& parsed(trim(form.port), 65535) is None ==> e.port == 5432
            &&& e.ssl_mode == (if trim(form.ssl).len() > 0 {
                trim(form.ssl)
            } else {
                "prefer"@
            })
        },
{
    law_trim_leaves_the_core(form.name);
    law_trim_leaves_the_core(form.host);
    law_trim_leaves_the_core(form.user);
    law_trim_leaves_the_core(form.db);
}

} // verus!
