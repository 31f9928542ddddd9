//! The events of a running query: rows are handed on in batches, so that a large result
//! is never held in full on the way, and gathered again where it is shown.

use std::sync::Arc;
use vstd::prelude::*;
use crate::error::{DbError, DbErrorView};
use crate::export::Cell;
use crate::types::{
    named_column, CellValue, ColumnMeta, ColumnMetaView, Elapsed, QueryEvent, QueryEventView, Row,
};

verus! {

/// The largest number of rows in one batch.
pub const ROW_BATCH: usize = 500;

/// One message of the server in answer to a submission.
#[derive(Debug, Clone)]
pub enum ServerMessage {
    /// The names of the columns of the rows that follow.
    RowDescription(Vec<String>),
    /// A row, with the names of its columns.
    Row { columns: Vec<String>, cells: Vec<Option<String>> },
    /// A statement is done; with the number of rows that it returned or changed.
    CommandComplete(u64),
    /// Anything else.
    Other,
    /// The submission failed; nothing follows.
    Failed(DbError),
}

/// What a [`ServerMessage`] says.
pub enum ServerMessageView {
    RowDescription(Seq<Seq<char>>),
    Row { columns: Seq<Seq<char>>, cells: Seq<Cell> },
    CommandComplete(u64),
    Other,
    Failed(DbErrorView),
}

impl DeepView for ServerMessage {
    type V = ServerMessageView;

    open spec fn deep_view(&self) -> ServerMessageView {
        match self {
            ServerMessage::RowDescription(c) => ServerMessageView::RowDescription(c.deep_view()),
            ServerMessage::Row { columns, cells } => ServerMessageView::Row {
                columns: columns.deep_view(),
                cells: cells.deep_view(),
            },
            ServerMessage::CommandComplete(n) => ServerMessageView::CommandComplete(*n),
            ServerMessage::Other => ServerMessageView::Other,
            ServerMessage::Failed(e) => ServerMessageView::Failed(e.deep_view()),
        }
    }
}

/// The state of a submission that runs: whether its columns were announced, and the
/// rows that have not been handed on.
pub struct QueryRun {
    have_columns: bool,
    batch: Vec<Row>,
}

/// What a [`QueryRun`] holds.
#[verifier::ext_equal]
pub struct QueryRunView {
    pub have_columns: bool,
    pub batch: Seq<Seq<Cell>>,
}

impl DeepView for QueryRun {
    type V = QueryRunView;

    closed spec fn deep_view(&self) -> QueryRunView {
        QueryRunView { have_columns: self.have_columns, batch: self.batch.deep_view() }
    }
}

/// The event for rows that wait, if there are any.
pub open spec fn flushed(batch: Seq<Seq<Cell>>) -> Seq<QueryEventView> {
    if batch.len() == 0 {
        Seq::empty()
    } else {
        seq![QueryEventView::Rows(batch)]
    }
}

/// The event that announces columns.
pub open spec fn announced(names: Seq<Seq<char>>) -> QueryEventView {
    QueryEventView::Columns(names.map_values(|n: Seq<char>| named_column(n)))
}

impl QueryRunView {
    /// The state before the first message.
    pub open spec fn start() -> QueryRunView {
        QueryRunView { have_columns: false, batch: Seq::empty() }
    }

    /// Rows wait only under announced columns, and fewer than make a batch.
    pub open spec fn valid(self) -> bool {
        &&& self.batch.len() < ROW_BATCH
        &&& self.batch.len() > 0 ==> self.have_columns
    }

    /// The state after a message.
    pub open spec fn after(self, msg: ServerMessageView) -> QueryRunView {
        match msg {
            ServerMessageView::RowDescription(_) => QueryRunView {
                have_columns: true,
                batch: Seq::empty(),
            },
            ServerMessageView::Row { cells, .. } => QueryRunView {
                have_columns: true,
                batch: if self.batch.len() + 1 < ROW_BATCH {
                    self.batch.push(cells)
                } else {
                    Seq::empty()
                },
            },
            ServerMessageView::CommandComplete(_) => QueryRunView {
                have_columns: false,
                batch: Seq::empty(),
            },
            ServerMessageView::Other => self,
            ServerMessageView::Failed(_) => QueryRunView {
                have_columns: self.have_columns,
                batch: Seq::empty(),
            },
        }
    }

    /// The events that a message brings, `elapsed` after the statement was started. What
    /// waits goes out before anything but a further row; a full batch goes out at once.
    pub open spec fn events(self, msg: ServerMessageView, elapsed: Elapsed) -> Seq<QueryEventView> {
        match msg {
            ServerMessageView::RowDescription(names) => flushed(self.batch).push(announced(names)),
            ServerMessageView::Row { columns, cells } => (if self.have_columns {
                Seq::empty()
            } else {
                seq![announced(columns)]
            }) + (if self.batch.len() + 1 < ROW_BATCH {
                Seq::empty()
            } else {
                seq![QueryEventView::Rows(self.batch.push(cells))]
            }),
            ServerMessageView::CommandComplete(affected) => flushed(self.batch).push(
                QueryEventView::Done { affected, elapsed },
            ),
            ServerMessageView::Other => Seq::empty(),
            ServerMessageView::Failed(e) => flushed(self.batch).push(QueryEventView::Failed(e)),
        }
    }

    /// All events from here on, for the messages that are still to come: up to a failure,
    /// or to the end, where what waits goes out.
    pub open spec fn run(self, msgs: Seq<(ServerMessageView, Elapsed)>) -> Seq<QueryEventView>
        decreases msgs.len(),
    {
        if msgs.len() == 0 {
            flushed(self.batch)
        } else if msgs[0].0 is Failed {
            self.events(msgs[0].0, msgs[0].1)
        } else {
            self.events(msgs[0].0, msgs[0].1) + self.after(msgs[0].0).run(msgs.drop_first())
        }
    }
}

fn announce(names: &Vec<String>) -> (r: QueryEvent)
    ensures
        r.deep_view() == announced(names.deep_view()),
{
    let mut metas: Vec<ColumnMeta> = Vec::new();
    for i in 0..names.len()
        invariant
            metas@.len() == i,
            forall|j: int|
                0 <= j < i ==> (#[trigger] metas@[j]).deep_view() == named_column(names@[j]@),
    {
        metas.push(ColumnMeta::named(names[i].as_str()));
    }
    proof {
        assert(metas.deep_view() =~= names.deep_view().map_values(
            |n: Seq<char>| named_column(n),
        ));
    }
    QueryEvent::Columns(Arc::new(metas))
}

fn cells_of(cells: Vec<Option<String>>) -> (r: Row)
    ensures
        r.deep_view() == cells.deep_view(),
{
    let mut row: Row = Vec::with_capacity(cells.len());
    for i in 0..cells.len()
        invariant
            row@.len() == i,
            forall|j: int|
                0 <= j < i ==> (#[trigger] row@[j]).deep_view() == cells@[j].deep_view(),
    {
        let cell = match &cells[i] {
            Some(s) => CellValue::from_opt(Some(s.as_str())),
            None => CellValue::from_opt(None),
        };
        row.push(cell);
    }
    proof {
        assert(row.deep_view() =~= cells.deep_view());
    }
    row
}

impl QueryRun {
    /// The state before the first message.
    pub fn new() -> (r: Self)
        ensures
            r.deep_view() == QueryRunView::start(),
            r.deep_view().valid(),
    {
        let r = QueryRun { have_columns: false, batch: Vec::new() };
        proof {
            assert(r.batch.deep_view() =~= Seq::empty());
        }
        r
    }

    fn flush(&mut self) -> (r: Vec<QueryEvent>)
        ensures
            r.deep_view() == flushed(old(self).deep_view().batch),
            final(self).deep_view() == (QueryRunView {
                batch: Seq::empty(),
                ..old(self).deep_view()
            }),
    {
        let mut out: Vec<QueryEvent> = Vec::new();
        let mut batch: Vec<Row> = Vec::new();
        proof {
            assert(batch.deep_view() =~= Seq::empty());
        }
        if self.batch.len() > 0 {
            std::mem::swap(&mut batch, &mut self.batch);
            out.push(QueryEvent::Rows(batch));
        } else {
            proof {
                assert(self.batch.deep_view() =~= Seq::empty());
            }
        }
        proof {
            assert(out.deep_view() =~= flushed(old(self).deep_view().batch));
        }
        out
    }

    /// Takes one message of the server, `elapsed` after the statement was started, and
    /// gives the events to send. After a failure no further message comes.
    pub fn step(&mut self, msg: ServerMessage, elapsed: Elapsed) -> (r: Vec<QueryEvent>)
        requires
            old(self).deep_view().valid(),
        ensures
            r.deep_view() == old(self).deep_view().events(msg.deep_view(), elapsed),
            final(self).deep_view() == old(self).deep_view().after(msg.deep_view()),
            final(self).deep_view().valid(),
    {
        match msg {
            ServerMessage::RowDescription(names) => {
                let mut out = self.flush();
                out.push(announce(&names));
                self.have_columns = true;
                proof {
                    assert(out.deep_view() =~= old(self).deep_view().events(
                        msg.deep_view(),
                        elapsed,
                    ));
                }
                out
            },
            ServerMessage::Row { columns, cells } => {
                let mut out: Vec<QueryEvent> = Vec::new();
                if !self.have_columns {
                    out.push(announce(&columns));
                    self.have_columns = true;
                }
                let ghost before = self.batch.deep_view();
                let ghost waiting = out.deep_view();
                self.batch.push(cells_of(cells));
                proof {
                    assert(self.batch.deep_view() =~= before.push(cells.deep_view()));
                }
                if self.batch.len() >= ROW_BATCH {
                    let mut full = self.flush();
                    let ghost rest = full.deep_view();
                    out.append(&mut full);
                    proof {
                        assert(out.deep_view() =~= waiting + rest);
                    }
                }
                proof {
                    assert(out.deep_view() =~= old(self).deep_view().events(
                        msg.deep_view(),
                        elapsed,
                    ));
                }
                out
            },
            ServerMessage::CommandComplete(affected) => {
                let mut out = self.flush();
                out.push(QueryEvent::Done { affected, elapsed });
                self.have_columns = false;
                proof {
                    assert(out.deep_view() =~= old(self).deep_view().events(
                        msg.deep_view(),
                        elapsed,
                    ));
                }
                out
            },
            ServerMessage::Other => {
                let out: Vec<QueryEvent> = Vec::new();
                proof {
                    assert(out.deep_view() =~= Seq::empty());
                }
                out
            },
            ServerMessage::Failed(e) => {
                let mut out = self.flush();
                out.push(QueryEvent::Failed(e));
                proof {
                    assert(out.deep_view() =~= old(self).deep_view().events(
                        msg.deep_view(),
                        elapsed,
                    ));
                }
                out
            },
        }
    }

    /// The server has nothing more to say: the events that are left to send.
    pub fn finish(&mut self) -> (r: Vec<QueryEvent>)
        ensures
            r.deep_view() == flushed(old(self).deep_view().batch),
            final(self).deep_view() == (QueryRunView {
                batch: Seq::empty(),
                ..old(self).deep_view()
            }),
    {
        self.flush()
    }
}

/// The rows that events hold, in order.
pub open spec fn rows_of(events: Seq<QueryEventView>) -> Seq<Seq<Cell>>
    decreases events.len(),
{
    if events.len() == 0 {
        Seq::empty()
    } else {
        rows_of(events.drop_last()) + (match events.last() {
            QueryEventView::Rows(rows) => rows,
            _ => Seq::empty(),
        })
    }
}

/// The rows that the server sent, in order, up to a failure.
pub open spec fn rows_sent(msgs: Seq<(ServerMessageView, Elapsed)>) -> Seq<Seq<Cell>>
    decreases msgs.len(),
{
    if msgs.len() == 0 || msgs[0].0 is Failed {
        Seq::empty()
    } else {
        (match msgs[0].0 {
            ServerMessageView::Row { cells, .. } => seq![cells],
            _ => Seq::empty(),
        }) + rows_sent(msgs.drop_first())
    }
}

proof fn lemma_rows_of_concat(a: Seq<QueryEventView>, b: Seq<QueryEventView>)
    ensures
        rows_of(a + b) == rows_of(a) + rows_of(b),
    decreases b.len(),
{
    if b.len() == 0 {
        assert(a + b =~= a);
    } else {
        lemma_rows_of_concat(a, b.drop_last());
        assert((a + b).drop_last() =~= a + b.drop_last());
        assert(rows_of(a + b) =~= rows_of(a) + rows_of(b));
    }
}

/// Batching neither loses, repeats nor moves a row: the rows of the events are the rows
/// that waited, followed by those that the server sends.
pub proof fn law_every_row_is_handed_on(
    state: QueryRunView,
    msgs: Seq<(ServerMessageView, Elapsed)>,
)
    ensures
        rows_of(state.run(msgs)) == state.batch + rows_sent(msgs),
    decreases msgs.len(),
{
    reveal_with_fuel(rows_of, 3);
    if msgs.len() == 0 {
        assert(rows_of(state.run(msgs)) =~= state.batch + rows_sent(msgs));
    } else {
        let events = state.events(msgs[0].0, msgs[0].1);
        assert(flushed(state.batch).push(events.last()).drop_last() =~= flushed(state.batch));
        assert(rows_of(flushed(state.batch)) =~= state.batch);
        if msgs[0].0 is Failed {
            assert(rows_of(events) =~= state.batch);
        } else {
            law_every_row_is_handed_on(state.after(msgs[0].0), msgs.drop_first());
            lemma_rows_of_concat(events, state.after(msgs[0].0).run(msgs.drop_first()));
            assert(rows_of(state.run(msgs)) =~= state.batch + rows_sent(msgs));
        }
    }
}

/// Whether events come in order: rows only under announced columns, in batches that are
/// neither empty nor too large, and nothing after a failure. `open` says whether columns
/// are announced.
pub open spec fn in_order(events: Seq<QueryEventView>, open: bool) -> bool
    decreases events.len(),
{
    if events.len() == 0 {
        true
    } else {
        match events[0] {
            QueryEventView::Columns(_) => in_order(events.drop_first(), true),
            QueryEventView::Rows(rows) => open && 0 < rows.len() <= ROW_BATCH && in_order(
                events.drop_first(),
                open,
            ),
            QueryEventView::Done { .. } => in_order(events.drop_first(), false),
            QueryEventView::Failed(_) => events.len() == 1,
        }
    }
}

/// Events come in order, whatever the server sends.
pub proof fn law_events_come_in_order(state: QueryRunView, msgs: Seq<(ServerMessageView, Elapsed)>)
    requires
        state.valid(),
    ensures
        in_order(state.run(msgs), state.have_columns),
    decreases msgs.len(),
{
    reveal_with_fuel(in_order, 3);
    if msgs.len() == 0 {
        assert(flushed(state.batch).drop_first() =~= Seq::<QueryEventView>::empty()
            || state.batch.len() == 0);
    } else if msgs[0].0 is Failed {
        let events = state.events(msgs[0].0, msgs[0].1);
        if state.batch.len() > 0 {
            assert(events.drop_first() =~= seq![events.last()]);
        }
    } else {
        let next = state.after(msgs[0].0);
        law_events_come_in_order(next, msgs.drop_first());
        let events = state.events(msgs[0].0, msgs[0].1);
        let rest = next.run(msgs.drop_first());
        let all = events + rest;
        if events.len() == 0 {
            assert(all =~= rest);
        } else if events.len() == 1 {
            assert(all.drop_first() =~= rest);
        } else {
            assert(all.drop_first().drop_first() =~= rest);
        }
    }
}

/// Everything that a finished query produced.
pub struct QueryOutcome {
    pub headers: Vec<String>,
    pub rows: Vec<Row>,
    pub affected: u64,
    pub elapsed: Elapsed,
    pub error: Option<String>,
}

/// What a [`QueryOutcome`] says.
#[verifier::ext_equal]
pub struct QueryOutcomeView {
    pub headers: Seq<Seq<char>>,
    pub rows: Seq<Seq<Cell>>,
    pub affected: u64,
    pub elapsed: Elapsed,
    pub error: Option<Seq<char>>,
}

impl DeepView for QueryOutcome {
    type V = QueryOutcomeView;

    open spec fn deep_view(&self) -> QueryOutcomeView {
        QueryOutcomeView {
            headers: self.headers.deep_view(),
            rows: self.rows.deep_view(),
            affected: self.affected,
            elapsed: self.elapsed,
            error: self.error.deep_view(),
        }
    }
}

impl QueryOutcomeView {
    /// Nothing has come yet.
    pub open spec fn empty() -> QueryOutcomeView {
        QueryOutcomeView {
            headers: Seq::empty(),
            rows: Seq::empty(),
            affected: 0,
            elapsed: Elapsed { secs: 0, nanos: 0 },
            error: None,
        }
    }

    /// With one more event taken in: the last columns, counts and error are kept, rows
    /// are gathered.
    pub open spec fn with(self, event: QueryEventView) -> QueryOutcomeView {
        match event {
            QueryEventView::Columns(c) => QueryOutcomeView {
                headers: c.map_values(|m: ColumnMetaView| m.name),
                ..self
            },
            QueryEventView::Rows(r) => QueryOutcomeView { rows: self.rows + r, ..self },
            QueryEventView::Done { affected, elapsed } => QueryOutcomeView {
                affected,
                elapsed,
                ..self
            },
            QueryEventView::Failed(e) => QueryOutcomeView { error: Some(e.shown()), ..self },
        }
    }

    /// With all events taken in, in order.
    pub open spec fn with_all(self, events: Seq<QueryEventView>) -> QueryOutcomeView
        decreases events.len(),
    {
        if events.len() == 0 {
            self
        } else {
            self.with_all(events.drop_last()).with(events.last())
        }
    }
}

impl QueryOutcome {
    /// Nothing has come yet.
    pub fn new() -> (r: Self)
        ensures
            r.deep_view() == QueryOutcomeView::empty(),
    {
        let r = QueryOutcome {
            headers: Vec::new(),
            rows: Vec::new(),
            affected: 0,
            elapsed: Elapsed { secs: 0, nanos: 0 },
            error: None,
        };
        proof {
            assert(r.deep_view() =~= QueryOutcomeView::empty());
        }
        r
    }

    /// Takes in one event of the stream.
    pub fn absorb(&mut self, event: QueryEvent)
        ensures
            final(self).deep_view() == old(self).deep_view().with(event.deep_view()),
    {
        match event {
            QueryEvent::Columns(c) => {
                let mut names: Vec<String> = Vec::new();
                for i in 0..c.len()
                    invariant
                        names@.len() == i,
                        forall|j: int| 0 <= j < i ==> (#[trigger] names@[j])@ == c@[j].name@,
                {
                    names.push(c[i].name.clone());
                }
                self.headers = names;
                proof {
                    assert(self.headers.deep_view() =~= c.deep_view().map_values(
                        |m: ColumnMetaView| m.name,
                    ));
                }
            },
            QueryEvent::Rows(r) => {
                let mut r = r;
                let ghost more = r.deep_view();
                let ghost before = self.rows.deep_view();
                self.rows.append(&mut r);
                proof {
                    assert(self.rows.deep_view() =~= before + more);
                }
            },
            QueryEvent::Done { affected, elapsed } => {
                self.affected = affected;
                self.elapsed = elapsed;
            },
            QueryEvent::Failed(e) => {
                self.error = Some(e.message());
            },
        }
    }
}

/// Gathering the events of a submission gives the rows that the server sent, all of
/// them and in order.
pub proof fn law_gathered_rows(msgs: Seq<(ServerMessageView, Elapsed)>)
    ensures
        QueryOutcomeView::empty().with_all(QueryRunView::start().run(msgs)).rows == rows_sent(msgs),
{
    law_every_row_is_handed_on(QueryRunView::start(), msgs);
    lemma_gathered(QueryOutcomeView::empty(), QueryRunView::start().run(msgs));
    assert(QueryRunView::start().batch + rows_sent(msgs) =~= rows_sent(msgs));
    assert(Seq::<Seq<Cell>>::empty() + rows_sent(msgs) =~= rows_sent(msgs));
}

proof fn lemma_gathered(out: QueryOutcomeView, events: Seq<QueryEventView>)
    ensures
        out.with_all(events).rows == out.rows + rows_of(events),
    decreases events.len(),
{
    if events.len() == 0 {
        assert(out.rows + rows_of(events) =~= out.rows);
    } else {
        lemma_gathered(out, events.drop_last());
        assert(out.with_all(events).rows =~= out.rows + rows_of(events));
    }
}

} // verus!
