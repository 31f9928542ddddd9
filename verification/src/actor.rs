//! The connections that the database worker keeps, and what it answers.

use std::collections::HashMap;
use vstd::prelude::*;
use crate::config::ConnectionConfig;
use crate::edit::{batch_text, build_batch, first_fault, EditTarget, RowEdit};
use crate::error::DbError;
use crate::introspect::IntrospectKind;
use crate::types::ConnId;

verus! {

/// The open connections, by identifier. `C` is whatever the worker keeps of one.
pub struct Registry<C> {
    conns: HashMap<u64, C>,
    next_id: u64,
}

impl<C> Registry<C> {
    /// The open connections.
    pub closed spec fn open(&self) -> Map<u64, C> {
        self.conns@
    }

    /// The identifier that the next connection gets.
    pub closed spec fn next(&self) -> u64 {
        self.next_id
    }

    /// Identifiers that have not been given out belong to no connection.
    pub open spec fn valid(&self) -> bool {
        &&& self.next() >= 1
        &&& forall|id: u64| #[trigger] self.open().dom().contains(id) ==> 1 <= id < self.next()
    }

    /// No connection is open; the first one gets the identifier 1.
    pub fn new() -> (r: Self)
        ensures
            r.valid(),
            r.next() == 1,
            r.open() == Map::<u64, C>::empty(),
    {
        broadcast use vstd::std_specs::hash::group_hash_axioms;

        Registry { conns: HashMap::new(), next_id: 1 }
    }

    /// Whether there is an identifier left for another connection.
    pub fn has_room(&self) -> (r: bool)
        ensures
            r == (self.next() < u64::MAX),
    {
        self.next_id < u64::MAX
    }

    /// What came of an attempt to connect: a connection that was made is kept, under an
    /// identifier that no other one ever had.
    pub fn connected(&mut self, outcome: Result<C, DbError>) -> (r: Result<ConnId, DbError>)
        requires
            old(self).valid(),
            old(self).next() < u64::MAX,
        ensures
            final(self).valid(),
            (match outcome {
                Ok(c) => {
                    &&& r == Ok::<ConnId, DbError>(old(self).next())
                    &&& final(self).open() == old(self).open().insert(old(self).next(), c)
                    &&& final(self).next() == old(self).next() + 1
                },
                Err(e) => {
                    &&& r == Err::<ConnId, DbError>(e)
                    &&& final(self).open() == old(self).open()
                    &&& final(self).next() == old(self).next()
                },
            }),
    {
        broadcast use vstd::std_specs::hash::group_hash_axioms;

        match outcome {
            Ok(c) => {
                let id = self.next_id;
                self.next_id = id + 1;
                self.conns.insert(id, c);
                proof {
                    assert forall|k: u64| #[trigger] self.open().dom().contains(k) implies 1 <= k
                        < self.next() by {
                        if k != id {
                            assert(old(self).open().dom().contains(k));
                        }
                    }
                }
                Ok(id)
            },
            Err(e) => Err(e),
        }
    }

    /// The connection that a request is for, or the error to answer where there is none.
    pub fn lookup(&self, conn: ConnId) -> (r: Result<&C, DbError>)
        ensures
            (match r {
                Ok(c) => self.open().dom().contains(conn) && *c == self.open()[conn],
                Err(e) => !self.open().dom().contains(conn) && e == DbError::NoConnection(conn),
            }),
    {
        broadcast use vstd::std_specs::hash::group_hash_axioms;

        match self.conns.get(&conn) {
            Some(c) => Ok(c),
            None => Err(DbError::NoConnection(conn)),
        }
    }

    /// The connection to cancel on, if it is open. Nothing is answered to a cancellation.
    pub fn to_cancel(&self, conn: ConnId) -> (r: Option<&C>)
        ensures
            (match r {
                Some(c) => self.open().dom().contains(conn) && *c == self.open()[conn],
                None => !self.open().dom().contains(conn),
            }),
    {
        broadcast use vstd::std_specs::hash::group_hash_axioms;

        self.conns.get(&conn)
    }

    /// Closes and forgets a connection. One that is not open is left alone.
    pub fn disconnect(&mut self, conn: ConnId)
        requires
            old(self).valid(),
        ensures
            final(self).valid(),
            final(self).open() == old(self).open().remove(conn),
            final(self).next() == old(self).next(),
    {
        broadcast use vstd::std_specs::hash::group_hash_axioms;

        self.conns.remove(&conn);
        proof {
            assert forall|k: u64| #[trigger] self.open().dom().contains(k) implies 1 <= k
                < self.next() by {
                assert(old(self).open().dom().contains(k));
            }
        }
    }
}

/// A request to the worker.
pub enum Command {
    Connect { cfg: ConnectionConfig },
    Query { conn: ConnId, sql: String },
    Introspect { conn: ConnId, kind: IntrospectKind },
    Apply { conn: ConnId, batch: String },
    Describe { conn: ConnId, sql: String },
    Cancel { conn: ConnId },
    Disconnect { conn: ConnId },
}

/// What the worker does about a request.
pub enum Work {
    /// Do what was asked for, on its connection if it names one.
    Do { command: Command },
    /// Answer with an error.
    Refuse { error: DbError },
    /// Nothing is left to do.
    Nothing,
}

/// The connection that has to be open for a request to be answered otherwise than by an
/// error.
pub open spec fn needed(command: Command) -> Option<ConnId> {
    match command {
        Command::Query { conn, .. } => Some(conn),
        Command::Introspect { conn, .. } => Some(conn),
        Command::Apply { conn, .. } => Some(conn),
        Command::Describe { conn, .. } => Some(conn),
        _ => None,
    }
}

impl<C> Registry<C> {
    /// What is done about a request.
    pub open spec fn work(&self, command: Command) -> Work {
        match command {
            Command::Connect { .. } => Work::Do { command },
            Command::Cancel { conn } => if self.open().dom().contains(conn) {
                Work::Do { command }
            } else {
                Work::Nothing
            },
            Command::Disconnect { .. } => Work::Nothing,
            _ => {
                let conn = needed(command)->0;
                if self.open().dom().contains(conn) {
                    Work::Do { command }
                } else {
                    Work::Refuse { error: DbError::NoConnection(conn) }
                }
            },
        }
    }

    /// Decides what is done about a request. A connection that is to be closed is forgotten
    /// at once; no other request changes the open connections.
    pub fn dispatch(&mut self, command: Command) -> (r: Work)
        requires
            old(self).valid(),
        ensures
            r == old(self).work(command),
            final(self).valid(),
            final(self).next() == old(self).next(),
            final(self).open() == (match command {
                Command::Disconnect { conn } => old(self).open().remove(conn),
                _ => old(self).open(),
            }),
    {
        let conn: ConnId = match &command {
            Command::Connect { .. } => {
                return Work::Do { command };
            },
            Command::Disconnect { conn } => {
                self.disconnect(*conn);
                return Work::Nothing;
            },
            Command::Cancel { conn } => {
                if self.to_cancel(*conn).is_none() {
                    return Work::Nothing;
                }
                return Work::Do { command };
            },
            Command::Query { conn, .. } => *conn,
            Command::Introspect { conn, .. } => *conn,
            Command::Apply { conn, .. } => *conn,
            Command::Describe { conn, .. } => *conn,
        };
        match self.lookup(conn) {
            Ok(_) => Work::Do { command },
            Err(error) => Work::Refuse { error },
        }
    }
}

/// The request that applies edits in one transaction: none where there is nothing to
/// apply, and the error of the first edit that has no statement.
pub fn apply_request(conn: ConnId, target: &EditTarget, edits: &[RowEdit]) -> (r: Result<
    Option<Command>,
    DbError,
>)
    ensures
        (match r {
            Ok(None) => edits@.len() == 0,
            Ok(Some(c)) => edits@.len() > 0 && first_fault(
                target.deep_view(),
                edits.deep_view(),
            ) is None && (c matches Command::Apply { conn: on, batch } && on == conn && batch@
                == batch_text(target.deep_view(), edits.deep_view())),
            Err(e) => e.deep_view() is Query && first_fault(target.deep_view(), edits.deep_view())
                == Some(e.deep_view()->Query_0),
        }),
{
    match build_batch(target, edits) {
        Ok(None) => Ok(None),
        Ok(Some(batch)) => Ok(Some(Command::Apply { conn, batch })),
        Err(e) => Err(e),
    }
}

/// What has to be run after an edit batch: a failed one is rolled back, so that the
/// connection does not stay in a failed transaction.
pub fn after_batch(ok: bool) -> (r: Option<&'static str>)
    ensures
        (match r {
            Some(sql) => !ok && sql@ == "ROLLBACK"@,
            None => ok,
        }),
{
    if ok {
        None
    } else {
        Some("ROLLBACK")
    }
}

} // verus!
