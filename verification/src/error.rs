//! Errors of the data layer.

use vstd::prelude::*;
use crate::dup::Duplicate;
use crate::text::{decimal, decimal_text};
use crate::types::ConnId;

verus! {

/// What can go wrong between the client and the server.
#[derive(Debug, Clone)]
pub enum DbError {
    /// The connection could not be made.
    Connect(String),
    /// A structured error raised by the server.
    Postgres {
        message: String,
        /// SQLSTATE code, e.g. `42P01` (undefined_table).
        code: Option<String>,
        /// 1-based character offset into the submitted SQL, when supplied.
        position: Option<u32>,
        detail: Option<String>,
        hint: Option<String>,
    },
    /// A client-side or protocol error without an error of the server in it.
    Query(String),
    /// The TLS configuration cannot be used.
    Tls(String),
    /// There is no connection with this identifier.
    NoConnection(ConnId),
    /// The worker that talks to the server has stopped.
    WorkerGone,
}

/// What a [`DbError`] says.
pub enum DbErrorView {
    Connect(Seq<char>),
    Postgres {
        message: Seq<char>,
        code: Option<Seq<char>>,
        position: Option<u32>,
        detail: Option<Seq<char>>,
        hint: Option<Seq<char>>,
    },
    Query(Seq<char>),
    Tls(Seq<char>),
    NoConnection(ConnId),
    WorkerGone,
}

impl DeepView for DbError {
    type V = DbErrorView;

    open spec fn deep_view(&self) -> DbErrorView {
        match self {
            DbError::Connect(s) => DbErrorView::Connect(s@),
            DbError::Postgres { message, code, position, detail, hint } => DbErrorView::Postgres {
                message: message@,
                code: code.deep_view(),
                position: *position,
                detail: detail.deep_view(),
                hint: hint.deep_view(),
            },
            DbError::Query(s) => DbErrorView::Query(s@),
            DbError::Tls(s) => DbErrorView::Tls(s@),
            DbError::NoConnection(id) => DbErrorView::NoConnection(*id),
            DbError::WorkerGone => DbErrorView::WorkerGone,
        }
    }
}

impl DbErrorView {
    /// The text of an error as it is shown to the user.
    pub open spec fn shown(self) -> Seq<char> {
        match self {
            DbErrorView::Connect(s) => "connection failed: "@ + s,
            DbErrorView::Postgres { message, .. } => message,
            DbErrorView::Query(s) => "query failed: "@ + s,
            DbErrorView::Tls(s) => "TLS configuration error: "@ + s,
            DbErrorView::NoConnection(id) => "no such connection: "@ + decimal(id as nat),
            DbErrorView::WorkerGone => "database worker stopped"@,
        }
    }
}

impl Duplicate for DbError {
    fn dup(&self) -> (r: Self) {
        match self {
            DbError::Connect(s) => DbError::Connect(s.clone()),
            DbError::Postgres { message, code, position, detail, hint } => DbError::Postgres {
                message: message.clone(),
                code: code.dup(),
                position: *position,
                detail: detail.dup(),
                hint: hint.dup(),
            },
            DbError::Query(s) => DbError::Query(s.clone()),
            DbError::Tls(s) => DbError::Tls(s.clone()),
            DbError::NoConnection(id) => DbError::NoConnection(*id),
            DbError::WorkerGone => DbError::WorkerGone,
        }
    }
}

/// An error of `tokio_postgres`, carried through.
#[verifier::external_type_specification]
#[verifier::external_body]
pub struct ExPgError(tokio_postgres::Error);

/// Where the server found an error.
#[derive(Debug, Clone)]
pub enum Place {
    /// In the submitted SQL, at this 1-based character.
    Original(u32),
    /// In a query that the server made itself.
    Internal { position: u32, query: String },
}

/// What a [`Place`] says.
pub enum PlaceView {
    Original(u32),
    Internal { position: u32, query: Seq<char> },
}

impl DeepView for Place {
    type V = PlaceView;

    open spec fn deep_view(&self) -> PlaceView {
        match self {
            Place::Original(p) => PlaceView::Original(*p),
            Place::Internal { position, query } => PlaceView::Internal {
                position: *position,
                query: query@,
            },
        }
    }
}

/// What the server said about an error.
#[derive(Debug, Clone)]
pub struct ServerError {
    pub message: String,
    pub code: String,
    pub place: Option<Place>,
    pub detail: Option<String>,
    pub hint: Option<String>,
}

/// What a [`ServerError`] says.
pub struct ServerErrorView {
    pub message: Seq<char>,
    pub code: Seq<char>,
    pub place: Option<PlaceView>,
    pub detail: Option<Seq<char>>,
    pub hint: Option<Seq<char>>,
}

impl DeepView for ServerError {
    type V = ServerErrorView;

    open spec fn deep_view(&self) -> ServerErrorView {
        ServerErrorView {
            message: self.message@,
            code: self.code@,
            place: self.place.deep_view(),
            detail: self.detail.deep_view(),
            hint: self.hint.deep_view(),
        }
    }
}

/// The error of the server that an error of `tokio_postgres` holds, if it holds one.
pub uninterp spec fn server_said(err: tokio_postgres::Error) -> Option<ServerErrorView>;

/// `tokio_postgres::Error::as_db_error`, with what the error that it gives says of itself
/// (`message`, `code`, `position`, `detail`, `hint`), each moved into the field of its
/// name. All of it was read from the answer of the server when the error was made, and
/// depends on the error alone.
#[verifier::external_body]
fn server_error(err: &tokio_postgres::Error) -> (r: Option<ServerError>)
    ensures
        r.deep_view() == server_said(*err),
{
    let db = err.as_db_error()?;
    Some(ServerError {
        message: db.message().to_string(),
        code: db.code().code().to_string(),
        place: match db.position() {
            Some(tokio_postgres::error::ErrorPosition::Original(p)) => Some(Place::Original(*p)),
            Some(tokio_postgres::error::ErrorPosition::Internal { position, query }) => Some(
                Place::Internal { position: *position, query: query.clone() }),
            None => None,
        },
        detail: db.detail().map(str::to_string),
        hint: db.hint().map(str::to_string),
    })
}

/// The error that is reported for an error of the server (`Some`), or for an error of
/// the client with this text.
pub open spec fn reported(server: Option<ServerErrorView>, text: Seq<char>) -> DbErrorView {
    match server {
        Some(db) => DbErrorView::Postgres {
            message: db.message,
            code: Some(db.code),
            position: match db.place {
                Some(PlaceView::Original(p)) => Some(p),
                _ => None,
            },
            detail: db.detail,
            hint: db.hint,
        },
        None => DbErrorView::Query(text),
    }
}

impl DbError {
    /// The error as it is shown to the user.
    pub fn message(&self) -> (r: String)
        ensures
            r@ == self.deep_view().shown(),
    {
        match self {
            DbError::Connect(s) => "connection failed: ".to_owned().concat(s.as_str()),
            DbError::Postgres { message, .. } => message.clone(),
            DbError::Query(s) => "query failed: ".to_owned().concat(s.as_str()),
            DbError::Tls(s) => "TLS configuration error: ".to_owned().concat(s.as_str()),
            DbError::NoConnection(id) => "no such connection: ".to_owned().concat(
                decimal_text(*id).as_str(),
            ),
            DbError::WorkerGone => "database worker stopped".to_owned(),
        }
    }

    /// The error to report, from what the server said (if it said anything) and the
    /// text of the client's own error. Only a position in the submitted SQL is kept.
    pub fn from_server(server: Option<ServerError>, text: String) -> (r: Self)
        ensures
            r.deep_view() == reported(server.deep_view(), text@),
    {
        match server {
            Some(db) => {
                let position = match db.place {
                    Some(Place::Original(p)) => Some(p),
                    _ => None,
                };
                DbError::Postgres {
                    message: db.message,
                    code: Some(db.code),
                    position,
                    detail: db.detail,
                    hint: db.hint,
                }
            },
            None => DbError::Query(text),
        }
    }

    /// Converts an error of `tokio_postgres`, keeping what the server said where it said
    /// something. Another error is reported with the text that it shows itself with.
    pub fn from_pg(err: &tokio_postgres::Error) -> (r: Self)
        ensures
            exists|text: String|
                #[trigger] vstd::string::to_string_from_display_ensures::<tokio_postgres::Error>(
                    err,
                    text,
                ) && r.deep_view() == reported(server_said(*err), text@),
    {
        let server = server_error(err);
        let text = err.to_string();
        DbError::from_server(server, text)
    }
}

} // verus!
