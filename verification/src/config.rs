//! Connection configuration.

use tokio_postgres::config::SslMode as PgSslMode;
use vstd::prelude::*;
use crate::dup::Duplicate;
use crate::text::decimal;

verus! {

/// How TLS is used on a connection.
#[derive(Debug, Clone, Copy, PartialEq, Eq, Structural)]
pub enum SslMode {
    /// Never use TLS.
    Disable,
    /// Use TLS if the server supports it, but do not verify (default).
    Prefer,
    /// Require TLS, but do not verify the server certificate.
    Require,
    /// Require TLS and verify the certificate chain against trusted roots.
    VerifyCa,
    /// Like `VerifyCa`, and also verify the server hostname.
    VerifyFull,
}

impl Default for SslMode {
    fn default() -> (r: Self)
        ensures
            r == SslMode::Prefer,
    {
        SslMode::Prefer
    }
}

/// The TLS mode of `tokio_postgres`.
#[verifier::external_type_specification]
pub struct ExPgSslMode(PgSslMode);

impl SslMode {
    /// Whether the certificate chain must be validated.
    pub open spec fn must_verify(self) -> bool {
        self == SslMode::VerifyCa || self == SslMode::VerifyFull
    }

    /// The mode of the transport.
    pub open spec fn transport_mode(self) -> PgSslMode {
        match self {
            SslMode::Disable => PgSslMode::Disable,
            SslMode::Prefer => PgSslMode::Prefer,
            _ => PgSslMode::Require,
        }
    }

    /// Whether the certificate chain / hostname must be validated.
    pub fn verifies(self) -> (r: bool)
        ensures
            r == self.must_verify(),
    {
        matches!(self, SslMode::VerifyCa | SslMode::VerifyFull)
    }

    /// The transport-level mode. Certificate verification is enforced separately.
    pub fn transport(self) -> (r: PgSslMode)
        ensures
            r == self.transport_mode(),
    {
        match self {
            SslMode::Disable => PgSslMode::Disable,
            SslMode::Prefer => PgSslMode::Prefer,
            SslMode::Require | SslMode::VerifyCa | SslMode::VerifyFull => PgSslMode::Require,
        }
    }
}

/// Where the certificate is verified, the transport does not fall back to an unencrypted
/// connection.
pub proof fn law_verification_needs_tls(mode: SslMode)
    ensures
        mode.must_verify() ==> mode.transport_mode() == PgSslMode::Require,
{
}

/// A path of the file system, carried through.
#[verifier::external_type_specification]
#[verifier::external_body]
pub struct ExPathBuf(std::path::PathBuf);

/// What is needed to reach a database.
#[derive(Debug, Clone)]
pub struct ConnectionConfig {
    /// User-facing label for this data source.
    pub name: String,
    pub host: String,
    pub port: u16,
    pub dbname: String,
    pub user: String,
    pub ssl_mode: SslMode,
    /// Optional PEM file of trusted root certificates (for `VerifyCa`/`VerifyFull`).
    pub root_cert: Option<std::path::PathBuf>,
    /// Known while the program runs only, never stored.
    pub password: Option<String>,
}

/// What a [`ConnectionConfig`] says.
pub struct ConnectionConfigView {
    pub name: Seq<char>,
    pub host: Seq<char>,
    pub port: u16,
    pub dbname: Seq<char>,
    pub user: Seq<char>,
    pub ssl_mode: SslMode,
    pub root_cert: Option<std::path::PathBuf>,
    pub password: Option<Seq<char>>,
}

impl DeepView for ConnectionConfig {
    type V = ConnectionConfigView;

    open spec fn deep_view(&self) -> ConnectionConfigView {
        ConnectionConfigView {
            name: self.name@,
            host: self.host@,
            port: self.port,
            dbname: self.dbname@,
            user: self.user@,
            ssl_mode: self.ssl_mode,
            root_cert: self.root_cert,
            password: self.password.deep_view(),
        }
    }
}

/// `PathBuf::clone`: the same path.
pub assume_specification[ <std::path::PathBuf as Clone>::clone ](
    p: &std::path::PathBuf,
) -> (r: std::path::PathBuf)
    ensures
        r == *p,
;

impl Duplicate for ConnectionConfig {
    fn dup(&self) -> (r: Self) {
        ConnectionConfig {
            name: self.name.clone(),
            host: self.host.clone(),
            port: self.port,
            dbname: self.dbname.clone(),
            user: self.user.clone(),
            ssl_mode: self.ssl_mode,
            root_cert: match &self.root_cert {
                Some(p) => Some(p.clone()),
                None => None,
            },
            password: self.password.dup(),
        }
    }
}

/// The port that a PostgreSQL server listens on unless told otherwise.
pub fn default_port() -> (r: u16)
    ensures
        r == 5432,
{
    5432
}

/// The settings of a configuration of `tokio_postgres`, under the keys of a connection
/// string. `sslmode` always has a value; another key that was not set is not in the map.
/// `host` and `port` list what was added, in order, the others hold one value.
pub uninterp spec fn pg_settings(c: tokio_postgres::Config) -> Map<Seq<char>, Seq<Seq<char>>>;

/// The configuration of `tokio_postgres`.
#[verifier::external_type_specification]
#[verifier::external_body]
pub struct ExPgConfig(tokio_postgres::Config);

/// The settings of a configuration on which nothing has been set.
pub open spec fn nothing_set() -> Map<Seq<char>, Seq<Seq<char>>> {
    map!["sslmode"@ => seq!["prefer"@]]
}

/// The values that stand under a key, none where it was not set.
pub open spec fn values_of(m: Map<Seq<char>, Seq<Seq<char>>>, key: Seq<char>) -> Seq<Seq<char>> {
    if m.dom().contains(key) {
        m[key]
    } else {
        Seq::empty()
    }
}

/// The word for a TLS mode in a connection string.
pub open spec fn sslmode_word(mode: PgSslMode) -> Seq<char> {
    match mode {
        PgSslMode::Disable => "disable"@,
        PgSslMode::Prefer => "prefer"@,
        _ => "require"@,
    }
}

/// `tokio_postgres::Config::new`: nothing has been set, and the TLS mode is its default,
/// `prefer`.
#[verifier::external_body]
fn pg_new() -> (r: tokio_postgres::Config)
    ensures
        pg_settings(r) == nothing_set(),
{
    tokio_postgres::Config::new()
}

/// `tokio_postgres::Config::host`: adds a host behind those that are there.
#[verifier::external_body]
fn pg_host(c: &mut tokio_postgres::Config, host: &str)
    ensures
        pg_settings(*final(c)) == pg_settings(*old(c)).insert(
            "host"@,
            values_of(pg_settings(*old(c)), "host"@).push(host@),
        ),
{
    c.host(host);
}

/// `tokio_postgres::Config::port`: adds a port behind those that are there.
#[verifier::external_body]
fn pg_port(c: &mut tokio_postgres::Config, port: u16)
    ensures
        pg_settings(*final(c)) == pg_settings(*old(c)).insert(
            "port"@,
            values_of(pg_settings(*old(c)), "port"@).push(decimal(port as nat)),
        ),
{
    c.port(port);
}

/// `tokio_postgres::Config::dbname`: sets the database.
#[verifier::external_body]
fn pg_dbname(c: &mut tokio_postgres::Config, dbname: &str)
    ensures
        pg_settings(*final(c)) == pg_settings(*old(c)).insert("dbname"@, seq![dbname@]),
{
    c.dbname(dbname);
}

/// `tokio_postgres::Config::user`: sets the user.
#[verifier::external_body]
fn pg_user(c: &mut tokio_postgres::Config, user: &str)
    ensures
        pg_settings(*final(c)) == pg_settings(*old(c)).insert("user"@, seq![user@]),
{
    c.user(user);
}

/// `tokio_postgres::Config::application_name`: sets the name that the server sees.
#[verifier::external_body]
fn pg_application_name(c: &mut tokio_postgres::Config, name: &str)
    ensures
        pg_settings(*final(c)) == pg_settings(*old(c)).insert("application_name"@, seq![name@]),
{
    c.application_name(name);
}

/// `tokio_postgres::Config::ssl_mode`: sets the TLS mode.
#[verifier::external_body]
fn pg_ssl_mode(c: &mut tokio_postgres::Config, mode: PgSslMode)
    ensures
        pg_settings(*final(c)) == pg_settings(*old(c)).insert("sslmode"@, seq![sslmode_word(mode)]),
{
    c.ssl_mode(mode);
}

/// `tokio_postgres::Config::password`: sets the password.
#[verifier::external_body]
fn pg_password(c: &mut tokio_postgres::Config, password: &str)
    ensures
        pg_settings(*final(c)) == pg_settings(*old(c)).insert("password"@, seq![password@]),
{
    c.password(password);
}

impl ConnectionConfigView {
    /// A configuration with the standard port, the default TLS mode and no secrets.
    pub open spec fn basic(
        name: Seq<char>,
        host: Seq<char>,
        dbname: Seq<char>,
        user: Seq<char>,
    ) -> ConnectionConfigView {
        ConnectionConfigView {
            name,
            host,
            port: 5432,
            dbname,
            user,
            ssl_mode: SslMode::Prefer,
            root_cert: None,
            password: None,
        }
    }

    /// The settings handed to `tokio_postgres`: one host with one port, the database,
    /// the user, the TLS mode of the transport, this program's name, and the password
    /// where there is one.
    pub open spec fn settings(self) -> Map<Seq<char>, Seq<Seq<char>>> {
        let base = map![
            "host"@ => seq![self.host],
            "port"@ => seq![decimal(self.port as nat)],
            "dbname"@ => seq![self.dbname],
            "user"@ => seq![self.user],
            "application_name"@ => seq!["zdb"@],
            "sslmode"@ => seq![sslmode_word(self.ssl_mode.transport_mode())]
        ];
        match self.password {
            Some(pw) => base.insert("password"@, seq![pw]),
            None => base,
        }
    }
}

impl ConnectionConfig {
    /// Minimal configuration.
    pub fn new(name: &str, host: &str, dbname: &str, user: &str) -> (r: Self)
        ensures
            r.deep_view() == ConnectionConfigView::basic(name@, host@, dbname@, user@),
    {
        ConnectionConfig {
            name: name.to_owned(),
            host: host.to_owned(),
            port: default_port(),
            dbname: dbname.to_owned(),
            user: user.to_owned(),
            ssl_mode: SslMode::default(),
            root_cert: None,
            password: None,
        }
    }

    /// The `tokio_postgres` connection configuration, without the TLS connector.
    pub fn to_pg_config(&self) -> (r: tokio_postgres::Config)
        ensures
            pg_settings(r) == self.deep_view().settings(),
    {
        let mut cfg = pg_new();
        pg_host(&mut cfg, self.host.as_str());
        pg_port(&mut cfg, self.port);
        pg_dbname(&mut cfg, self.dbname.as_str());
        pg_user(&mut cfg, self.user.as_str());
        pg_application_name(&mut cfg, "zdb");
        pg_ssl_mode(&mut cfg, self.ssl_mode.transport());
        proof {
            reveal_strlit("host");
            reveal_strlit("port");
            assert("host"@[0] != "port"@[0]);
        }
        if let Some(pw) = &self.password {
            pg_password(&mut cfg, pw.as_str());
        }
        cfg
    }
}

} // verus!
