//! Settings: saved connections, theme and key bindings. Passwords are never part of
//! them.

use vstd::hash_map::StringHashMap;
use vstd::prelude::*;
use crate::config::{ConnectionConfig, ConnectionConfigView, SslMode};
use crate::dup::Duplicate;
use crate::text::{contains, has_part, lowercase, parse_number, parsed, to_lower, trim, trimmed};

verus! {

/// The colour scheme.
#[derive(Debug, Clone, Copy, PartialEq, Eq, Structural)]
pub enum Theme {
    /// White scheme (default).
    Light,
    /// Black scheme.
    Dark,
}

impl Default for Theme {
    fn default() -> (r: Self)
        ensures
            r == Theme::Light,
    {
        Theme::Light
    }
}

/// A saved connection.
#[derive(Debug, Clone)]
pub struct ConnectionEntry {
    pub name: String,
    pub host: String,
    pub port: u16,
    pub dbname: String,
    pub user: String,
    /// One of: disable, prefer, require, verify-ca, verify-full.
    pub ssl_mode: String,
}

/// What a [`ConnectionEntry`] says.
pub struct ConnectionEntryView {
    pub name: Seq<char>,
    pub host: Seq<char>,
    pub port: u16,
    pub dbname: Seq<char>,
    pub user: Seq<char>,
    pub ssl_mode: Seq<char>,
}

impl DeepView for ConnectionEntry {
    type V = ConnectionEntryView;

    open spec fn deep_view(&self) -> ConnectionEntryView {
        ConnectionEntryView {
            name: self.name@,
            host: self.host@,
            port: self.port,
            dbname: self.dbname@,
            user: self.user@,
            ssl_mode: self.ssl_mode@,
        }
    }
}

impl Duplicate for ConnectionEntry {
    fn dup(&self) -> (r: Self) {
        ConnectionEntry {
            name: self.name.clone(),
            host: self.host.clone(),
            port: self.port,
            dbname: self.dbname.clone(),
            user: self.user.clone(),
            ssl_mode: self.ssl_mode.clone(),
        }
    }
}

/// A key for an action, in place of the built-in one.
#[derive(Debug, Clone)]
pub struct KeyBindingEntry {
    pub action: String,
    pub key: String,
}

/// What a [`KeyBindingEntry`] says.
pub struct KeyBindingEntryView {
    pub action: Seq<char>,
    pub key: Seq<char>,
}

impl DeepView for KeyBindingEntry {
    type V = KeyBindingEntryView;

    open spec fn deep_view(&self) -> KeyBindingEntryView {
        KeyBindingEntryView { action: self.action@, key: self.key@ }
    }
}

impl Duplicate for KeyBindingEntry {
    fn dup(&self) -> (r: Self) {
        KeyBindingEntry { action: self.action.clone(), key: self.key.clone() }
    }
}

/// Everything that is kept between two runs of the program.
#[derive(Debug, Clone)]
pub struct Settings {
    pub connections: Vec<ConnectionEntry>,
    pub theme: Theme,
    /// Key bindings that replace the built-in ones, by action (e.g. "run").
    pub keymap: Vec<KeyBindingEntry>,
}

/// What [`Settings`] say.
#[verifier::ext_equal]
pub struct SettingsView {
    pub connections: Seq<ConnectionEntryView>,
    pub theme: Theme,
    pub keymap: Seq<KeyBindingEntryView>,
}

impl DeepView for Settings {
    type V = SettingsView;

    open spec fn deep_view(&self) -> SettingsView {
        SettingsView {
            connections: self.connections.deep_view(),
            theme: self.theme,
            keymap: self.keymap.deep_view(),
        }
    }
}

impl Duplicate for Settings {
    fn dup(&self) -> (r: Self) {
        Settings {
            connections: self.connections.dup(),
            theme: self.theme,
            keymap: self.keymap.dup(),
        }
    }
}

impl SettingsView {
    /// No connections, the white scheme, the built-in keys.
    pub open spec fn standard() -> SettingsView {
        SettingsView { connections: Seq::empty(), theme: Theme::Light, keymap: Seq::empty() }
    }
}

impl Default for Settings {
    fn default() -> (r: Self)
        ensures
            r.deep_view() == SettingsView::standard(),
    {
        let r = Settings { connections: Vec::new(), theme: Theme::Light, keymap: Vec::new() };
        proof {
            assert(r.deep_view() =~= SettingsView::standard());
        }
        r
    }
}

/// The TLS mode of a saved connection that names none.
pub fn default_ssl() -> (r: String)
    ensures
        r@ == "prefer"@,
{
    "prefer".to_owned()
}

impl ConnectionEntry {
    /// A saved connection as it stands in the file. A port or a TLS mode that the file does
    /// not name is the standard one.
    pub fn filled(
        name: String,
        host: String,
        port: Option<u16>,
        dbname: String,
        user: String,
        ssl_mode: Option<String>,
    ) -> (r: Self)
        ensures
            r.deep_view() == (ConnectionEntryView {
                name: name@,
                host: host@,
                port: match port {
                    Some(p) => p,
                    None => 5432,
                },
                dbname: dbname@,
                user: user@,
                ssl_mode: match ssl_mode {
                    Some(s) => s@,
                    None => "prefer"@,
                },
            }),
    {
        ConnectionEntry {
            name,
            host,
            port: match port {
                Some(p) => p,
                None => 5432,
            },
            dbname,
            user,
            ssl_mode: match ssl_mode {
                Some(s) => s,
                None => default_ssl(),
            },
        }
    }
}

impl Settings {
    /// Settings as they stand in the file. What the file does not name is the standard one.
    pub fn filled(
        connections: Option<Vec<ConnectionEntry>>,
        theme: Option<Theme>,
        keymap: Option<Vec<KeyBindingEntry>>,
    ) -> (r: Self)
        ensures
            r.deep_view() == (SettingsView {
                connections: match connections {
                    Some(c) => c.deep_view(),
                    None => Seq::empty(),
                },
                theme: match theme {
                    Some(t) => t,
                    None => Theme::Light,
                },
                keymap: match keymap {
                    Some(k) => k.deep_view(),
                    None => Seq::empty(),
                },
            }),
    {
        let mut r = Settings::default();
        if let Some(c) = connections {
            r.connections = c;
        }
        if let Some(t) = theme {
            r.theme = t;
        }
        if let Some(k) = keymap {
            r.keymap = k;
        }
        r
    }

    /// The settings to start with, given what the settings file holds: the standard ones
    /// where there is no file. Fails only on a file that is there and cannot be used.
    pub fn load(file: Option<Result<Settings, String>>) -> (r: Result<Settings, String>)
        ensures
            (match file {
                Some(found) => r == found,
                None => r is Ok && r->Ok_0.deep_view() == SettingsView::standard(),
            }),
    {
        match file {
            Some(found) => found,
            None => Ok(Settings::default()),
        }
    }

    /// What to write and where, given the path of the settings file: nothing can be saved
    /// on a system without a directory for it.
    pub fn save(&self, path: Option<String>) -> (r: Result<(String, Settings), String>)
        ensures
            (match path {
                Some(p) => r is Ok && r->Ok_0.0 == p && r->Ok_0.1.deep_view() == self.deep_view(),
                None => r is Err && r->Err_0@ == "no config directory available"@,
            }),
    {
        match path {
            Some(p) => Ok((p, self.dup())),
            None => Err("no config directory available".to_owned()),
        }
    }
}

/// The TLS mode that a word stands for. White space round it does not count; a word that
/// stands for none means the default.
pub open spec fn mode_of(word: Seq<char>) -> SslMode {
    let w = trim(word);
    if w == "disable"@ {
        SslMode::Disable
    } else if w == "require"@ {
        SslMode::Require
    } else if w == "verify-ca"@ {
        SslMode::VerifyCa
    } else if w == "verify-full"@ {
        SslMode::VerifyFull
    } else {
        SslMode::Prefer
    }
}

/// The TLS mode that a word stands for.
pub fn ssl_from_str(s: &str) -> (r: SslMode)
    ensures
        r == mode_of(s@),
{
    let w = trimmed(s);
    if *w.as_str() == *"disable" {
        SslMode::Disable
    } else if *w.as_str() == *"require" {
        SslMode::Require
    } else if *w.as_str() == *"verify-ca" {
        SslMode::VerifyCa
    } else if *w.as_str() == *"verify-full" {
        SslMode::VerifyFull
    } else {
        SslMode::Prefer
    }
}

impl ConnectionEntryView {
    /// The configuration for a saved connection.
    pub open spec fn config(self, password: Option<Seq<char>>) -> ConnectionConfigView {
        ConnectionConfigView {
            port: self.port,
            ssl_mode: mode_of(self.ssl_mode),
            password,
            ..ConnectionConfigView::basic(self.name, self.host, self.dbname, self.user)
        }
    }
}

/// The configuration for a saved connection.
pub fn entry_to_config(entry: &ConnectionEntry, password: Option<String>) -> (r: ConnectionConfig)
    ensures
        r.deep_view() == entry.deep_view().config(password.deep_view()),
{
    let mut cfg = ConnectionConfig::new(
        entry.name.as_str(),
        entry.host.as_str(),
        entry.dbname.as_str(),
        entry.user.as_str(),
    );
    cfg.port = entry.port;
    cfg.ssl_mode = ssl_from_str(entry.ssl_mode.as_str());
    cfg.password = password;
    cfg
}

/// The environment variables that a development connection is made from.
pub struct EnvConnection {
    pub host: Option<String>,
    pub user: Option<String>,
    pub dbname: Option<String>,
    pub password: Option<String>,
    pub port: Option<String>,
    pub ssl_disable: bool,
}

impl EnvConnection {
    /// The configuration that the variables describe: none without a host. The user is
    /// `postgres` unless named, the database is named like the user unless named, and a
    /// port that is no number is ignored.
    pub open spec fn described(self) -> Option<ConnectionConfigView> {
        match self.host {
            None => None,
            Some(host) => {
                let user = match self.user {
                    Some(u) => u@,
                    None => "postgres"@,
                };
                let dbname = match self.dbname {
                    Some(d) => d@,
                    None => user,
                };
                Some(
                    ConnectionConfigView {
                        password: self.password.deep_view(),
                        port: match self.port {
                            Some(p) => match parsed(p@, u16::MAX as nat) {
                                Some(n) => n as u16,
                                None => 5432,
                            },
                            None => 5432,
                        },
                        ssl_mode: if self.ssl_disable {
                            SslMode::Disable
                        } else {
                            SslMode::Prefer
                        },
                        ..ConnectionConfigView::basic("dev"@, host@, dbname, user)
                    },
                )
            },
        }
    }
}

/// The configuration for connecting at once, from the `ZDB_*` environment variables.
pub fn config_from_env(vars: EnvConnection) -> (r: Option<ConnectionConfig>)
    ensures
        r.deep_view() == vars.described(),
{
    match vars.host {
        None => None,
        Some(host) => {
            let user = match vars.user {
                Some(u) => u,
                None => "postgres".to_owned(),
            };
            let dbname = match vars.dbname {
                Some(d) => d,
                None => user.clone(),
            };
            let mut cfg = ConnectionConfig::new(
                "dev",
                host.as_str(),
                dbname.as_str(),
                user.as_str(),
            );
            cfg.password = vars.password;
            if let Some(p) = &vars.port {
                if let Some(n) = parse_number(p.as_str(), 65535) {
                    cfg.port = n as u16;
                }
            }
            if vars.ssl_disable {
                cfg.ssl_mode = SslMode::Disable;
            }
            Some(cfg)
        },
    }
}

/// Whether the program runs under WSL: its variable is set, or the kernel's release names
/// Microsoft, in whatever case.
pub fn is_wsl(distro_set: bool, osrelease: Option<String>) -> (r: bool)
    ensures
        r == (distro_set || (osrelease is Some && has_part(
            lowercase(osrelease->0@),
            "microsoft"@,
        ))),
{
    if distro_set {
        return true;
    }
    match osrelease {
        Some(s) => mentions_microsoft(to_lower(s.as_str()).as_str()),
        None => false,
    }
}

/// Whether a kernel release, in lower case, names Microsoft.
pub fn mentions_microsoft(release: &str) -> (r: bool)
    ensures
        r == has_part(release@, "microsoft"@),
{
    contains(release, "microsoft")
}

/// How often the password of each connection was read from the keychain.
pub struct PasswordProbe {
    calls: StringHashMap<usize>,
}

impl PasswordProbe {
    /// The reads so far, by connection name; a name that is not in the map has none.
    pub closed spec fn reads(&self) -> Map<Seq<char>, usize> {
        self.calls@
    }

    /// The number of reads so far for a connection.
    pub open spec fn count(&self, name: Seq<char>) -> usize {
        if self.reads().dom().contains(name) {
            self.reads()[name]
        } else {
            0
        }
    }

    /// Nothing has been read.
    pub fn new() -> (r: Self)
        ensures
            forall|name: Seq<char>| #[trigger] r.count(name) == 0,
    {
        PasswordProbe { calls: StringHashMap::new() }
    }

    /// Counts one more read.
    pub fn record(&mut self, name: &str)
        requires
            old(self).count(name@) < usize::MAX,
        ensures
            final(self).count(name@) == old(self).count(name@) + 1,
            forall|other: Seq<char>|
                other != name@ ==> #[trigger] final(self).count(other) == old(self).count(other),
    {
        let n = self.get_password_calls(name);
        self.calls.insert(name.to_owned(), n + 1);
    }

    /// How often the password of a connection has been read so far.
    pub fn get_password_calls(&self, name: &str) -> (r: usize)
        ensures
            r == self.count(name@),
    {
        match self.calls.get(name) {
            Some(n) => *n,
            None => 0,
        }
    }
}

} // verus!
