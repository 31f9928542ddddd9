//! Connections of the window: connecting, switching, saving, and the settings dialog.

use vstd::prelude::*;
use crate::config::{ConnectionConfig, ConnectionConfigView};
use crate::dup::Duplicate;
use crate::error::{DbError, DbErrorView};
use crate::settings::{
    entry_to_config, ConnectionEntry, ConnectionEntryView, Settings, SettingsView, Theme,
};
use crate::text::{parse_number, parsed, trim, trimmed};
use crate::types::ConnId;
use crate::workspace::state::{
    password_of, Effect, EffectView, Passwords, QueryLog, SchemaTree, SchemaTreeView, Workspace,
    WorkspaceView,
};

verus! {

/// The texts in the form for a new connection.
pub struct ConnForm {
    pub name: String,
    pub host: String,
    pub port: String,
    pub user: String,
    pub db: String,
    pub password: String,
    pub ssl: String,
}

/// What a [`ConnForm`] says.
pub struct ConnFormView {
    pub name: Seq<char>,
    pub host: Seq<char>,
    pub port: Seq<char>,
    pub user: Seq<char>,
    pub db: Seq<char>,
    pub password: Seq<char>,
    pub ssl: Seq<char>,
}

impl DeepView for ConnForm {
    type V = ConnFormView;

    open spec fn deep_view(&self) -> ConnFormView {
        ConnFormView {
            name: self.name@,
            host: self.host@,
            port: self.port@,
            user: self.user@,
            db: self.db@,
            password: self.password@,
            ssl: self.ssl@,
        }
    }
}

impl ConnFormView {
    /// The form as it is first shown.
    pub open spec fn fresh() -> ConnFormView {
        ConnFormView {
            name: ""@,
            host: "127.0.0.1"@,
            port: "5432"@,
            user: ""@,
            db: ""@,
            password: ""@,
            ssl: "prefer"@,
        }
    }

    /// The connection that the form describes, where the texts that it needs are there. A
    /// port that is no port number is the standard one; without a word for TLS it is used
    /// where the server offers it.
    pub open spec fn entry(self) -> Option<ConnectionEntryView> {
        let name = trim(self.name);
        let host = trim(self.host);
        let user = trim(self.user);
        let dbname = trim(self.db);
        if name.len() == 0 || host.len() == 0 || user.len() == 0 || dbname.len() == 0 {
            None
        } else {
            Some(
                ConnectionEntryView {
                    name,
                    host,
                    port: match parsed(trim(self.port), u16::MAX as nat) {
                        Some(n) => n as u16,
                        None => 5432,
                    },
                    dbname,
                    user,
                    ssl_mode: if trim(self.ssl).len() == 0 {
                        "prefer"@
                    } else {
                        trim(self.ssl)
                    },
                },
            )
        }
    }
}

impl ConnForm {
    /// The form as it is first shown.
    pub fn new() -> (r: Self)
        ensures
            r.deep_view() == ConnFormView::fresh(),
    {
        ConnForm {
            name: "".to_owned(),
            host: "127.0.0.1".to_owned(),
            port: "5432".to_owned(),
            user: "".to_owned(),
            db: "".to_owned(),
            password: "".to_owned(),
            ssl: "prefer".to_owned(),
        }
    }

    /// The connection that the form describes.
    pub fn entry(&self) -> (r: Option<ConnectionEntry>)
        ensures
            r.deep_view() == self.deep_view().entry(),
    {
        let name = trimmed(self.name.as_str());
        let host = trimmed(self.host.as_str());
        let user = trimmed(self.user.as_str());
        let dbname = trimmed(self.db.as_str());
        if name.as_str().is_empty() || host.as_str().is_empty() || user.as_str().is_empty()
            || dbname.as_str().is_empty() {
            return None;
        }
        let port: u16 = match parse_number(trimmed(self.port.as_str()).as_str(), 65535) {
            Some(n) => n as u16,
            None => 5432,
        };
        let ssl = trimmed(self.ssl.as_str());
        let ssl_mode = if ssl.as_str().is_empty() {
            "prefer".to_owned()
        } else {
            ssl
        };
        Some(ConnectionEntry { name, host, port, dbname, user, ssl_mode })
    }
}

/// The saved connections without those of a name.
pub open spec fn without_name(
    entries: Seq<ConnectionEntryView>,
    name: Seq<char>,
) -> Seq<ConnectionEntryView>
    decreases entries.len(),
{
    if entries.len() == 0 {
        Seq::empty()
    } else {
        let front = without_name(entries.drop_last(), name);
        if entries.last().name == name {
            front
        } else {
            front.push(entries.last())
        }
    }
}

fn drop_name(entries: Vec<ConnectionEntry>, name: &String) -> (r: Vec<ConnectionEntry>)
    ensures
        r.deep_view() == without_name(entries.deep_view(), name@),
{
    let ghost ev = entries.deep_view();
    let mut r: Vec<ConnectionEntry> = Vec::new();
    proof {
        assert(r.deep_view() =~= without_name(ev.take(0), name@));
    }
    for e in it: entries
        invariant
            it.seq() == entries@,
            ev == entries.deep_view(),
            r.deep_view() == without_name(ev.take(it.index() as int), name@),
    {
        let ghost before = r.deep_view();
        proof {
            let k = it.index() as int;
            assert(ev.take(k + 1).drop_last() =~= ev.take(k));
            assert(ev.take(k + 1).last() == e.deep_view());
        }
        if !(e.name == *name) {
            r.push(e);
            proof {
                assert(r.deep_view() =~= before.push(e.deep_view()));
            }
        }
    }
    proof {
        assert(ev.take(ev.len() as int) =~= ev);
    }
    r
}

impl WorkspaceView {
    /// The window as it opens: with a connection to be made, or with the connection manager.
    pub open spec fn opened(
        settings: SettingsView,
        auto: Option<ConnectionConfigView>,
    ) -> WorkspaceView {
        let w = WorkspaceView::initial(settings, auto);
        match auto {
            Some(cfg) => (WorkspaceView {
                passwords: match cfg.password {
                    Some(pw) => w.passwords.insert(cfg.name, pw),
                    None => w.passwords,
                },
                ..w
            }).start_connect(cfg),
            None => WorkspaceView {
                conn_manager_open: true,
                conn_adding: settings.connections.len() == 0,
                ..w
            },
        }
    }

    /// A connection is asked for. Whatever comes of earlier attempts is not wanted any more.
    pub open spec fn start_connect(self, cfg: ConnectionConfigView) -> WorkspaceView {
        let attempt = self.attempt.wrapping_add(1);
        WorkspaceView { attempt, ..self }.with_status(
            "Connecting to "@ + cfg.name + "\u{2026}"@,
        ).with_effect(EffectView::Connect { attempt, cfg })
    }

    /// The connection in use is closed, unless it is this one.
    pub open spec fn without_conn(self, other_than: ConnId) -> WorkspaceView {
        match self.conn {
            Some(conn) => if conn == other_than {
                self
            } else {
                self.with_effect(EffectView::Disconnect { conn })
            },
            None => self,
        }
    }

    /// A connection was made, or could not be. `cfg` holds the password that was used. A
    /// connection that an earlier attempt made is closed at once; that of the latest one
    /// takes the place of the one in use.
    pub open spec fn connect_finished(
        self,
        attempt: u64,
        result: Result<ConnId, DbErrorView>,
        cfg: ConnectionConfigView,
    ) -> WorkspaceView {
        match result {
            Ok(conn) => if attempt != self.attempt {
                self.with_effect(EffectView::Disconnect { conn })
            } else {
                WorkspaceView { conn: Some(conn), ..self.without_conn(conn) }.with_status(
                    "Connected. Loading schemas\u{2026}"@,
                ).with_effect(EffectView::StartLsp { cfg }).load_schemas()
            },
            Err(e) => self.with_status("Connection failed: "@ + e.shown()),
        }
    }

    /// The schemas are loaded again, or a connection is made; without one to make, the
    /// connection manager is shown.
    pub open spec fn connect_or_refresh(self) -> WorkspaceView {
        if self.conn is Some {
            self.load_schemas()
        } else {
            match self.cfg {
                Some(cfg) => self.start_connect(cfg),
                None => WorkspaceView { conn_manager_open: true, ..self },
            }
        }
    }

    /// The connection manager is shown or hidden. It is shown with the form where no
    /// connection is saved.
    pub open spec fn toggle_connections(self) -> WorkspaceView {
        WorkspaceView {
            conn_manager_open: !self.conn_manager_open,
            conn_adding: if self.conn_manager_open {
                self.conn_adding
            } else {
                self.settings.connections.len() == 0
            },
            ..self
        }
    }

    /// The settings are shown or hidden.
    pub open spec fn toggle_settings(self) -> WorkspaceView {
        WorkspaceView { settings_open: !self.settings_open, ..self }
    }

    /// The colours are switched, and the choice is saved.
    pub open spec fn set_theme(self, theme: Theme) -> WorkspaceView {
        if self.settings.theme == theme {
            self
        } else {
            WorkspaceView {
                settings: SettingsView { theme, ..self.settings },
                ..self
            }.with_effect(EffectView::SetTheme { theme }).with_effect(
                EffectView::SaveSettings { report: true },
            )
        }
    }

    /// The choice of colours could not be saved.
    pub open spec fn theme_not_saved(self, reason: Seq<char>) -> WorkspaceView {
        self.with_status("Theme set (disk write failed: "@ + reason + ")"@)
    }

    /// The window turns to another connection: the one before is closed, with everything
    /// that was shown of it.
    pub open spec fn switch_connection(self, cfg: ConnectionConfigView) -> WorkspaceView {
        let left = match self.conn {
            Some(conn) => self.with_effect(EffectView::Disconnect { conn }),
            None => self,
        };
        WorkspaceView {
            conn: None,
            tree: SchemaTreeView { pending_clear_filter: true, ..SchemaTreeView::empty() },
            cfg: Some(cfg),
            conn_manager_open: false,
            ..left.with_effect(EffectView::ClearTree).close_all_tabs()
        }.start_connect(cfg)
    }

    /// The connection manager shows the form or the list.
    pub open spec fn show_conn_form(self, form: bool) -> WorkspaceView {
        WorkspaceView { conn_adding: form, ..self }
    }

    /// The window turns to a saved connection, with the password of this session.
    pub open spec fn connect_saved(self, idx: usize) -> WorkspaceView {
        if idx < self.settings.connections.len() {
            let entry = self.settings.connections[idx as int];
            self.switch_connection(entry.config(password_of(self.passwords, entry.name)))
        } else {
            self
        }
    }

    /// A connection is saved, in place of another of its name, and the window turns to it.
    pub open spec fn add_connection(self, form: ConnFormView) -> WorkspaceView {
        match form.entry() {
            None => self.with_status("Fill name, host, user, and database"@),
            Some(entry) => {
                let saved = WorkspaceView {
                    settings: SettingsView {
                        connections: without_name(self.settings.connections, entry.name).push(
                            entry,
                        ),
                        ..self.settings
                    },
                    ..self
                }.with_effect(EffectView::SaveSettings { report: false });
                if form.password.len() == 0 {
                    saved.switch_connection(entry.config(None))
                } else {
                    WorkspaceView {
                        passwords: saved.passwords.insert(entry.name, form.password),
                        ..saved
                    }.with_effect(
                        EffectView::SavePassword { name: entry.name, password: form.password },
                    ).switch_connection(entry.config(Some(form.password)))
                }
            },
        }
    }
}

impl Workspace {
    /// The window as it opens. With a connection to be made at once, it is asked for; else
    /// the connection manager is shown.
    pub fn new(settings: Settings, auto: Option<ConnectionConfig>) -> (r: Self)
        ensures
            r.deep_view() == WorkspaceView::opened(settings.deep_view(), auto.deep_view()),
    {
        let no_connections = settings.connections.len() == 0;
        let mut w = Workspace {
            cfg: auto.dup(),
            conn: None,
            attempt: 0,
            status: "Not connected".to_owned(),
            tree: SchemaTree::new(),
            tabs: Vec::new(),
            active: None,
            next_tab_id: 1,
            pending_open: None,
            cell_text: String::new(),
            log: QueryLog::new(),
            palette_open: false,
            terminal: false,
            terminal_open: false,
            settings,
            passwords: Passwords::new(),
            conn_manager_open: false,
            conn_adding: false,
            settings_open: false,
            outbox: Vec::new(),
        };
        proof {
            assert(w.deep_view() =~= WorkspaceView::initial(
                settings.deep_view(),
                auto.deep_view(),
            ));
        }
        match auto {
            Some(cfg) => {
                if let Some(pw) = &cfg.password {
                    w.passwords.insert(cfg.name.clone(), pw.clone());
                }
                w.start_connect(cfg);
            },
            None => {
                w.conn_manager_open = true;
                w.conn_adding = no_connections;
            },
        }
        w
    }

    /// Asks for a connection.
    pub fn start_connect(&mut self, cfg: ConnectionConfig)
        ensures
            final(self).deep_view() == old(self).deep_view().start_connect(cfg.deep_view()),
    {
        let attempt: u64 = self.attempt.wrapping_add(1);
        self.attempt = attempt;
        self.set_status("Connecting to ".to_owned().concat(cfg.name.as_str()).concat("\u{2026}"));
        self.emit(Effect::Connect { attempt, cfg });
    }

    /// Takes in what came of an attempt to connect, with the configuration that was used.
    /// There is one connection at a time: any other one that was made is closed.
    pub fn connect_finished(
        &mut self,
        attempt: u64,
        result: Result<ConnId, DbError>,
        cfg: ConnectionConfig,
    )
        ensures
            final(self).deep_view() == old(self).deep_view().connect_finished(
                attempt,
                match result {
                    Ok(conn) => Ok(conn),
                    Err(e) => Err(e.deep_view()),
                },
                cfg.deep_view(),
            ),
    {
        match result {
            Ok(conn) => {
                if attempt != self.attempt {
                    self.emit(Effect::Disconnect { conn });
                    return;
                }
                if let Some(before) = self.conn {
                    if before != conn {
                        self.emit(Effect::Disconnect { conn: before });
                    }
                }
                self.conn = Some(conn);
                self.set_status("Connected. Loading schemas\u{2026}".to_owned());
                self.emit(Effect::StartLsp { cfg });
                self.load_schemas();
            },
            Err(e) => {
                self.set_status("Connection failed: ".to_owned().concat(e.message().as_str()));
            },
        }
    }

    /// Loads the schemas again, or connects; without anything to connect to, shows the
    /// connection manager.
    pub fn connect_or_refresh(&mut self)
        ensures
            final(self).deep_view() == old(self).deep_view().connect_or_refresh(),
    {
        if self.conn.is_some() {
            self.load_schemas();
            return;
        }
        let cfg = self.cfg.dup();
        match cfg {
            Some(cfg) => {
                self.start_connect(cfg);
            },
            None => {
                self.conn_manager_open = true;
            },
        }
    }

    /// Shows or hides the connection manager.
    pub fn toggle_connections(&mut self)
        ensures
            final(self).deep_view() == old(self).deep_view().toggle_connections(),
    {
        self.conn_manager_open = !self.conn_manager_open;
        if self.conn_manager_open {
            self.conn_adding = self.settings.connections.len() == 0;
        }
    }

    /// Shows or hides the settings.
    pub fn toggle_settings(&mut self)
        ensures
            final(self).deep_view() == old(self).deep_view().toggle_settings(),
    {
        self.settings_open = !self.settings_open;
    }

    /// Switches the colours and has the choice saved.
    pub fn set_theme(&mut self, theme: Theme)
        ensures
            final(self).deep_view() == old(self).deep_view().set_theme(theme),
    {
        if self.settings.theme == theme {
            return;
        }
        self.settings.theme = theme;
        self.emit(Effect::SetTheme { theme });
        self.emit(Effect::SaveSettings { report: true });
    }

    /// Takes in why the choice of colours could not be saved.
    pub fn theme_not_saved(&mut self, reason: &str)
        ensures
            final(self).deep_view() == old(self).deep_view().theme_not_saved(reason@),
    {
        self.set_status(
            "Theme set (disk write failed: ".to_owned().concat(reason).concat(")"),
        );
    }

    /// Turns to another connection. The one before is closed; its tree and its tabs are
    /// gone.
    pub fn switch_connection(&mut self, cfg: ConnectionConfig)
        ensures
            final(self).deep_view() == old(self).deep_view().switch_connection(cfg.deep_view()),
    {
        if let Some(conn) = self.conn {
            self.emit(Effect::Disconnect { conn });
        }
        self.conn = None;
        self.tree = SchemaTree::new();
        self.tree.pending_clear_filter = true;
        self.emit(Effect::ClearTree);
        self.close_all_tabs();
        self.cfg = Some(cfg.dup());
        self.conn_manager_open = false;
        self.start_connect(cfg);
    }

    /// Shows the form for a new connection.
    pub fn show_add_form(&mut self)
        ensures
            final(self).deep_view() == old(self).deep_view().show_conn_form(true),
    {
        self.conn_adding = true;
    }

    /// Shows the list of saved connections.
    pub fn show_conn_list(&mut self)
        ensures
            final(self).deep_view() == old(self).deep_view().show_conn_form(false),
    {
        self.conn_adding = false;
    }

    /// Turns to a saved connection. Of passwords, only those of this session are looked at
    /// here; another one is looked up away from the user interface.
    pub fn connect_saved(&mut self, idx: usize)
        ensures
            final(self).deep_view() == old(self).deep_view().connect_saved(idx),
    {
        if idx >= self.settings.connections.len() {
            return;
        }
        let entry = &self.settings.connections[idx];
        let pw = self.passwords.get(entry.name.as_str());
        let cfg = entry_to_config(entry, pw);
        self.switch_connection(cfg);
    }

    /// Saves the connection that a form describes and turns to it.
    pub fn add_connection(&mut self, form: ConnForm)
        ensures
            final(self).deep_view() == old(self).deep_view().add_connection(form.deep_view()),
    {
        let entry = match form.entry() {
            None => {
                self.set_status("Fill name, host, user, and database".to_owned());
                return;
            },
            Some(entry) => entry,
        };
        let ghost ev = entry.deep_view();
        let mut connections: Vec<ConnectionEntry> = Vec::new();
        std::mem::swap(&mut connections, &mut self.settings.connections);
        let ghost cv = connections.deep_view();
        let mut kept = drop_name(connections, &entry.name);
        kept.push(entry.dup());
        proof {
            assert(kept.deep_view() =~= without_name(cv, ev.name).push(ev));
        }
        self.settings.connections = kept;
        self.emit(Effect::SaveSettings { report: false });
        if form.password.as_str().is_empty() {
            self.switch_connection(entry_to_config(&entry, None));
        } else {
            self.passwords.insert(entry.name.clone(), form.password.clone());
            self.emit(
                Effect::SavePassword { name: entry.name.clone(), password: form.password.clone() },
            );
            self.switch_connection(entry_to_config(&entry, Some(form.password)));
        }
    }

    /// Whether the text in the filter input is to be cleared; it is asked for once.
    pub fn take_clear_filter(&mut self) -> (r: bool)
        ensures
            r == old(self).deep_view().tree.pending_clear_filter,
            final(self).deep_view() == old(self).deep_view().with_tree(
                SchemaTreeView { pending_clear_filter: false, ..old(self).deep_view().tree },
            ),
    {
        let r = self.tree.pending_clear_filter;
        self.tree.pending_clear_filter = false;
        r
    }
}

} // verus!
