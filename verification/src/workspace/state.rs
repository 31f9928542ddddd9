//! The state of the main window, and what is to be done outside.

use vstd::hash_map::StringHashMap;
use vstd::prelude::*;
use crate::config::{ConnectionConfig, ConnectionConfigView};
use crate::edit::{EditTarget, EditTargetView, RowEdit, RowEditView};
use crate::ids::IdSet;
use crate::settings::{Settings, SettingsView, Theme};
use crate::tree::{
    models, NodeMetaMap, NodeMetaView, SchemaNode, SchemaNodeView, TreeItem, TreeItemView,
};
use crate::types::ConnId;
use crate::workspace::tab::{Tab, TabView};

verus! {

/// Something that has to be done outside. What comes of it is handed back by the method
/// that each names.
pub enum Effect {
    /// Run a query and show its result ([`Workspace::query_finished`]).
    Query { tab: u64, conn: ConnId, sql: String },
    /// Run a query for its plan ([`Workspace::explain_finished`]).
    Explain { tab: u64, conn: ConnId, sql: String },
    /// Find out how a result can be edited ([`Workspace::described`]).
    Describe { tab: u64, conn: ConnId, sql: String },
    /// Apply edits in one transaction ([`Workspace::apply_finished`]).
    Apply {
        tab: u64,
        conn: ConnId,
        target: EditTarget,
        edits: Vec<RowEdit>,
        sql: String,
        reload: Option<String>,
    },
    /// Cancel what is running on a connection.
    Cancel { conn: ConnId },
    /// Close a connection.
    Disconnect { conn: ConnId },
    /// Look up the password if there is none, away from the user interface, and connect
    /// ([`Workspace::connect_finished`], with the number of the attempt).
    Connect { attempt: u64, cfg: ConnectionConfig },
    /// Start the completion server for a connection, in place of the one before.
    StartLsp { cfg: ConnectionConfig },
    /// Ask for the schemas ([`Workspace::schemas_loaded`]).
    LoadSchemas { conn: ConnId },
    /// Ask for relations and objects of a schema ([`Workspace::relations_loaded`]).
    LoadRelations { conn: ConnId, schema: String },
    /// Ask for the detail of a relation ([`Workspace::detail_loaded`]).
    LoadDetail { conn: ConnId, schema: String, table: String },
    /// Show the items of the tree, with this row selected, scrolled to it or not.
    ShowTree { selected: Option<usize>, scroll: bool },
    /// Show an empty tree.
    ClearTree,
    /// Select no row in the grid of a tab.
    ClearSelection { tab: u64 },
    /// Show the headers and rows of a tab in its grid.
    ShowGrid { tab: u64 },
    /// Give the keyboard to a tab.
    FocusTab { tab: u64 },
    /// Put a text into the cell editor and give it the keyboard.
    EditCell { text: String },
    /// Put a text into the SQL editor of a tab.
    SetEditor { tab: u64, text: String },
    /// Write the settings; where `report` is set, a failure is handed to
    /// [`Workspace::theme_not_saved`].
    SaveSettings { report: bool },
    /// Switch the colours.
    SetTheme { theme: Theme },
    /// Keep a password in the keychain.
    SavePassword { name: String, password: String },
    /// Ask for a file name and write a file ([`Workspace::exported`]).
    SaveFile { suggested: String, data: String },
    /// Put a text on the clipboard.
    Copy { text: String },
    /// Make the table of the self test ([`Workspace::selftest_ready`]).
    SelfTest { conn: ConnId },
    /// Start a terminal ([`Workspace::terminal_started`]).
    StartTerminal,
    /// Give the keyboard to the terminal.
    FocusTerminal,
    /// Read the scratch text that was kept ([`Workspace::focus_scratch_tab`]).
    ReadScratch,
    /// Read the form for a new connection ([`Workspace::add_connection`]).
    ReadForm,
}

/// What an [`Effect`] says.
pub enum EffectView {
    Query { tab: u64, conn: ConnId, sql: Seq<char> },
    Explain { tab: u64, conn: ConnId, sql: Seq<char> },
    Describe { tab: u64, conn: ConnId, sql: Seq<char> },
    Apply {
        tab: u64,
        conn: ConnId,
        target: EditTargetView,
        edits: Seq<RowEditView>,
        sql: Seq<char>,
        reload: Option<Seq<char>>,
    },
    Cancel { conn: ConnId },
    Disconnect { conn: ConnId },
    Connect { attempt: u64, cfg: ConnectionConfigView },
    StartLsp { cfg: ConnectionConfigView },
    LoadSchemas { conn: ConnId },
    LoadRelations { conn: ConnId, schema: Seq<char> },
    LoadDetail { conn: ConnId, schema: Seq<char>, table: Seq<char> },
    ShowTree { selected: Option<int>, scroll: bool },
    ClearTree,
    ClearSelection { tab: u64 },
    ShowGrid { tab: u64 },
    FocusTab { tab: u64 },
    EditCell { text: Seq<char> },
    SetEditor { tab: u64, text: Seq<char> },
    SaveSettings { report: bool },
    SetTheme { theme: Theme },
    SavePassword { name: Seq<char>, password: Seq<char> },
    SaveFile { suggested: Seq<char>, data: Seq<char> },
    Copy { text: Seq<char> },
    SelfTest { conn: ConnId },
    StartTerminal,
    FocusTerminal,
    ReadScratch,
    ReadForm,
}

impl DeepView for Effect {
    type V = EffectView;

    open spec fn deep_view(&self) -> EffectView {
        match self {
            Effect::Query { tab, conn, sql } => EffectView::Query {
                tab: *tab,
                conn: *conn,
                sql: sql@,
            },
            Effect::Explain { tab, conn, sql } => EffectView::Explain {
                tab: *tab,
                conn: *conn,
                sql: sql@,
            },
            Effect::Describe { tab, conn, sql } => EffectView::Describe {
                tab: *tab,
                conn: *conn,
                sql: sql@,
            },
            Effect::Apply { tab, conn, target, edits, sql, reload } => EffectView::Apply {
                tab: *tab,
                conn: *conn,
                target: target.deep_view(),
                edits: edits.deep_view(),
                sql: sql@,
                reload: reload.deep_view(),
            },
            Effect::Cancel { conn } => EffectView::Cancel { conn: *conn },
            Effect::Disconnect { conn } => EffectView::Disconnect { conn: *conn },
            Effect::Connect { attempt, cfg } => EffectView::Connect {
                attempt: *attempt,
                cfg: cfg.deep_view(),
            },
            Effect::StartLsp { cfg } => EffectView::StartLsp { cfg: cfg.deep_view() },
            Effect::LoadSchemas { conn } => EffectView::LoadSchemas { conn: *conn },
            Effect::LoadRelations { conn, schema } => EffectView::LoadRelations {
                conn: *conn,
                schema: schema@,
            },
            Effect::LoadDetail { conn, schema, table } => EffectView::LoadDetail {
                conn: *conn,
                schema: schema@,
                table: table@,
            },
            Effect::ShowTree { selected, scroll } => EffectView::ShowTree {
                selected: match selected {
                    Some(k) => Some(*k as int),
                    None => None,
                },
                scroll: *scroll,
            },
            Effect::ClearTree => EffectView::ClearTree,
            Effect::ClearSelection { tab } => EffectView::ClearSelection { tab: *tab },
            Effect::ShowGrid { tab } => EffectView::ShowGrid { tab: *tab },
            Effect::FocusTab { tab } => EffectView::FocusTab { tab: *tab },
            Effect::EditCell { text } => EffectView::EditCell { text: text@ },
            Effect::SetEditor { tab, text } => EffectView::SetEditor { tab: *tab, text: text@ },
            Effect::SaveSettings { report } => EffectView::SaveSettings { report: *report },
            Effect::SetTheme { theme } => EffectView::SetTheme { theme: *theme },
            Effect::SavePassword { name, password } => EffectView::SavePassword {
                name: name@,
                password: password@,
            },
            Effect::SaveFile { suggested, data } => EffectView::SaveFile {
                suggested: suggested@,
                data: data@,
            },
            Effect::Copy { text } => EffectView::Copy { text: text@ },
            Effect::SelfTest { conn } => EffectView::SelfTest { conn: *conn },
            Effect::StartTerminal => EffectView::StartTerminal,
            Effect::FocusTerminal => EffectView::FocusTerminal,
            Effect::ReadScratch => EffectView::ReadScratch,
            Effect::ReadForm => EffectView::ReadForm,
        }
    }
}

// ---- the schema tree -------------------------------------------------------------------

/// The schema tree of the sidebar.
pub struct SchemaTree {
    /// What is known of the schemas.
    pub schemas: Vec<SchemaNode>,
    /// The items that are shown.
    pub items: Vec<TreeItem>,
    /// What the items are.
    pub meta: NodeMetaMap,
    /// Which items are open.
    pub expanded: IdSet,
    /// The item that was selected last.
    pub sel: Option<String>,
    /// The filter, without white space round it.
    pub filter: String,
    /// The relation to select and scroll to as soon as it is shown.
    pub pending_reveal: Option<String>,
    /// The schemas and relations that are being loaded.
    pub loads: IdSet,
    /// Whether the text in the filter input is to be cleared.
    pub pending_clear_filter: bool,
}

/// What a [`SchemaTree`] holds.
#[verifier::ext_equal]
pub struct SchemaTreeView {
    pub schemas: Seq<SchemaNodeView>,
    pub items: Seq<TreeItemView>,
    pub meta: Map<Seq<char>, NodeMetaView>,
    pub expanded: Set<Seq<char>>,
    pub sel: Option<Seq<char>>,
    pub filter: Seq<char>,
    pub pending_reveal: Option<Seq<char>>,
    pub loads: Set<Seq<char>>,
    pub pending_clear_filter: bool,
}

impl DeepView for SchemaTree {
    type V = SchemaTreeView;

    open spec fn deep_view(&self) -> SchemaTreeView {
        SchemaTreeView {
            schemas: self.schemas.deep_view(),
            items: models(self.items@),
            meta: self.meta.deep_view(),
            expanded: self.expanded.deep_view(),
            sel: self.sel.deep_view(),
            filter: self.filter@,
            pending_reveal: self.pending_reveal.deep_view(),
            loads: self.loads.deep_view(),
            pending_clear_filter: self.pending_clear_filter,
        }
    }
}

impl SchemaTreeView {
    /// A tree of which nothing is known.
    pub open spec fn empty() -> SchemaTreeView {
        SchemaTreeView {
            schemas: Seq::empty(),
            items: Seq::empty(),
            meta: Map::empty(),
            expanded: Set::empty(),
            sel: None,
            filter: Seq::empty(),
            pending_reveal: None,
            loads: Set::empty(),
            pending_clear_filter: false,
        }
    }
}

impl SchemaTree {
    /// A tree of which nothing is known.
    pub fn new() -> (r: Self)
        ensures
            r.deep_view() == SchemaTreeView::empty(),
    {
        let r = SchemaTree {
            schemas: Vec::new(),
            items: Vec::new(),
            meta: NodeMetaMap::new(),
            expanded: IdSet::new(),
            sel: None,
            filter: String::new(),
            pending_reveal: None,
            loads: IdSet::new(),
            pending_clear_filter: false,
        };
        proof {
            assert(r.deep_view() =~= SchemaTreeView::empty());
        }
        r
    }
}

// ---- the query log ---------------------------------------------------------------------

/// The largest number of entries in the query log.
pub const LOG_CAP: usize = 500;

/// A query that was run, and whether it succeeded.
#[derive(Debug)]
pub struct LogEntry {
    pub sql: String,
    pub ok: bool,
}

/// What a [`LogEntry`] says.
pub struct LogEntryView {
    pub sql: Seq<char>,
    pub ok: bool,
}

impl DeepView for LogEntry {
    type V = LogEntryView;

    open spec fn deep_view(&self) -> LogEntryView {
        LogEntryView { sql: self.sql@, ok: self.ok }
    }
}

/// The query log, most recent last.
pub struct QueryLog {
    pub entries: Vec<LogEntry>,
}

impl DeepView for QueryLog {
    type V = Seq<LogEntryView>;

    open spec fn deep_view(&self) -> Seq<LogEntryView> {
        self.entries.deep_view()
    }
}

/// The log with one more entry; the oldest one goes where there would be too many.
pub open spec fn logged(log: Seq<LogEntryView>, sql: Seq<char>, ok: bool) -> Seq<LogEntryView> {
    let all = log.push(LogEntryView { sql, ok });
    if all.len() > LOG_CAP {
        all.drop_first()
    } else {
        all
    }
}

impl QueryLog {
    /// An empty log.
    pub fn new() -> (r: Self)
        ensures
            r.deep_view() == Seq::<LogEntryView>::empty(),
    {
        let r = QueryLog { entries: Vec::new() };
        proof {
            assert(r.deep_view() =~= Seq::<LogEntryView>::empty());
        }
        r
    }

    /// Notes a query.
    pub fn push(&mut self, sql: &str, ok: bool)
        ensures
            final(self).deep_view() == logged(old(self).deep_view(), sql@, ok),
    {
        let ghost before = self.deep_view();
        self.entries.push(LogEntry { sql: sql.to_owned(), ok });
        proof {
            assert(self.deep_view() =~= before.push(LogEntryView { sql: sql@, ok }));
        }
        if self.entries.len() > LOG_CAP {
            let ghost all = self.deep_view();
            self.entries.remove(0);
            proof {
                assert(self.deep_view() =~= all.drop_first());
            }
        }
    }
}

/// A log within its limit stays within it, and its last entry is the one that was noted
/// last; the entries before it are the most recent ones, in order.
pub proof fn law_log_keeps_the_most_recent(log: Seq<LogEntryView>, sql: Seq<char>, ok: bool)
    requires
        log.len() <= LOG_CAP,
    ensures
        logged(log, sql, ok).len() <= LOG_CAP,
        logged(log, sql, ok).last() == (LogEntryView { sql, ok }),
        logged(log, sql, ok).drop_last() == (if log.len() < LOG_CAP {
            log
        } else {
            log.drop_first()
        }),
{
    assert(logged(log, sql, ok).drop_last() =~= (if log.len() < LOG_CAP {
        log
    } else {
        log.drop_first()
    }));
}

// ---- passwords of this session ---------------------------------------------------------

/// The passwords that were given in this session, by connection name.
pub struct Passwords {
    map: StringHashMap<String>,
}

impl DeepView for Passwords {
    type V = Map<Seq<char>, Seq<char>>;

    closed spec fn deep_view(&self) -> Map<Seq<char>, Seq<char>> {
        self.map@.map_values(|s: String| s@)
    }
}

impl Passwords {
    /// None was given.
    pub fn new() -> (r: Self)
        ensures
            r.deep_view() == Map::<Seq<char>, Seq<char>>::empty(),
    {
        let r = Passwords { map: StringHashMap::new() };
        proof {
            assert(r.deep_view() =~= Map::<Seq<char>, Seq<char>>::empty());
        }
        r
    }

    /// Keeps a password.
    pub fn insert(&mut self, name: String, password: String)
        ensures
            final(self).deep_view() == old(self).deep_view().insert(name@, password@),
    {
        self.map.insert(name, password);
        proof {
            assert(self.deep_view() =~= old(self).deep_view().insert(name@, password@));
        }
    }

    /// The password of a connection, if it was given.
    pub fn get(&self, name: &str) -> (r: Option<String>)
        ensures
            r.deep_view() == password_of(self.deep_view(), name@),
    {
        match self.map.get(name) {
            Some(s) => Some(s.clone()),
            None => None,
        }
    }
}

/// The password of a connection, if it is in the map.
pub open spec fn password_of(m: Map<Seq<char>, Seq<char>>, name: Seq<char>) -> Option<Seq<char>> {
    if m.dom().contains(name) {
        Some(m[name])
    } else {
        None
    }
}

// ---- the main window -------------------------------------------------------------------

/// The state of the main window.
pub struct Workspace {
    pub cfg: Option<ConnectionConfig>,
    pub conn: Option<ConnId>,
    /// The number of the latest attempt to connect.
    pub attempt: u64,
    pub status: String,
    pub tree: SchemaTree,
    /// The open tabs, and which of them is active (none: the welcome pane is shown).
    pub tabs: Vec<Tab>,
    pub active: Option<usize>,
    /// The identifier of the next tab.
    pub next_tab_id: u64,
    /// A table to open as soon as there is a window for it.
    pub pending_open: Option<(String, String)>,
    /// The text in the cell editor.
    pub cell_text: String,
    pub log: QueryLog,
    pub palette_open: bool,
    /// Whether a terminal was started, and whether it is shown.
    pub terminal: bool,
    pub terminal_open: bool,
    pub settings: Settings,
    pub passwords: Passwords,
    pub conn_manager_open: bool,
    /// Whether the connection manager shows the form for a new connection.
    pub conn_adding: bool,
    pub settings_open: bool,
    /// What is to be done outside, in order.
    pub outbox: Vec<Effect>,
}

/// What a [`Workspace`] holds.
#[verifier::ext_equal]
pub struct WorkspaceView {
    pub cfg: Option<ConnectionConfigView>,
    pub conn: Option<ConnId>,
    pub attempt: u64,
    pub status: Seq<char>,
    pub tree: SchemaTreeView,
    pub tabs: Seq<TabView>,
    pub active: Option<usize>,
    pub next_tab_id: u64,
    pub pending_open: Option<(Seq<char>, Seq<char>)>,
    pub cell_text: Seq<char>,
    pub log: Seq<LogEntryView>,
    pub palette_open: bool,
    pub terminal: bool,
    pub terminal_open: bool,
    pub settings: SettingsView,
    pub passwords: Map<Seq<char>, Seq<char>>,
    pub conn_manager_open: bool,
    pub conn_adding: bool,
    pub settings_open: bool,
    pub outbox: Seq<EffectView>,
}

impl DeepView for Workspace {
    type V = WorkspaceView;

    open spec fn deep_view(&self) -> WorkspaceView {
        WorkspaceView {
            cfg: self.cfg.deep_view(),
            conn: self.conn,
            attempt: self.attempt,
            status: self.status@,
            tree: self.tree.deep_view(),
            tabs: self.tabs.deep_view(),
            active: self.active,
            next_tab_id: self.next_tab_id,
            pending_open: self.pending_open.deep_view(),
            cell_text: self.cell_text@,
            log: self.log.deep_view(),
            palette_open: self.palette_open,
            terminal: self.terminal,
            terminal_open: self.terminal_open,
            settings: self.settings.deep_view(),
            passwords: self.passwords.deep_view(),
            conn_manager_open: self.conn_manager_open,
            conn_adding: self.conn_adding,
            settings_open: self.settings_open,
            outbox: self.outbox.deep_view(),
        }
    }
}

/// Where the first tab with an identifier stands.
pub open spec fn position(tabs: Seq<TabView>, id: u64) -> Option<int>
    decreases tabs.len(),
{
    if tabs.len() == 0 {
        None
    } else {
        match position(tabs.drop_last(), id) {
            Some(k) => Some(k),
            None => if tabs.last().id == id {
                Some(tabs.len() - 1)
            } else {
                None
            },
        }
    }
}

proof fn lemma_position_stays(tabs: Seq<TabView>, id: u64, k: int)
    requires
        0 <= k <= tabs.len(),
        position(tabs.take(k), id) is Some,
    ensures
        position(tabs, id) == position(tabs.take(k), id),
    decreases tabs.len() - k,
{
    if k == tabs.len() {
        assert(tabs.take(k) =~= tabs);
    } else {
        assert(tabs.take(k + 1).drop_last() =~= tabs.take(k));
        lemma_position_stays(tabs, id, k + 1);
    }
}

/// The tab at a position has the identifier, and no tab before it has.
pub proof fn lemma_position(tabs: Seq<TabView>, id: u64)
    ensures
        (match position(tabs, id) {
            Some(k) => 0 <= k < tabs.len() && tabs[k].id == id && forall|j: int|
                0 <= j < k ==> (#[trigger] tabs[j]).id != id,
            None => forall|j: int| 0 <= j < tabs.len() ==> (#[trigger] tabs[j]).id != id,
        }),
    decreases tabs.len(),
{
    if tabs.len() > 0 {
        let front = tabs.drop_last();
        lemma_position(front, id);
        match position(front, id) {
            Some(k) => {
                assert(front[k] == tabs[k]);
                assert forall|j: int| 0 <= j < k implies (#[trigger] tabs[j]).id != id by {
                    assert(front[j] == tabs[j]);
                }
            },
            None => {
                assert forall|j: int| 0 <= j < tabs.len() - 1 implies (#[trigger] tabs[j]).id
                    != id by {
                    assert(front[j] == tabs[j]);
                }
            },
        }
    }
}

impl WorkspaceView {
    /// The window as it opens, before anything was done.
    pub open spec fn initial(
        settings: SettingsView,
        cfg: Option<ConnectionConfigView>,
    ) -> WorkspaceView {
        WorkspaceView {
            cfg,
            conn: None,
            attempt: 0,
            status: "Not connected"@,
            tree: SchemaTreeView::empty(),
            tabs: Seq::empty(),
            active: None,
            next_tab_id: 1,
            pending_open: None,
            cell_text: Seq::empty(),
            log: Seq::empty(),
            palette_open: false,
            terminal: false,
            terminal_open: false,
            settings,
            passwords: Map::empty(),
            conn_manager_open: false,
            conn_adding: false,
            settings_open: false,
            outbox: Seq::empty(),
        }
    }

    /// With another status text.
    pub open spec fn with_status(self, status: Seq<char>) -> WorkspaceView {
        WorkspaceView { status, ..self }
    }

    /// With one more thing to be done outside.
    pub open spec fn with_effect(self, effect: EffectView) -> WorkspaceView {
        WorkspaceView { outbox: self.outbox.push(effect), ..self }
    }

    /// With another tab at a position.
    pub open spec fn with_tab_at(self, i: int, tab: TabView) -> WorkspaceView {
        WorkspaceView { tabs: self.tabs.update(i, tab), ..self }
    }

    /// With one more entry in the log.
    pub open spec fn with_log(self, sql: Seq<char>, ok: bool) -> WorkspaceView {
        WorkspaceView { log: logged(self.log, sql, ok), ..self }
    }

    /// The tab with an identifier.
    pub open spec fn tab(self, id: u64) -> Option<TabView> {
        match position(self.tabs, id) {
            Some(i) => Some(self.tabs[i]),
            None => None,
        }
    }

    /// With another tab in place of the one with an identifier; unchanged where there is
    /// none.
    pub open spec fn with_tab(self, id: u64, tab: TabView) -> WorkspaceView {
        match position(self.tabs, id) {
            Some(i) => self.with_tab_at(i, tab),
            None => self,
        }
    }

    /// The active tab.
    pub open spec fn active_tab(self) -> Option<TabView> {
        match self.active {
            Some(i) => if i < self.tabs.len() {
                Some(self.tabs[i as int])
            } else {
                None
            },
            None => None,
        }
    }

    /// The identifier of the active tab.
    pub open spec fn active_id(self) -> Option<u64> {
        match self.active_tab() {
            Some(t) => Some(t.id),
            None => None,
        }
    }

    /// What every state of the window keeps: the active tab is one of the tabs and there is
    /// one as long as there are tabs; tabs have different identifiers, below the next one;
    /// there is at most one scratch tab, and at most one tab for each table; the log is
    /// within its limit.
    pub open spec fn valid(self) -> bool {
        &&& (self.active is None <==> self.tabs.len() == 0)
        &&& (self.active is Some ==> self.active->0 < self.tabs.len())
        &&& self.log.len() <= LOG_CAP
        &&& forall|i: int|
            0 <= i < self.tabs.len() ==> (#[trigger] self.tabs[i]).id < self.next_tab_id
        &&& distinct(self.tabs)
    }
}

/// Whether two tabs may stand side by side.
pub open spec fn compatible(a: TabView, b: TabView) -> bool {
    &&& a.id != b.id
    &&& !(a.kind is Scratch && b.kind is Scratch)
    &&& !(a.kind is Table && a.kind == b.kind)
}

/// Whether each two tabs may stand side by side.
pub open spec fn distinct(tabs: Seq<TabView>) -> bool {
    forall|i: int, j: int|
        0 <= i < j < tabs.len() ==> compatible(#[trigger] tabs[i], #[trigger] tabs[j])
}

impl Workspace {
    /// Where the first tab with an identifier stands.
    pub fn tab_index(&self, id: u64) -> (r: Option<usize>)
        ensures
            (match r {
                Some(i) => position(self.deep_view().tabs, id) == Some(i as int) && i
                    < self.tabs@.len(),
                None => position(self.deep_view().tabs, id) is None,
            }),
    {
        let ghost tv = self.tabs.deep_view();
        let mut i: usize = 0;
        while i < self.tabs.len()
            invariant
                i <= self.tabs@.len(),
                tv == self.tabs.deep_view(),
                position(tv.take(i as int), id) is None,
            decreases self.tabs@.len() - i,
        {
            proof {
                assert(tv.take(i + 1).drop_last() =~= tv.take(i as int));
                assert(tv.take(i + 1).last() == self.tabs@[i as int].deep_view());
            }
            if self.tabs[i].id == id {
                proof {
                    lemma_position_stays(tv, id, i + 1);
                }
                return Some(i);
            }
            i += 1;
        }
        proof {
            assert(tv.take(i as int) =~= tv);
        }
        None
    }

    /// The tab with an identifier.
    pub fn tab(&self, id: u64) -> (r: Option<&Tab>)
        ensures
            r.deep_view() == self.deep_view().tab(id),
    {
        match self.tab_index(id) {
            Some(i) => Some(&self.tabs[i]),
            None => None,
        }
    }

    /// The active tab.
    pub fn active_tab(&self) -> (r: Option<&Tab>)
        ensures
            r.deep_view() == self.deep_view().active_tab(),
    {
        match self.active {
            Some(i) => if i < self.tabs.len() {
                Some(&self.tabs[i])
            } else {
                None
            },
            None => None,
        }
    }

    /// The identifier of the active tab.
    pub fn active_id(&self) -> (r: Option<u64>)
        ensures
            r == self.deep_view().active_id(),
    {
        match self.active_tab() {
            Some(t) => Some(t.id),
            None => None,
        }
    }

    /// Sets the status text.
    pub(crate) fn set_status(&mut self, status: String)
        ensures
            final(self).deep_view() == old(self).deep_view().with_status(status@),
    {
        self.status = status;
    }

    /// Notes something to be done outside.
    pub(crate) fn emit(&mut self, effect: Effect)
        ensures
            final(self).deep_view() == old(self).deep_view().with_effect(effect.deep_view()),
    {
        self.outbox.push(effect);
        proof {
            assert(self.outbox.deep_view() =~= old(self).outbox.deep_view().push(
                effect.deep_view(),
            ));
        }
    }

    /// Notes a query in the log.
    pub(crate) fn note(&mut self, sql: &str, ok: bool)
        ensures
            final(self).deep_view() == old(self).deep_view().with_log(sql@, ok),
    {
        self.log.push(sql, ok);
    }

    /// What is to be done outside, in order; the outbox is empty afterwards.
    pub fn take_outbox(&mut self) -> (r: Vec<Effect>)
        ensures
            r.deep_view() == old(self).deep_view().outbox,
            final(self).deep_view() == (WorkspaceView {
                outbox: Seq::empty(),
                ..old(self).deep_view()
            }),
    {
        let mut out: Vec<Effect> = Vec::new();
        std::mem::swap(&mut out, &mut self.outbox);
        proof {
            assert(self.outbox.deep_view() =~= Seq::<EffectView>::empty());
        }
        out
    }
}

} // verus!
