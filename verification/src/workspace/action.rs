//! What a click in the window asks for.

use vstd::prelude::*;
use crate::settings::Theme;
use crate::tree::node2;
use crate::workspace::palette::PaletteCmd;
use crate::workspace::schema::schema_id;
use crate::workspace::state::{Effect, EffectView, SchemaTreeView, Workspace, WorkspaceView};

verus! {

/// What a click in a tab asks for.
#[derive(Debug, Clone, Copy)]
pub enum TabAction {
    AddRow,
    DeleteRow,
    Reload,
    SaveRow,
    ClosePlan,
    /// Apply the staged edits.
    Apply,
    /// Discard the staged edits.
    Discard,
    Sort { col: usize },
    SelectRow { row: usize },
    EditCell { row: usize, col: usize },
}

/// What a click about connections and settings asks for.
#[derive(Debug, Clone, Copy)]
pub enum ConnAction {
    /// Show or hide the connection manager.
    Manage,
    /// Show or hide the settings.
    Settings,
    /// Load the schemas again, or connect.
    Refresh,
    /// Save the connection that is in the form.
    Save,
    ShowForm,
    ShowList,
    /// Turn to a saved connection, by its position.
    Connect { idx: usize },
    SetTheme { theme: Theme },
}

/// What a click asks for.
#[derive(Debug, Clone)]
pub enum Action {
    OnTab { tab: u64, what: TabAction },
    OnConnections { what: ConnAction },
    /// Open or close a schema of the sidebar, by its position.
    ToggleSchema { ix: usize },
    OpenTable { schema: String, table: String },
    ActivateTab { idx: usize },
    CloseTab { tab: u64 },
    NewQuery,
    OpenScratch,
    Run,
    Cancel,
    Command { cmd: PaletteCmd },
}

/// What an [`Action`] says.
pub enum ActionView {
    OnTab { tab: u64, what: TabAction },
    OnConnections { what: ConnAction },
    ToggleSchema { ix: usize },
    OpenTable { schema: Seq<char>, table: Seq<char> },
    ActivateTab { idx: usize },
    CloseTab { tab: u64 },
    NewQuery,
    OpenScratch,
    Run,
    Cancel,
    Command { cmd: PaletteCmd },
}

impl DeepView for Action {
    type V = ActionView;

    open spec fn deep_view(&self) -> ActionView {
        match self {
            Action::OnTab { tab, what } => ActionView::OnTab { tab: *tab, what: *what },
            Action::OnConnections { what } => ActionView::OnConnections { what: *what },
            Action::ToggleSchema { ix } => ActionView::ToggleSchema { ix: *ix },
            Action::OpenTable { schema, table } => ActionView::OpenTable {
                schema: schema@,
                table: table@,
            },
            Action::ActivateTab { idx } => ActionView::ActivateTab { idx: *idx },
            Action::CloseTab { tab } => ActionView::CloseTab { tab: *tab },
            Action::NewQuery => ActionView::NewQuery,
            Action::OpenScratch => ActionView::OpenScratch,
            Action::Run => ActionView::Run,
            Action::Cancel => ActionView::Cancel,
            Action::Command { cmd } => ActionView::Command { cmd: *cmd },
        }
    }
}

impl WorkspaceView {
    /// A schema of the sidebar is opened or closed. What it holds is asked for where it is
    /// not loaded.
    pub open spec fn toggle_schema(self, ix: usize) -> WorkspaceView {
        if ix < self.tree.schemas.len() {
            let id = schema_id(self.tree.schemas[ix as int].name);
            let open = self.tree.expanded;
            self.with_tree(
                SchemaTreeView {
                    expanded: if open.contains(id) {
                        open.remove(id)
                    } else {
                        open.insert(id)
                    },
                    ..self.tree
                },
            ).sync_tree()
        } else {
            self
        }
    }

    /// What a click in a tab asks for is done.
    #[verifier::opaque]
    pub open spec fn perform_on_tab(self, tab: u64, what: TabAction) -> WorkspaceView {
        match what {
            TabAction::AddRow => self.add_row(tab),
            TabAction::DeleteRow => self.delete_current_row(tab),
            TabAction::Reload => self.reload_data(tab),
            TabAction::SaveRow => self.save_new_row(tab),
            TabAction::ClosePlan => self.close_plan(tab),
            TabAction::Apply => self.apply_pending(tab),
            TabAction::Discard => self.cancel_pending(tab),
            TabAction::Sort { col } => self.toggle_sort(tab, col),
            TabAction::SelectRow { row } => self.set_current_row(tab, row),
            TabAction::EditCell { row, col } => self.begin_edit(tab, row, col),
        }
    }

    /// What a click about connections and settings asks for is done.
    #[verifier::opaque]
    pub open spec fn perform_on_connections(self, what: ConnAction) -> WorkspaceView {
        match what {
            ConnAction::Manage => self.toggle_connections(),
            ConnAction::Settings => self.toggle_settings(),
            ConnAction::Refresh => self.connect_or_refresh(),
            ConnAction::Save => self.with_effect(EffectView::ReadForm),
            ConnAction::ShowForm => self.show_conn_form(true),
            ConnAction::ShowList => self.show_conn_form(false),
            ConnAction::Connect { idx } => self.connect_saved(idx),
            ConnAction::SetTheme { theme } => self.set_theme(theme),
        }
    }

    /// What a click asks for is done.
    pub open spec fn perform(self, action: ActionView) -> WorkspaceView {
        match action {
            ActionView::OnTab { tab, what } => self.perform_on_tab(tab, what),
            ActionView::OnConnections { what } => self.perform_on_connections(what),
            ActionView::ToggleSchema { ix } => self.toggle_schema(ix),
            ActionView::OpenTable { schema, table } => self.open_table_tab(schema, table),
            ActionView::ActivateTab { idx } => self.activate_tab(idx),
            ActionView::CloseTab { tab } => self.close_tab(tab),
            ActionView::NewQuery => self.open_query_tab(),
            ActionView::OpenScratch => self.with_effect(EffectView::ReadScratch),
            ActionView::Run => self.run_active_tab(),
            ActionView::Cancel => self.cancel(),
            ActionView::Command { cmd } => self.run_command(cmd),
        }
    }
}

impl Workspace {
    /// Opens or closes a schema of the sidebar.
    pub fn toggle_schema(&mut self, ix: usize)
        ensures
            final(self).deep_view() == old(self).deep_view().toggle_schema(ix),
    {
        if ix >= self.tree.schemas.len() {
            return;
        }
        let id = node2("sch", self.tree.schemas[ix].name.as_str());
        if self.tree.expanded.contains(id.as_str()) {
            self.tree.expanded.remove(id.as_str());
        } else {
            self.tree.expanded.insert(id);
        }
        self.sync_tree();
    }

    /// Does what a click in a tab asks for.
    pub fn perform_on_tab(&mut self, tab: u64, what: TabAction)
        ensures
            final(self).deep_view() == old(self).deep_view().perform_on_tab(tab, what),
    {
        proof {
            reveal(WorkspaceView::perform_on_tab);
        }
        match what {
            TabAction::AddRow => self.add_row(tab),
            TabAction::DeleteRow => self.delete_current_row(tab),
            TabAction::Reload => self.reload_data(tab),
            TabAction::SaveRow => self.save_new_row(tab),
            TabAction::ClosePlan => self.close_plan(tab),
            TabAction::Apply => self.apply_pending(tab),
            TabAction::Discard => self.cancel_pending(tab),
            TabAction::Sort { col } => self.toggle_sort(tab, col),
            TabAction::SelectRow { row } => self.set_current_row(tab, row),
            TabAction::EditCell { row, col } => self.begin_edit(tab, row, col),
        }
    }

    /// Does what a click about connections and settings asks for.
    pub fn perform_on_connections(&mut self, what: ConnAction)
        ensures
            final(self).deep_view() == old(self).deep_view().perform_on_connections(what),
    {
        proof {
            reveal(WorkspaceView::perform_on_connections);
        }
        match what {
            ConnAction::Manage => self.toggle_connections(),
            ConnAction::Settings => self.toggle_settings(),
            ConnAction::Refresh => self.connect_or_refresh(),
            ConnAction::Save => self.emit(Effect::ReadForm),
            ConnAction::ShowForm => self.show_add_form(),
            ConnAction::ShowList => self.show_conn_list(),
            ConnAction::Connect { idx } => self.connect_saved(idx),
            ConnAction::SetTheme { theme } => self.set_theme(theme),
        }
    }

    /// Does what a click asks for.
    pub fn perform(&mut self, action: Action)
        requires
            old(self).next_tab_id < u64::MAX,
        ensures
            final(self).deep_view() == old(self).deep_view().perform(action.deep_view()),
    {
        match action {
            Action::OnTab { tab, what } => self.perform_on_tab(tab, what),
            Action::OnConnections { what } => self.perform_on_connections(what),
            Action::ToggleSchema { ix } => self.toggle_schema(ix),
            Action::OpenTable { schema, table } => self.open_table_tab(schema, table),
            Action::ActivateTab { idx } => self.activate_tab(idx),
            Action::CloseTab { tab } => self.close_tab(tab),
            Action::NewQuery => self.open_query_tab(),
            Action::OpenScratch => self.emit(Effect::ReadScratch),
            Action::Run => self.run_active_tab(),
            Action::Cancel => self.cancel(),
            Action::Command { cmd } => self.run_command(cmd),
        }
    }
}

} // verus!
