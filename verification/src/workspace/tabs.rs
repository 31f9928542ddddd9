//! The tabs of the window: opening, activating and closing them.

use vstd::prelude::*;
use crate::tree::{NodeMeta, NodeMetaMap, NodeMetaView};
use crate::workspace::state::{position, Effect, EffectView, Workspace, WorkspaceView};
use crate::workspace::tab::{Tab, TabKind, TabKindView, TabView};

verus! {

/// The number of query tabs.
pub open spec fn query_tabs(tabs: Seq<TabView>) -> nat
    decreases tabs.len(),
{
    if tabs.len() == 0 {
        0
    } else {
        query_tabs(tabs.drop_last()) + (if tabs.last().kind is Query {
            1nat
        } else {
            0nat
        })
    }
}

/// Where the first tab of a kind stands.
pub open spec fn kind_position(tabs: Seq<TabView>, kind: TabKindView) -> Option<int>
    decreases tabs.len(),
{
    if tabs.len() == 0 {
        None
    } else {
        match kind_position(tabs.drop_last(), kind) {
            Some(k) => Some(k),
            None => if tabs.last().kind == kind {
                Some(tabs.len() - 1)
            } else {
                None
            },
        }
    }
}

/// The tab that is active after one was closed at `at`: the one in its place, or the last
/// one, where it was the active one; else the one that was active before.
pub open spec fn active_after_close(
    rest: Seq<TabView>,
    active_id: Option<u64>,
    closed: u64,
    at: int,
) -> Option<usize> {
    if rest.len() == 0 {
        None
    } else if active_id == Some(closed) {
        Some(
            (if at < rest.len() {
                at
            } else {
                rest.len() - 1
            }) as usize,
        )
    } else {
        match active_id {
            Some(id) => match position(rest, id) {
                Some(k) => Some(k as usize),
                None => None,
            },
            None => None,
        }
    }
}

/// The relation that an item of the tree is, if it is one.
pub open spec fn relation_at(
    meta: Map<Seq<char>, NodeMetaView>,
    selected: Option<Seq<char>>,
) -> Option<(Seq<char>, Seq<char>)> {
    match selected {
        Some(id) => if meta.dom().contains(id) {
            match meta[id] {
                NodeMetaView::Rel { schema, name, .. } => Some((schema, name)),
                _ => None,
            }
        } else {
            None
        },
        None => None,
    }
}

impl WorkspaceView {
    /// A tab is made active. A cell editor that is open is closed; the table of a table tab
    /// is shown in the tree.
    pub open spec fn activate_tab(self, idx: usize) -> WorkspaceView {
        if idx >= self.tabs.len() {
            self
        } else {
            let switched = WorkspaceView { active: Some(idx), ..self.cancel_cell_edit() };
            let shown = match switched.tabs[idx as int].kind {
                TabKindView::Table { schema, table } => switched.reveal_relation(schema, table),
                _ => switched,
            };
            shown.with_effect(EffectView::FocusTab { tab: self.tabs[idx as int].id })
        }
    }

    /// A tab is put behind the others and made active.
    pub open spec fn open_tab(self, tab: TabView) -> WorkspaceView {
        WorkspaceView {
            tabs: self.tabs.push(tab),
            next_tab_id: (self.next_tab_id + 1) as u64,
            ..self
        }.activate_tab(self.tabs.len() as usize)
    }

    /// A new query tab is opened.
    pub open spec fn open_query_tab(self) -> WorkspaceView {
        self.open_tab(TabView::query(self.next_tab_id, query_tabs(self.tabs) + 1))
    }

    /// The tab of a table is made active; where there is none, it is opened and its query
    /// run.
    pub open spec fn open_table_tab(self, schema: Seq<char>, table: Seq<char>) -> WorkspaceView {
        match kind_position(self.tabs, TabKindView::Table { schema, table }) {
            Some(k) => self.activate_tab(k as usize),
            None => {
                let id = self.next_tab_id;
                let opened = self.open_tab(TabView::table(id, schema, table));
                opened.run_new_query(id, opened.table_query(id))
            },
        }
    }

    /// The scratch tab is made active; where there is none, it is opened with the text that
    /// was kept.
    pub open spec fn focus_scratch_tab(self, text: Seq<char>) -> WorkspaceView {
        match kind_position(self.tabs, TabKindView::Scratch) {
            Some(k) => self.activate_tab(k as usize),
            None => self.open_tab(TabView::scratch(self.next_tab_id, text)),
        }
    }

    /// A tab is closed.
    pub open spec fn close_tab(self, id: u64) -> WorkspaceView {
        match position(self.tabs, id) {
            None => self,
            Some(k) => {
                let rest = self.tabs.remove(k);
                WorkspaceView {
                    tabs: rest,
                    active: active_after_close(rest, self.active_id(), id, k),
                    ..self
                }
            },
        }
    }

    /// All tabs are closed.
    pub open spec fn close_all_tabs(self) -> WorkspaceView {
        WorkspaceView { tabs: Seq::empty(), active: None, ..self }
    }

    /// The relation that is selected in the tree is opened.
    pub open spec fn open_selected_tree_node(self, selected: Option<Seq<char>>) -> WorkspaceView {
        match relation_at(self.tree.meta, selected) {
            Some((schema, table)) => self.open_table_tab(schema, table),
            None => self,
        }
    }

    /// A table that waits to be opened is opened.
    pub open spec fn open_waiting(self) -> WorkspaceView {
        match self.pending_open {
            Some((schema, table)) => WorkspaceView { pending_open: None, ..self }.open_table_tab(
                schema,
                table,
            ),
            None => self,
        }
    }

    /// The text of the editor of a tab, with the cursor, as the user left it.
    pub open spec fn editor_changed(self, id: u64, text: Seq<char>, cursor: usize) -> WorkspaceView {
        match self.tab(id) {
            Some(t) => self.with_tab(id, TabView { editor: text, cursor, ..t }),
            None => self,
        }
    }

    /// The text of the filter of a tab, as the user left it.
    pub open spec fn filter_changed(self, id: u64, text: Seq<char>) -> WorkspaceView {
        match self.tab(id) {
            Some(t) => self.with_tab(id, TabView { filter: text, ..t }),
            None => self,
        }
    }
}

proof fn lemma_kind_stays(tabs: Seq<TabView>, kind: TabKindView, k: int)
    requires
        0 <= k <= tabs.len(),
        kind_position(tabs.take(k), kind) is Some,
    ensures
        kind_position(tabs, kind) == kind_position(tabs.take(k), kind),
    decreases tabs.len() - k,
{
    if k == tabs.len() {
        assert(tabs.take(k) =~= tabs);
    } else {
        assert(tabs.take(k + 1).drop_last() =~= tabs.take(k));
        lemma_kind_stays(tabs, kind, k + 1);
    }
}

/// Where the first tab of a kind stands, that tab is of the kind and none before it is.
pub proof fn lemma_kind_position(tabs: Seq<TabView>, kind: TabKindView)
    ensures
        (match kind_position(tabs, kind) {
            Some(k) => 0 <= k < tabs.len() && tabs[k].kind == kind,
            None => forall|j: int| 0 <= j < tabs.len() ==> (#[trigger] tabs[j]).kind != kind,
        }),
    decreases tabs.len(),
{
    if tabs.len() > 0 {
        let front = tabs.drop_last();
        lemma_kind_position(front, kind);
        if kind_position(front, kind) is None {
            assert forall|j: int| 0 <= j < tabs.len() - 1 implies (#[trigger] tabs[j]).kind
                != kind by {
                assert(front[j] == tabs[j]);
            }
        }
    }
}

fn same_kind(a: &TabKind, b: &TabKind) -> (r: bool)
    ensures
        r == (a.deep_view() == b.deep_view()),
{
    match (a, b) {
        (TabKind::Query, TabKind::Query) => true,
        (TabKind::Scratch, TabKind::Scratch) => true,
        (TabKind::Table { schema: s1, table: t1 }, TabKind::Table { schema: s2, table: t2 }) => *s1
            == *s2 && *t1 == *t2,
        _ => false,
    }
}

fn find_kind(tabs: &Vec<Tab>, kind: &TabKind) -> (r: Option<usize>)
    ensures
        (match r {
            Some(k) => kind_position(tabs.deep_view(), kind.deep_view()) == Some(k as int) && k
                < tabs@.len(),
            None => kind_position(tabs.deep_view(), kind.deep_view()) is None,
        }),
{
    let ghost tv = tabs.deep_view();
    let mut i: usize = 0;
    while i < tabs.len()
        invariant
            i <= tabs@.len(),
            tv == tabs.deep_view(),
            kind_position(tv.take(i as int), kind.deep_view()) is None,
        decreases tabs@.len() - i,
    {
        proof {
            assert(tv.take(i + 1).drop_last() =~= tv.take(i as int));
            assert(tv.take(i + 1).last() == tabs@[i as int].deep_view());
        }
        if same_kind(&tabs[i].kind, kind) {
            proof {
                lemma_kind_stays(tv, kind.deep_view(), i + 1);
            }
            return Some(i);
        }
        i += 1;
    }
    proof {
        assert(tv.take(i as int) =~= tv);
    }
    None
}

fn find_relation(meta: &NodeMetaMap, selected: Option<&str>) -> (r: Option<(String, String)>)
    ensures
        r.deep_view() == relation_at(meta.deep_view(), selected.deep_view()),
{
    match selected {
        None => None,
        Some(id) => match meta.get(id) {
            Some(NodeMeta::Rel { schema, name, .. }) => Some((schema.clone(), name.clone())),
            _ => None,
        },
    }
}

fn count_queries(tabs: &Vec<Tab>) -> (r: u64)
    ensures
        r == query_tabs(tabs.deep_view()),
{
    let ghost tv = tabs.deep_view();
    let mut n: u64 = 0;
    let mut i: usize = 0;
    while i < tabs.len()
        invariant
            i <= tabs@.len(),
            tv == tabs.deep_view(),
            n == query_tabs(tv.take(i as int)),
            n <= i,
        decreases tabs@.len() - i,
    {
        proof {
            assert(tv.take(i + 1).drop_last() =~= tv.take(i as int));
            assert(tv.take(i + 1).last() == tabs@[i as int].deep_view());
        }
        if let TabKind::Query = tabs[i].kind {
            n += 1;
        }
        i += 1;
    }
    proof {
        assert(tv.take(i as int) =~= tv);
    }
    n
}

impl Workspace {
    /// Makes a tab active: closes a cell editor that is open, and shows the table of a
    /// table tab in the tree.
    pub fn activate_tab(&mut self, idx: usize)
        ensures
            final(self).deep_view() == old(self).deep_view().activate_tab(idx),
    {
        if idx >= self.tabs.len() {
            return;
        }
        let id = self.tabs[idx].id;
        self.cancel_cell_edit();
        proof {
            assert(self.tabs@.len() == self.deep_view().tabs.len());
        }
        self.active = Some(idx);
        let table = match &self.tabs[idx].kind {
            TabKind::Table { schema, table } => Some((schema.clone(), table.clone())),
            _ => None,
        };
        proof {
            assert(self.deep_view().tabs[idx as int] == self.tabs@[idx as int].deep_view());
        }
        if let Some((schema, table)) = table {
            self.reveal_relation(schema.as_str(), table.as_str());
        }
        self.emit(Effect::FocusTab { tab: id });
    }

    fn open_tab(&mut self, tab: Tab)
        requires
            old(self).next_tab_id < u64::MAX,
        ensures
            final(self).deep_view() == old(self).deep_view().open_tab(tab.deep_view()),
    {
        let at = self.tabs.len();
        let ghost tv = tab.deep_view();
        self.next_tab_id += 1;
        self.tabs.push(tab);
        proof {
            assert(self.tabs.deep_view() =~= old(self).tabs.deep_view().push(tv));
        }
        self.activate_tab(at);
    }

    /// Opens a new blank query tab ("Query N").
    pub fn open_query_tab(&mut self)
        requires
            old(self).next_tab_id < u64::MAX,
        ensures
            final(self).deep_view() == old(self).deep_view().open_query_tab(),
    {
        let id = self.next_tab_id;
        let at = self.tabs.len();
        self.next_tab_id += 1;
        self.tabs.push(Tab::query(id, 1));
        let n = count_queries(&self.tabs);
        proof {
            let before = old(self).tabs.deep_view();
            let all = self.tabs.deep_view();
            assert(all =~= before.push(TabView::query(id, 1)));
            assert(all.drop_last() =~= before);
            assert(n == query_tabs(before) + 1);
        }
        self.tabs[at] = Tab::query(id, n);
        proof {
            let before = old(self).tabs.deep_view();
            assert(self.tabs.deep_view() =~= before.push(TabView::query(id, n as nat)));
        }
        self.activate_tab(at);
    }

    /// Opens the tab of a table, or makes it active where it is open, and runs its query.
    pub fn open_table_tab(&mut self, schema: String, table: String)
        requires
            old(self).next_tab_id < u64::MAX,
        ensures
            final(self).deep_view() == old(self).deep_view().open_table_tab(schema@, table@),
    {
        let kind = TabKind::Table { schema: schema.clone(), table: table.clone() };
        if let Some(k) = find_kind(&self.tabs, &kind) {
            self.activate_tab(k);
            return;
        }
        let id = self.next_tab_id;
        let tab = Tab::table(id, schema, table);
        self.open_tab(tab);
        let sql = self.table_query(id);
        self.run_new_query(id, sql);
    }

    /// Makes the only scratch tab active, after opening it with the text that was kept
    /// where it is not open.
    pub fn focus_scratch_tab(&mut self, text: String)
        requires
            old(self).next_tab_id < u64::MAX,
        ensures
            final(self).deep_view() == old(self).deep_view().focus_scratch_tab(text@),
    {
        if let Some(k) = find_kind(&self.tabs, &TabKind::Scratch) {
            self.activate_tab(k);
            return;
        }
        let tab = Tab::scratch(self.next_tab_id, text);
        self.open_tab(tab);
    }

    /// Closes a tab.
    pub fn close_tab(&mut self, id: u64)
        ensures
            final(self).deep_view() == old(self).deep_view().close_tab(id),
    {
        let at = match self.tab_index(id) {
            None => {
                return;
            },
            Some(at) => at,
        };
        let active_id = self.active_id();
        self.tabs.remove(at);
        proof {
            assert(self.tabs.deep_view() =~= old(self).tabs.deep_view().remove(at as int));
        }
        if self.tabs.len() == 0 {
            self.active = None;
            return;
        }
        match active_id {
            Some(aid) => if aid == id {
                self.active = Some(
                    if at < self.tabs.len() {
                        at
                    } else {
                        self.tabs.len() - 1
                    },
                );
            } else {
                self.active = self.tab_index(aid);
            },
            None => {
                self.active = None;
            },
        }
    }

    /// Closes every tab.
    pub fn close_all_tabs(&mut self)
        ensures
            final(self).deep_view() == old(self).deep_view().close_all_tabs(),
    {
        self.tabs.clear();
        self.active = None;
        proof {
            assert(self.tabs.deep_view() =~= Seq::<TabView>::empty());
        }
    }

    /// Opens the relation that is selected in the tree in a tab.
    pub fn open_selected_tree_node(&mut self, selected: Option<&str>)
        requires
            old(self).next_tab_id < u64::MAX,
        ensures
            final(self).deep_view() == old(self).deep_view().open_selected_tree_node(
                selected.deep_view(),
            ),
    {
        if let Some((schema, table)) = find_relation(&self.tree.meta, selected) {
            self.open_table_tab(schema, table);
        }
    }

    /// Opens the table that waits to be opened, if there is one.
    pub fn open_waiting(&mut self)
        requires
            old(self).next_tab_id < u64::MAX,
        ensures
            final(self).deep_view() == old(self).deep_view().open_waiting(),
    {
        let mut waiting: Option<(String, String)> = None;
        std::mem::swap(&mut waiting, &mut self.pending_open);
        if let Some((schema, table)) = waiting {
            self.open_table_tab(schema, table);
        }
    }

    /// Takes in the text of the editor of a tab, and where the cursor stands.
    pub fn editor_changed(&mut self, id: u64, text: String, cursor: usize)
        ensures
            final(self).deep_view() == old(self).deep_view().editor_changed(id, text@, cursor),
    {
        if let Some(i) = self.tab_index(id) {
            let tab = &mut self.tabs[i];
            tab.editor = text;
            tab.cursor = cursor;
            proof {
                assert(self.deep_view().tabs =~= old(self).deep_view().tabs.update(
                    i as int,
                    TabView {
                        editor: text@,
                        cursor,
                        ..old(self).deep_view().tabs[i as int]
                    },
                ));
            }
        }
    }

    /// Takes in the text of the filter of a tab.
    pub fn filter_changed(&mut self, id: u64, text: String)
        ensures
            final(self).deep_view() == old(self).deep_view().filter_changed(id, text@),
    {
        if let Some(i) = self.tab_index(id) {
            self.tabs[i].filter = text;
            proof {
                assert(self.deep_view().tabs =~= old(self).deep_view().tabs.update(
                    i as int,
                    TabView { filter: text@, ..old(self).deep_view().tabs[i as int] },
                ));
            }
        }
    }
}

} // verus!
