//! What running a tab asks for and what is made of the answer.

use vstd::prelude::*;
use crate::edit::DescribedResultView;
use crate::query::QueryOutcomeView;
use crate::sql::statement_text;
use crate::text::{decimal, joined};
use crate::workspace::query::{plan_lines, result_status, table_sql};
use crate::workspace::query_laws::{
    law_a_query_is_sent_as_it_is, lemma_says_something, lemma_tab_id, lemma_tab_kept, says_something,
};
use crate::workspace::staging::committed;
use crate::workspace::state::{lemma_position, EffectView, WorkspaceView};
use crate::workspace::tab::{TabKindView, TabView};

verus! {

/// Whether a tab is left with a new query: nothing is ordered, edited, staged or marked, and
/// nothing is known yet of how its result can be edited.
pub open spec fn is_started(t: TabView, sql: Seq<char>) -> bool {
    &&& t.base_sql == Some(sql)
    &&& t.last_sql == Some(sql)
    &&& t.running
    &&& t.sort_state is None
    &&& t.edit_target is None
    &&& t.edit_cols.len() == 0
    &&& t.editing is None
    &&& t.current_row is None
    &&& t.new_row_idx is None
    &&& t.pending.len() == 0
    &&& t.edited_cells == Set::<(usize, usize)>::empty()
    &&& t.plan is None
}

/// A new query asks for its result, and for how that can be edited, and starts its tab afresh;
/// what the tab shows stays until the answer is there.
pub proof fn law_new_query_is_asked_for(w: WorkspaceView, id: u64, sql: Seq<char>)
    requires
        w.conn is Some,
        w.tab(id) is Some,
        says_something(sql),
    ensures
        ({
            let t = w.tab(id)->0;
            let v = w.run_new_query(id, sql);
            let conn = w.conn->0;
            &&& v.tab(id) is Some
            &&& is_started(v.tab(id)->0, sql)
            &&& v.tab(id)->0.rows == t.rows
            &&& v.tab(id)->0.headers == t.headers
            &&& v.outbox == w.outbox.push(EffectView::ClearSelection { tab: id }).push(
                EffectView::Describe { tab: id, conn, sql },
            ).push(EffectView::Query { tab: id, conn, sql })
        }),
{
    reveal(WorkspaceView::run_sql);
    lemma_says_something(sql);
    let t = w.tab(id)->0;
    lemma_tab_id(w, id);
    let fresh = crate::workspace::query::restarted(t, sql);
    lemma_tab_kept(w, id, fresh);
    let asked = w.with_tab(id, fresh).with_effect(
        EffectView::ClearSelection { tab: id },
    ).describe_async(id, sql);
    assert(asked.tab(id) == Some(fresh));
    law_a_query_is_sent_as_it_is(asked, id, sql);
    lemma_tab_kept(
        asked,
        id,
        TabView {
            running: true,
            editing: None,
            new_row_idx: None,
            last_sql: Some(sql),
            ..fresh
        },
    );
}

/// Running the active tab runs the statement at the cursor of an editor, and the query of a
/// table with its filter as it is now.
pub proof fn law_active_tab_is_run(w: WorkspaceView)
    requires
        w.valid(),
        w.active_tab() is Some,
    ensures
        ({
            let t = w.active_tab()->0;
            &&& !(t.kind is Table) ==> w.run_active_tab() == w.run_new_query(
                t.id,
                statement_text(t.editor, t.cursor as int),
            )
            &&& t.kind is Table ==> w.run_active_tab() == w.run_new_query(t.id, table_sql(t))
        }),
{
    lemma_active_is_found(w);
}

/// Refreshing runs the query that the result came from, in no other order than its own.
pub proof fn law_refreshing_runs_the_same_query(w: WorkspaceView, id: u64)
    requires
        w.tab(id) is Some,
    ensures
        w.tab(id)->0.base_sql matches Some(sql) ==> w.reload_data(id) == w.run_new_query(id, sql),
        w.tab(id)->0.base_sql is None ==> w.reload_data(id) == w,
{
}

/// The answer to a query replaces what its tab shows: the columns and the rows, all of them,
/// also as the rows that were loaded. An answer with an error leaves both as they were.
pub proof fn law_answer_is_shown(
    w: WorkspaceView,
    id: u64,
    sql: Seq<char>,
    out: QueryOutcomeView,
)
    requires
        w.tab(id) is Some,
    ensures
        ({
            let t = w.tab(id)->0;
            let v = w.query_finished(id, sql, out);
            let u = v.tab(id)->0;
            &&& v.tab(id) is Some
            &&& !u.running
            &&& out.error is None ==> u.headers == out.headers && u.rows == out.rows && u.orig_rows
                == out.rows && u.current_row is None
            &&& out.error is Some ==> u.headers == t.headers && u.rows == t.rows && u.orig_rows
                == t.orig_rows && out.error->0.is_suffix_of(v.status)
            &&& u.base_sql == t.base_sql
            &&& u.sort_state == t.sort_state
            &&& u.edit_target == t.edit_target
            &&& u.edit_cols == t.edit_cols
        }),
{
    let t = w.tab(id)->0;
    lemma_tab_id(w, id);
    match out.error {
        Some(e) => {
            lemma_tab_kept(w, id, TabView { running: false, ..t });
            let v = w.query_finished(id, sql, out);
            assert(v.tab(id) == w.with_tab(id, TabView { running: false, ..t }).tab(id));
            assert(v.status.subrange(v.status.len() - e.len(), v.status.len() as int) =~= e);
        },
        None => {
            let shown = TabView {
                running: false,
                headers: out.headers,
                rows: out.rows,
                orig_rows: out.rows,
                current_row: None,
                ..t
            };
            lemma_tab_kept(w, id, shown);
            let v = w.query_finished(id, sql, out);
            assert(v.tab(id) == w.with_tab(id, shown).tab(id));
        },
    }
}

/// The status tells how many rows came, or, of a statement without columns, how many were
/// touched.
pub proof fn law_status_counts_the_rows(out: QueryOutcomeView)
    ensures
        out.headers.len() > 0 ==> (decimal(out.rows.len()) + " row(s) in "@).is_prefix_of(
            result_status(out),
        ),
        out.headers.len() == 0 ==> (decimal(out.affected as nat)
            + " row(s) affected in "@).is_prefix_of(result_status(out)),
{
    let s = result_status(out);
    let a = decimal(out.rows.len()) + " row(s) in "@;
    let b = decimal(out.affected as nat) + " row(s) affected in "@;
    if out.headers.len() > 0 {
        assert(s.subrange(0, a.len() as int) =~= a);
    } else {
        assert(s.subrange(0, b.len() as int) =~= b);
    }
}

/// A result can be edited as its description says, and not at all without one.
pub proof fn law_described_results_can_be_edited(
    w: WorkspaceView,
    id: u64,
    answer: Option<DescribedResultView>,
)
    requires
        w.tab(id) is Some,
    ensures
        ({
            let u = w.described(id, answer).tab(id)->0;
            &&& w.described(id, answer).tab(id) is Some
            &&& answer is None ==> u.edit_target is None && u.edit_cols.len() == 0
            &&& answer is Some ==> u.edit_target == Some(answer->0.target) && u.edit_cols
                == answer->0.columns
            &&& u.rows == w.tab(id)->0.rows
            &&& u.pending == w.tab(id)->0.pending
        }),
{
    let t = w.tab(id)->0;
    lemma_tab_id(w, id);
    lemma_tab_kept(
        w,
        id,
        match answer {
            Some(d) => TabView { edit_target: Some(d.target), edit_cols: d.columns, ..t },
            None => TabView { edit_target: None, edit_cols: Seq::empty(), ..t },
        },
    );
}

/// A plan is shown line by line beside the result, which stays as it is; so does an error that
/// came in its place.
pub proof fn law_plan_is_shown_beside_the_result(
    w: WorkspaceView,
    id: u64,
    sql: Seq<char>,
    out: QueryOutcomeView,
)
    requires
        w.tab(id) is Some,
    ensures
        ({
            let t = w.tab(id)->0;
            let v = w.explain_finished(id, sql, out);
            let u = v.tab(id)->0;
            &&& v.tab(id) is Some
            &&& u.plan is Some
            &&& out.error is None ==> u.plan->0 == joined(plan_lines(out.rows), "\n"@)
            &&& out.error is Some ==> out.error->0.is_suffix_of(u.plan->0)
            &&& u.headers == t.headers
            &&& u.rows == t.rows
            &&& u.orig_rows == t.orig_rows
            &&& u.pending == t.pending
            &&& !u.running
            &&& v.outbox == w.outbox
        }),
{
    let t = w.tab(id)->0;
    lemma_tab_id(w, id);
    let v = w.explain_finished(id, sql, out);
    match out.error {
        Some(e) => {
            let shown = TabView { running: false, plan: Some("Error: "@ + e), ..t };
            lemma_tab_kept(w, id, shown);
            assert(v.tab(id) == w.with_tab(id, shown).tab(id));
            let p = "Error: "@ + e;
            assert(p.subrange(p.len() - e.len(), p.len() as int) =~= e);
        },
        None => {
            let shown = TabView {
                running: false,
                plan: Some(joined(plan_lines(out.rows), "\n"@)),
                ..t
            };
            lemma_tab_kept(w, id, shown);
            assert(v.tab(id) == w.with_tab(id, shown).tab(id));
        },
    }
}

/// Only what runs on the open connection is cancelled.
pub proof fn law_cancelling_names_the_connection(w: WorkspaceView)
    ensures
        w.conn matches Some(conn) ==> w.cancel().outbox == w.outbox.push(
            EffectView::Cancel { conn },
        ),
        w.conn is None ==> w.cancel() == w,
        w.cancel().tabs == w.tabs,
{
}

/// What is typed into an editor or a filter is what the tab then holds.
pub proof fn law_typed_text_is_held(
    w: WorkspaceView,
    id: u64,
    text: Seq<char>,
    cursor: usize,
)
    requires
        w.tab(id) is Some,
    ensures
        ({
            let t = w.tab(id)->0;
            &&& w.editor_changed(id, text, cursor).tab(id) == Some(
                TabView { editor: text, cursor, ..t },
            )
            &&& w.filter_changed(id, text).tab(id) == Some(TabView { filter: text, ..t })
        }),
{
    let t = w.tab(id)->0;
    lemma_tab_id(w, id);
    lemma_tab_kept(w, id, TabView { editor: text, cursor, ..t });
    lemma_tab_kept(w, id, TabView { filter: text, ..t });
}

/// A tab of a table bears the name of the table with its schema, and starts without a filter.
pub proof fn law_new_table_tab(id: u64, schema: Seq<char>, table: Seq<char>)
    ensures
        ({
            let t = TabView::table(id, schema, table);
            &&& t.id == id
            &&& t.kind == (TabKindView::Table { schema, table })
            &&& t.title == schema + "."@ + table
            &&& t.filter.len() == 0
            &&& t.rows.len() == 0
            &&& t.pending.len() == 0
        }),
{
}

/// The query that is explained or formatted is that of the active tab as a whole: the text of
/// its editor, or the query of its table.
pub proof fn law_active_query_is_whole(w: WorkspaceView)
    requires
        w.valid(),
        w.active_tab() is Some,
    ensures
        ({
            let t = w.active_tab()->0;
            &&& !(t.kind is Table) ==> w.active_sql() == t.editor
            &&& t.kind is Table ==> w.active_sql() == table_sql(t)
        }),
{
    lemma_active_is_found(w);
}

proof fn lemma_active_is_found(w: WorkspaceView)
    requires
        w.valid(),
        w.active_tab() is Some,
    ensures
        w.tab(w.active_tab()->0.id) == w.active_tab(),
{
    let t = w.active_tab()->0;
    let i = w.active->0 as int;
    lemma_position(w.tabs, t.id);
    if let Some(k) = crate::workspace::state::position(w.tabs, t.id) {
        if k < i {
            assert(crate::workspace::state::compatible(w.tabs[k], w.tabs[i]));
        } else if i < k {
            assert(crate::workspace::state::compatible(w.tabs[i], w.tabs[k]));
        }
    } else {
        assert(w.tabs[i].id == t.id);
    }
}

/// The text of the cell editor becomes the value of the cell that is being edited, and an empty
/// text becomes NULL; no other tab changes.
pub proof fn law_typed_cell_is_committed(w: WorkspaceView)
    requires
        w.valid(),
        w.active_tab() is Some,
        w.active_tab()->0.editing is Some,
    ensures
        ({
            let t = w.active_tab()->0;
            let at = t.editing->0;
            let value = if w.cell_text.len() == 0 {
                None
            } else {
                Some(w.cell_text)
            };
            let v = w.commit_cell_edit();
            &&& v.active == w.active
            &&& v.active_tab() == Some(committed(t, at.0, at.1, value))
            &&& v.tabs.len() == w.tabs.len()
            &&& forall|i: int|
                0 <= i < w.tabs.len() && i != w.active->0 ==> #[trigger] v.tabs[i] == w.tabs[i]
        }),
{
    lemma_active_is_found(w);
    let t = w.active_tab()->0;
    let i = w.active->0 as int;
    lemma_position(w.tabs, t.id);
    let k = crate::workspace::state::position(w.tabs, t.id)->0;
    if k < i {
        assert(crate::workspace::state::compatible(w.tabs[k], w.tabs[i]));
    } else if i < k {
        assert(crate::workspace::state::compatible(w.tabs[i], w.tabs[k]));
    }
}

/// Without an open cell editor there is nothing to commit.
pub proof fn law_nothing_is_committed_without_an_editor(w: WorkspaceView)
    requires
        w.valid(),
        w.active_tab() matches Some(t) ==> t.editing is None,
    ensures
        w.commit_cell_edit() == w,
{
    if w.active_tab() is Some {
        lemma_active_is_found(w);
    }
}

} // verus!
