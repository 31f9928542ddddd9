//! What is asked of the server: the order that a header shows, the plan of a query, the rows
//! of a table, the statement at the cursor.

use vstd::prelude::*;
use crate::edit::ident;
use crate::script_laws::{is_blank, is_core, law_trim_leaves_the_core};
use crate::sql::{bare_query, without_semicolons};
use crate::statement_laws::{eat, read_table};
use crate::text::trim;
use crate::workspace::edit::lemma_same_position;
use crate::workspace::query::{plan_lines, table_sql};
use crate::export::Cell;
use crate::workspace::state::{lemma_position, position, EffectView, WorkspaceView};
use crate::workspace::tab::{TabKindView, TabView};

verus! {

// ---- queries inside others -------------------------------------------------------

/// Whether a text is a query without the white space round it and without the semicolons that
/// end it.
pub open spec fn is_bare(q: Seq<char>, base: Seq<char>) -> bool {
    exists|x: int, y: int, e: int|
        #![trigger base.subrange(x, y), base.subrange(x, e)]
        {
            &&& is_core(base.subrange(x, y), base, x, y)
            &&& x <= e <= y
            &&& q == base.subrange(x, e)
            &&& forall|i: int| e <= i < y ==> #[trigger] base[i] == ';'
            &&& (x < e ==> base[e - 1] != ';')
        }
}

proof fn lemma_semicolons(s: Seq<char>) -> (e: int)
    ensures
        0 <= e <= s.len(),
        without_semicolons(s) == s.take(e),
        forall|i: int| e <= i < s.len() ==> #[trigger] s[i] == ';',
        0 < e ==> s[e - 1] != ';',
    decreases s.len(),
{
    if s.len() > 0 && s.last() == ';' {
        let less = s.drop_last();
        let e = lemma_semicolons(less);
        assert(less.take(e) =~= s.take(e));
        assert forall|i: int| e <= i < s.len() implies #[trigger] s[i] == ';' by {
            if i < less.len() {
                assert(s[i] == less[i]);
            }
        }
        if 0 < e {
            assert(s[e - 1] == less[e - 1]);
        }
        e
    } else {
        assert(s.take(s.len() as int) =~= s);
        s.len() as int
    }
}

/// A query that is put into another one is its text without the white space round it and
/// without the semicolons that end it.
pub proof fn law_bare_query(base: Seq<char>)
    ensures
        is_bare(bare_query(base), base),
{
    law_trim_leaves_the_core(base);
    let (x, y) = choose|x: int, y: int| is_core(trim(base), base, x, y);
    let t = trim(base);
    let k = lemma_semicolons(t);
    assert(t.take(k) =~= base.subrange(x, x + k));
    assert(t == base.subrange(x, y));
    assert forall|i: int| x + k <= i < y implies #[trigger] base[i] == ';' by {
        assert(t[i - x] == base[i]);
    }
    if 0 < k {
        assert(t[k - 1] == base[x + k - 1]);
    }
    assert(is_core(base.subrange(x, y), base, x, y));
    assert(bare_query(base) == base.subrange(x, x + k));
}

pub(crate) proof fn lemma_tab_kept(w: WorkspaceView, id: u64, t: TabView)
    requires
        w.tab(id) is Some,
        t.id == id,
    ensures
        w.with_tab(id, t).tab(id) == Some(t),
        w.with_tab(id, t).conn == w.conn,
{
    lemma_position(w.tabs, id);
    let k = position(w.tabs, id)->0;
    lemma_same_position(w.tabs, k, t, id);
}

pub(crate) proof fn lemma_tab_id(w: WorkspaceView, id: u64)
    requires
        w.tab(id) is Some,
    ensures
        w.tab(id)->0.id == id,
{
    lemma_position(w.tabs, id);
}

/// Whether a text is not blank.
pub open spec fn says_something(s: Seq<char>) -> bool {
    exists|i: int| 0 <= i < s.len() && !is_blank(#[trigger] s[i])
}

pub(crate) proof fn lemma_says_something(s: Seq<char>)
    ensures
        says_something(s) == (trim(s).len() > 0),
{
    law_trim_leaves_the_core(s);
    let (x, y) = choose|x: int, y: int| is_core(trim(s), s, x, y);
    if says_something(s) {
        let i = choose|i: int| 0 <= i < s.len() && !is_blank(#[trigger] s[i]);
        assert(x <= i < y);
    }
    if trim(s).len() > 0 {
        assert(!is_blank(s[x]));
    }
}

/// What running a query in an open tab asks for: that query, on the connection, for that tab.
pub proof fn law_a_query_is_sent_as_it_is(w: WorkspaceView, id: u64, sql: Seq<char>)
    requires
        w.conn is Some,
        w.tab(id) is Some,
        says_something(sql),
    ensures
        w.run_sql(id, sql).outbox == w.outbox.push(
            EffectView::Query { tab: id, conn: w.conn->0, sql },
        ),
        w.run_sql(id, sql).tab(id) matches Some(t) && t.running && t.last_sql == Some(sql)
            && t.editing is None && t.new_row_idx is None && t.rows == w.tab(id)->0.rows && t.pending
            == w.tab(id)->0.pending && t.sort_state == w.tab(id)->0.sort_state && t.headers
            == w.tab(id)->0.headers,
{
    reveal(WorkspaceView::run_sql);
    lemma_says_something(sql);
    lemma_tab_id(w, id);
    lemma_tab_kept(
        w,
        id,
        TabView {
            running: true,
            editing: None,
            new_row_idx: None,
            last_sql: Some(sql),
            ..w.tab(id)->0
        },
    );
}

// ---- the order that a header shows -------------------------------------------------

/// A click on the header of a column goes from no order to ascending, from ascending to
/// descending, from descending to none, and from the order of another column to ascending.
/// The query is run again in the order that the header then shows: wrapped, with `ASC` behind
/// the quoted name where it is ascending, with `DESC` where it is descending, and as it was
/// where there is none.
pub proof fn law_a_header_sorts_as_it_shows(w: WorkspaceView, id: u64, col: usize)
    requires
        w.conn is Some,
        w.tab(id) is Some,
        w.tab(id)->0.base_sql is Some,
        says_something(w.tab(id)->0.base_sql->0),
        col < w.tab(id)->0.headers.len(),
    ensures
        ({
            let t = w.tab(id)->0;
            let v = w.toggle_sort(id, col);
            let base = t.base_sql->0;
            let name = ident(t.headers[col as int]);
            let shown = v.tab(id)->0.sort_state;
            &&& v.tab(id) is Some
            &&& v.tab(id)->0.headers == t.headers
            &&& t.sort_state is None ==> shown == Some((col, false))
            &&& t.sort_state == Some((col, false)) ==> shown == Some((col, true))
            &&& t.sort_state == Some((col, true)) ==> shown is None
            &&& (t.sort_state is Some && (t.sort_state->0).0 != col) ==> shown == Some((col, false))
            &&& v.outbox.len() == w.outbox.len() + 1
            &&& v.outbox.last() matches EffectView::Query { tab, conn, sql }
            &&& tab == id && conn == w.conn->0
            &&& shown is None ==> sql == base
            &&& shown == Some((col, false)) ==> (name + " ASC"@).is_suffix_of(sql)
            &&& shown == Some((col, true)) ==> (name + " DESC"@).is_suffix_of(sql)
            &&& shown is Some ==> exists|q: Seq<char>|
                is_bare(q, base) && sql == #[trigger] ("SELECT * FROM ("@ + q
                    + ") AS _zdb ORDER BY "@) + name + (if (shown->0).1 {
                    " DESC"@
                } else {
                    " ASC"@
                })
        }),
{
    let t = w.tab(id)->0;
    let base = t.base_sql->0;
    let next = crate::workspace::query::next_sort(t.sort_state, col);
    let noted = w.with_tab(id, TabView { sort_state: next, ..t });
    let sql = crate::workspace::query::sorted_sql(base, t.headers, next);
    let name = ident(t.headers[col as int]);
    lemma_tab_id(w, id);
    lemma_tab_kept(w, id, TabView { sort_state: next, ..t });
    law_bare_query(base);
    let head = "SELECT * FROM ("@ + bare_query(base) + ") AS _zdb ORDER BY "@;
    if let Some((c, desc)) = t.sort_state {
        assert(t.sort_state == Some((c, desc)));
    }
    match next {
        None => {},
        Some((c, desc)) => {
            assert(c == col);
            let dir = if desc {
                " DESC"@
            } else {
                " ASC"@
            };
            assert(sql =~= head + name + dir);
            assert((name + dir).is_suffix_of(sql)) by {
                let n = (name + dir).len();
                assert(sql.subrange(sql.len() - n, sql.len() as int) =~= name + dir);
            }
            reveal_strlit("SELECT * FROM (");
            assert(sql[0] == 'S');
            assert(!is_blank(sql[0]));
            assert(says_something(sql));
        },
    }
    assert(says_something(sql));
    law_a_query_is_sent_as_it_is(noted, id, sql);
}

// ---- plans -------------------------------------------------------------------------

/// The plan of the query of the active tab is asked for with `EXPLAIN` before it, which does
/// not run it; only where it is to be run, `ANALYZE` stands between them.
pub proof fn law_explain_asks_for_the_plan(w: WorkspaceView, analyze: bool)
    requires
        w.conn is Some,
        w.active_tab() is Some,
        bare_query(w.active_sql()).len() > 0,
    ensures
        ({
            let v = w.explain_active(analyze);
            &&& v.outbox.len() == w.outbox.len() + 1
            &&& v.outbox.last() matches EffectView::Explain { tab, conn, sql }
            &&& tab == w.active_tab()->0.id && conn == w.conn->0
            &&& exists|q: Seq<char>| #[trigger]
                is_bare(q, w.active_sql()) && sql == (if analyze {
                    "EXPLAIN (ANALYZE, BUFFERS) "@
                } else {
                    "EXPLAIN "@
                }) + q
        }),
{
    law_bare_query(w.active_sql());
    let q = bare_query(w.active_sql());
    assert(is_bare(q, w.active_sql()));
}

/// Whether a cell begins a line of a plan.
pub open spec fn has_line(row: Seq<Cell>) -> bool {
    row.len() > 0 && row[0] is Some
}

/// A plan has a line for each row that has a first cell that is not NULL, in their order.
pub proof fn law_plan_has_every_line(rows: Seq<Seq<Cell>>)
    ensures
        plan_lines(rows).len() == rows.filter(|r: Seq<Cell>| has_line(r)).len(),
        forall|i: int|
            0 <= i < rows.len() && has_line(#[trigger] rows[i]) ==> {
                let k = rows.take(i).filter(|r: Seq<Cell>| has_line(r)).len() as int;
                k < plan_lines(rows).len() && Some(plan_lines(rows)[k]) == rows[i][0]
            },
    decreases rows.len(),
{
    let with_line = |r: Seq<Cell>| has_line(r);
    reveal(Seq::filter);
    if rows.len() > 0 {
        let front = rows.drop_last();
        law_plan_has_every_line(front);
        assert forall|i: int| 0 <= i < rows.len() && has_line(#[trigger] rows[i]) implies ({
            let k = rows.take(i).filter(with_line).len() as int;
            k < plan_lines(rows).len() && Some(plan_lines(rows)[k]) == rows[i][0]
        }) by {
            if i < front.len() {
                assert(front[i] == rows[i]);
                assert(front.take(i) =~= rows.take(i));
            } else {
                assert(rows.take(i) =~= front);
            }
        }
    }
}

// ---- tables ------------------------------------------------------------------------

/// The query of a table tab reads back as all columns of that table, with the text of the
/// filter, as it stands, as its condition where it says something, and at most 500 rows.
pub proof fn law_table_query_reads_back(t: TabView, schema: Seq<char>, table: Seq<char>)
    requires
        t.kind == (TabKindView::Table { schema, table }),
    ensures
        eat(table_sql(t), "SELECT * FROM "@) matches Some(rest) && read_table(rest) matches Some(
            (s, n, rest),
        ) && s == schema && n == table && (if says_something(t.filter) {
            exists|x: int, y: int|
                is_core(#[trigger] t.filter.subrange(x, y), t.filter, x, y) && rest == " WHERE "@
                    + t.filter.subrange(x, y) + " LIMIT 500"@
        } else {
            rest == " LIMIT 500"@
        }),
{
    reveal_strlit(" WHERE ");
    reveal_strlit(" LIMIT ");
    reveal_strlit(" LIMIT 500");
    reveal_strlit("500");
    lemma_says_something(t.filter);
    law_trim_leaves_the_core(t.filter);
    let w = trim(t.filter);
    let (x, y) = choose|x: int, y: int| is_core(w, t.filter, x, y);
    assert(w == t.filter.subrange(x, y));
    lemma_five_hundred();
    let limit = " LIMIT 500"@;
    assert(" LIMIT "@ + crate::text::decimal(500) =~= limit);
    let tail = if w.len() == 0 {
        limit
    } else {
        " WHERE "@ + w + limit
    };
    assert(tail[0] == ' ');
    let target = crate::edit::EditTargetView { schema, table, pk_columns: Seq::empty() };
    crate::statement_laws::lemma_read_table(target, tail);
    crate::statement_laws::lemma_eat("SELECT * FROM "@, target.qualified() + tail);
    assert(table_sql(t) =~= "SELECT * FROM "@ + (target.qualified() + tail));
}

proof fn lemma_five_hundred()
    ensures
        crate::text::decimal(500) == seq!['5', '0', '0'],
{
    reveal_with_fuel(crate::text::decimal, 4);
    assert(crate::text::decimal(500) =~= seq!['5', '0', '0']);
}

} // verus!
