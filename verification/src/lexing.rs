//! How generated SQL reads: names and values never change where a statement ends.

use vstd::prelude::*;
use crate::edit::{
    assignment, batch_line, batch_text, condition, first_fault, ident, key_condition, literal,
    EditTargetView, PairView, RowEditView,
};
use crate::export::{cell_at, insert_line, inserts_text, row_literals, Cell};
use crate::sql::{piece_end, quoted_end, separators};
use crate::text::{concat_all, doubled, joined, quoted};

verus! {

/// A character that is a piece of SQL by itself, whatever follows it.
pub open spec fn is_plain(c: char) -> bool {
    c != '\'' && c != '"' && c != '-' && c != '/' && c != '$' && c != ';'
}

/// A text of plain characters.
pub open spec fn plain(t: Seq<char>) -> bool {
    forall|i: int| 0 <= i < t.len() ==> is_plain(#[trigger] t[i])
}

/// Reading `t` inside `pre + t + post` meets no separator and ends where `t` ends.
pub open spec fn reads_through(pre: Seq<char>, t: Seq<char>, post: Seq<char>) -> bool {
    separators(pre + t + post, pre.len() as int) == separators(
        pre + t + post,
        (pre.len() + t.len()) as int,
    )
}

/// A text that holds no separator wherever it stands.
pub open spec fn open_ended(t: Seq<char>) -> bool {
    forall|pre: Seq<char>, post: Seq<char>| #[trigger] reads_through(pre, t, post)
}

/// A text that holds no separator wherever it stands, unless a quote follows it.
pub open spec fn closed(t: Seq<char>) -> bool {
    forall|pre: Seq<char>, post: Seq<char>|
        (post.len() == 0 || (post[0] != '\'' && post[0] != '"')) ==> #[trigger] reads_through(
            pre,
            t,
            post,
        )
}

proof fn lemma_plain(t: Seq<char>)
    requires
        plain(t),
    ensures
        open_ended(t),
        closed(t),
{
    assert forall|pre: Seq<char>, post: Seq<char>| #[trigger] reads_through(pre, t, post) by {
        lemma_plain_at(pre, t, post, 0);
    }
}

proof fn lemma_plain_at(pre: Seq<char>, t: Seq<char>, post: Seq<char>, k: int)
    requires
        plain(t),
        0 <= k <= t.len(),
    ensures
        separators(pre + t + post, pre.len() + k) == separators(
            pre + t + post,
            (pre.len() + t.len()) as int,
        ),
    decreases t.len() - k,
{
    if k < t.len() {
        lemma_plain_at(pre, t, post, k + 1);
        let s = pre + t + post;
        let i = pre.len() + k;
        assert(s[i] == t[k]);
        assert(is_plain(t[k]));
        assert(s.skip(i)[0] == s[i]);
        assert(piece_end(s, i) == i + 1);
    }
}

/// Doubling from the front: the first character, then the rest.
pub proof fn lemma_doubled_front(s: Seq<char>, q: char)
    requires
        s.len() > 0,
    ensures
        doubled(s, q) == (if s[0] == q {
            seq![q, q]
        } else {
            seq![s[0]]
        }) + doubled(s.drop_first(), q),
    decreases s.len(),
{
    if s.len() == 1 {
        assert(s.drop_last() =~= Seq::<char>::empty());
        assert(s.drop_first() =~= Seq::<char>::empty());
        assert(doubled(s, q) =~= (if s[0] == q {
            seq![q, q]
        } else {
            seq![s[0]]
        }) + doubled(s.drop_first(), q));
    } else {
        lemma_doubled_front(s.drop_last(), q);
        assert(s.drop_last().drop_first() =~= s.drop_first().drop_last());
        assert(doubled(s, q) =~= (if s[0] == q {
            seq![q, q]
        } else {
            seq![s[0]]
        }) + doubled(s.drop_first(), q));
    }
}

/// The closing quote is found behind the doubled text.
proof fn lemma_quoted_end_of(t: Seq<char>, i: int, s: Seq<char>, q: char)
    requires
        0 <= i,
        i + doubled(s, q).len() < t.len(),
        t.subrange(i, i + doubled(s, q).len()) == doubled(s, q),
        t[i + doubled(s, q).len()] == q,
        i + doubled(s, q).len() + 1 >= t.len() || t[i + doubled(s, q).len() + 1] != q,
    ensures
        quoted_end(t, i, q) == i + doubled(s, q).len() + 1,
    decreases s.len(),
{
    let d = doubled(s, q);
    if s.len() > 0 {
        lemma_doubled_front(s, q);
        let rest = doubled(s.drop_first(), q);
        assert(t[i] == t.subrange(i, i + d.len())[0]);
        if s[0] == q {
            assert(t[i + 1] == t.subrange(i, i + d.len())[1]);
            assert(t.subrange(i + 2, i + 2 + rest.len()) =~= rest) by {
                assert forall|k: int| 0 <= k < rest.len() implies t.subrange(
                    i + 2,
                    i + 2 + rest.len(),
                )[k] == rest[k] by {
                    assert(t.subrange(i, i + d.len())[k + 2] == d[k + 2]);
                }
            }
            lemma_quoted_end_of(t, i + 2, s.drop_first(), q);
        } else {
            assert(t.subrange(i + 1, i + 1 + rest.len()) =~= rest) by {
                assert forall|k: int| 0 <= k < rest.len() implies t.subrange(
                    i + 1,
                    i + 1 + rest.len(),
                )[k] == rest[k] by {
                    assert(t.subrange(i, i + d.len())[k + 1] == d[k + 1]);
                }
            }
            lemma_quoted_end_of(t, i + 1, s.drop_first(), q);
        }
    }
}

/// A quoted text is one piece of SQL, whatever it holds, unless a quote follows it.
pub proof fn law_quoted_is_one_piece(pre: Seq<char>, s: Seq<char>, q: char, post: Seq<char>)
    requires
        q == '\'' || q == '"',
        post.len() == 0 || post[0] != q,
    ensures
        piece_end(pre + quoted(s, q) + post, pre.len() as int) == pre.len() + quoted(s, q).len(),
{
    let t = pre + quoted(s, q) + post;
    let d = doubled(s, q);
    let i = pre.len() as int;
    assert(t[i] == quoted(s, q)[0]);
    assert(t.subrange(i + 1, i + 1 + d.len()) =~= d);
    assert(t[i + 1 + d.len()] == quoted(s, q)[1 + d.len() as int]);
    if post.len() > 0 {
        assert(t[i + 2 + d.len()] == post[0]);
    }
    lemma_quoted_end_of(t, i + 1, s, q);
}

proof fn lemma_quoted_closed(s: Seq<char>, q: char)
    requires
        q == '\'' || q == '"',
    ensures
        closed(quoted(s, q)),
{
    assert forall|pre: Seq<char>, post: Seq<char>|
        (post.len() == 0 || (post[0] != '\'' && post[0]
            != '"')) implies #[trigger] reads_through(pre, quoted(s, q), post) by {
        law_quoted_is_one_piece(pre, s, q, post);
        let t = pre + quoted(s, q) + post;
        assert(t[pre.len() as int] == q);
    }
}

proof fn lemma_open_then_closed(a: Seq<char>, b: Seq<char>)
    requires
        open_ended(a),
        closed(b),
    ensures
        closed(a + b),
{
    assert forall|pre: Seq<char>, post: Seq<char>|
        (post.len() == 0 || (post[0] != '\'' && post[0]
            != '"')) implies #[trigger] reads_through(pre, a + b, post) by {
        assert(reads_through(pre, a, b + post));
        assert(reads_through(pre + a, b, post));
        assert(pre + a + (b + post) =~= pre + (a + b) + post);
        assert(pre + a + b + post =~= pre + (a + b) + post);
    }
}

proof fn lemma_closed_then_plain(a: Seq<char>, b: Seq<char>)
    requires
        closed(a),
        plain(b),
        b.len() > 0,
    ensures
        open_ended(a + b),
        closed(a + b),
{
    lemma_plain(b);
    assert forall|pre: Seq<char>, post: Seq<char>| #[trigger] reads_through(pre, a + b, post) by {
        assert(is_plain(b[0]));
        assert((b + post)[0] == b[0]);
        assert(reads_through(pre, a, b + post));
        assert(reads_through(pre + a, b, post));
        assert(pre + a + (b + post) =~= pre + (a + b) + post);
        assert(pre + a + b + post =~= pre + (a + b) + post);
    }
}

proof fn lemma_joined_closed(parts: Seq<Seq<char>>, sep: Seq<char>)
    requires
        parts.len() > 0,
        forall|i: int| 0 <= i < parts.len() ==> closed(#[trigger] parts[i]),
        plain(sep),
        sep.len() > 0,
    ensures
        closed(joined(parts, sep)),
    decreases parts.len(),
{
    if parts.len() > 1 {
        lemma_joined_closed(parts.drop_last(), sep);
        lemma_closed_then_plain(joined(parts.drop_last(), sep), sep);
        assert(closed(parts[parts.len() - 1]));
        lemma_open_then_closed(joined(parts.drop_last(), sep) + sep, parts.last());
    }
}

proof fn lemma_words()
    ensures
        plain("."@) && "."@.len() > 0,
        plain(" = "@) && " = "@.len() > 0,
        plain(", "@) && ", "@.len() > 0,
        plain(" AND "@) && " AND "@.len() > 0,
        plain(" IS NULL"@) && " IS NULL"@.len() > 0,
        plain("NULL"@),
        plain("UPDATE "@),
        plain(" SET "@) && " SET "@.len() > 0,
        plain(" WHERE "@) && " WHERE "@.len() > 0,
        plain("INSERT INTO "@),
        plain(" ("@) && " ("@.len() > 0,
        plain(") VALUES ("@) && ") VALUES ("@.len() > 0,
        plain(")"@) && ")"@.len() > 0,
        plain("DELETE FROM "@),
{
    reveal_strlit(".");
    reveal_strlit(" = ");
    reveal_strlit(", ");
    reveal_strlit(" AND ");
    reveal_strlit(" IS NULL");
    reveal_strlit("NULL");
    reveal_strlit("UPDATE ");
    reveal_strlit(" SET ");
    reveal_strlit(" WHERE ");
    reveal_strlit("INSERT INTO ");
    reveal_strlit(" (");
    reveal_strlit(") VALUES (");
    reveal_strlit(")");
    reveal_strlit("DELETE FROM ");
}

proof fn lemma_ident(name: Seq<char>)
    ensures
        closed(ident(name)),
{
    lemma_quoted_closed(name, '"');
}

proof fn lemma_literal(v: Option<Seq<char>>)
    ensures
        closed(literal(v)),
{
    lemma_words();
    match v {
        None => lemma_plain("NULL"@),
        Some(s) => lemma_quoted_closed(s, '\''),
    }
}

proof fn lemma_qualified(target: EditTargetView)
    ensures
        closed(target.qualified()),
{
    lemma_words();
    lemma_ident(target.schema);
    lemma_ident(target.table);
    lemma_closed_then_plain(ident(target.schema), "."@);
    lemma_open_then_closed(ident(target.schema) + "."@, ident(target.table));
}

proof fn lemma_assignment(p: PairView)
    ensures
        closed(assignment(p)),
{
    lemma_words();
    lemma_ident(p.0);
    lemma_literal(p.1);
    lemma_closed_then_plain(ident(p.0), " = "@);
    lemma_open_then_closed(ident(p.0) + " = "@, literal(p.1));
}

proof fn lemma_condition(p: PairView)
    ensures
        closed(condition(p)),
{
    lemma_words();
    lemma_assignment(p);
    lemma_ident(p.0);
    lemma_closed_then_plain(ident(p.0), " IS NULL"@);
}

proof fn lemma_key_condition(pk: Seq<PairView>)
    requires
        pk.len() > 0,
    ensures
        closed(key_condition(pk)),
{
    lemma_words();
    let parts = pk.map_values(|p: PairView| condition(p));
    assert forall|i: int| 0 <= i < parts.len() implies closed(#[trigger] parts[i]) by {
        lemma_condition(pk[i]);
    }
    lemma_joined_closed(parts, " AND "@);
}

proof fn lemma_edit_closed(edit: RowEditView, target: EditTargetView)
    requires
        edit.sql(target) is Ok,
    ensures
        closed(edit.sql(target)->Ok_0),
{
    lemma_words();
    lemma_qualified(target);
    let tbl = target.qualified();
    match edit {
        RowEditView::Update { pk, set } => {
            let parts = set.map_values(|p: PairView| assignment(p));
            assert forall|i: int| 0 <= i < parts.len() implies closed(#[trigger] parts[i]) by {
                lemma_assignment(set[i]);
            }
            lemma_joined_closed(parts, ", "@);
            lemma_key_condition(pk);
            lemma_plain("UPDATE "@);
            lemma_open_then_closed("UPDATE "@, tbl);
            lemma_closed_then_plain("UPDATE "@ + tbl, " SET "@);
            lemma_open_then_closed("UPDATE "@ + tbl + " SET "@, joined(parts, ", "@));
            lemma_closed_then_plain(
                "UPDATE "@ + tbl + " SET "@ + joined(parts, ", "@),
                " WHERE "@,
            );
            lemma_open_then_closed(
                "UPDATE "@ + tbl + " SET "@ + joined(parts, ", "@) + " WHERE "@,
                key_condition(pk),
            );
        },
        RowEditView::Insert { values } => {
            let cols = values.map_values(|p: PairView| ident(p.0));
            let vals = values.map_values(|p: PairView| literal(p.1));
            assert forall|i: int| 0 <= i < cols.len() implies closed(#[trigger] cols[i]) by {
                lemma_ident(values[i].0);
            }
            assert forall|i: int| 0 <= i < vals.len() implies closed(#[trigger] vals[i]) by {
                lemma_literal(values[i].1);
            }
            lemma_insert_closed(tbl, cols, vals);
        },
        RowEditView::Delete { pk } => {
            lemma_key_condition(pk);
            lemma_plain("DELETE FROM "@);
            lemma_open_then_closed("DELETE FROM "@, tbl);
            lemma_closed_then_plain("DELETE FROM "@ + tbl, " WHERE "@);
            lemma_open_then_closed("DELETE FROM "@ + tbl + " WHERE "@, key_condition(pk));
        },
    }
}

proof fn lemma_insert_closed(tbl: Seq<char>, cols: Seq<Seq<char>>, vals: Seq<Seq<char>>)
    requires
        closed(tbl),
        cols.len() > 0,
        vals.len() > 0,
        forall|i: int| 0 <= i < cols.len() ==> closed(#[trigger] cols[i]),
        forall|i: int| 0 <= i < vals.len() ==> closed(#[trigger] vals[i]),
    ensures
        closed(
            "INSERT INTO "@ + tbl + " ("@ + joined(cols, ", "@) + ") VALUES ("@ + joined(
                vals,
                ", "@,
            ) + ")"@,
        ),
{
    lemma_words();
    lemma_joined_closed(cols, ", "@);
    lemma_joined_closed(vals, ", "@);
    lemma_plain("INSERT INTO "@);
    let a = "INSERT INTO "@ + tbl;
    lemma_open_then_closed("INSERT INTO "@, tbl);
    lemma_closed_then_plain(a, " ("@);
    let b = a + " ("@ + joined(cols, ", "@);
    lemma_open_then_closed(a + " ("@, joined(cols, ", "@));
    lemma_closed_then_plain(b, ") VALUES ("@);
    let c = b + ") VALUES ("@ + joined(vals, ", "@);
    lemma_open_then_closed(b + ") VALUES ("@, joined(vals, ", "@));
    lemma_closed_then_plain(c, ")"@);
}

/// The SQL of a change is a single statement, whatever its names and values hold.
pub proof fn law_edit_is_one_statement(edit: RowEditView, target: EditTargetView)
    requires
        edit.sql(target) is Ok,
    ensures
        separators(edit.sql(target)->Ok_0, 0) == Seq::<int>::empty(),
{
    lemma_edit_closed(edit, target);
    let t = edit.sql(target)->Ok_0;
    assert(reads_through(Seq::empty(), t, Seq::empty()));
    assert(Seq::<char>::empty() + t + Seq::<char>::empty() =~= t);
}

/// A text without separators followed by `;` and a line end has one separator.
proof fn lemma_terminated(pre: Seq<char>, t: Seq<char>, post: Seq<char>)
    requires
        closed(t),
    ensures
        separators(pre + (t + ";\n"@) + post, pre.len() as int).len() == 1 + separators(
            pre + (t + ";\n"@) + post,
            (pre.len() + t.len() + 2) as int,
        ).len(),
        ";\n"@.len() == 2,
{
    reveal_strlit(";\n");
    let s = pre + (t + ";\n"@) + post;
    assert((";\n"@ + post)[0] == ';');
    assert(reads_through(pre, t, ";\n"@ + post));
    assert(pre + t + (";\n"@ + post) =~= s);
    let i = (pre.len() + t.len()) as int;
    assert(s[i] == ';');
    assert(s[i + 1] == '\n');
    assert(s.skip(i + 1)[0] == '\n');
    assert(piece_end(s, i + 1) == i + 2);
    assert(separators(s, i) =~= seq![i] + separators(s, i + 1));
}

proof fn lemma_lines(pre: Seq<char>, lines: Seq<Seq<char>>, bodies: Seq<Seq<char>>, post: Seq<char>)
    requires
        lines.len() == bodies.len(),
        forall|i: int| 0 <= i < bodies.len() ==> closed(#[trigger] bodies[i]),
        forall|i: int| 0 <= i < lines.len() ==> #[trigger] lines[i] == bodies[i] + ";\n"@,
    ensures
        separators(pre + concat_all(lines) + post, pre.len() as int).len() == lines.len()
            + separators(
            pre + concat_all(lines) + post,
            (pre.len() + concat_all(lines).len()) as int,
        ).len(),
    decreases lines.len(),
{
    if lines.len() > 0 {
        let n = lines.len() - 1;
        let front = concat_all(lines.drop_last());
        assert(lines[n] == bodies[n] + ";\n"@);
        lemma_lines(pre, lines.drop_last(), bodies.drop_last(), lines.last() + post);
        assert(closed(bodies[n]));
        lemma_terminated(pre + front, bodies[n], post);
        assert(pre + concat_all(lines) + post =~= pre + front + (lines.last() + post));
        assert(pre + concat_all(lines) + post =~= (pre + front) + (bodies[n] + ";\n"@) + post);
    }
}

/// A batch reads as its changes between `BEGIN` and `COMMIT`: one statement each, whatever
/// their names and values hold.
pub proof fn law_batch_statements(target: EditTargetView, edits: Seq<RowEditView>)
    requires
        first_fault(target, edits) is None,
    ensures
        separators(batch_text(target, edits), 0).len() == edits.len() + 2,
{
    let lines = edits.map_values(|e: RowEditView| batch_line(target, e));
    let bodies = edits.map_values(|e: RowEditView| e.sql(target)->Ok_0);
    assert forall|i: int| 0 <= i < bodies.len() implies closed(#[trigger] bodies[i]) by {
        lemma_no_fault(target, edits, i);
        lemma_edit_closed(edits[i], target);
    }
    let all = batch_text(target, edits);
    let mid = concat_all(lines);
    reveal_strlit("BEGIN;\n");
    reveal_strlit("COMMIT;\n");
    reveal_strlit("BEGIN");
    reveal_strlit("COMMIT");
    reveal_strlit(";\n");
    assert("BEGIN;\n"@ =~= "BEGIN"@ + ";\n"@);
    assert("COMMIT;\n"@ =~= "COMMIT"@ + ";\n"@);
    lemma_plain("BEGIN"@);
    lemma_plain("COMMIT"@);
    let none = Seq::<char>::empty();
    lemma_terminated(none, "BEGIN"@, mid + "COMMIT;\n"@);
    assert(none + ("BEGIN"@ + ";\n"@) + (mid + "COMMIT;\n"@) =~= all);
    lemma_lines("BEGIN;\n"@, lines, bodies, "COMMIT;\n"@);
    lemma_terminated("BEGIN;\n"@ + mid, "COMMIT"@, none);
    assert(("BEGIN;\n"@ + mid) + ("COMMIT"@ + ";\n"@) + none =~= all);
}

proof fn lemma_no_fault(target: EditTargetView, edits: Seq<RowEditView>, i: int)
    requires
        first_fault(target, edits) is None,
        0 <= i < edits.len(),
    ensures
        edits[i].sql(target) is Ok,
    decreases i,
{
    if i > 0 {
        lemma_no_fault(target, edits.drop_first(), i - 1);
    }
}

/// An export as `INSERT`s of a table reads as one statement for each row, whatever the
/// column names and the cells hold.
pub proof fn law_inserts_are_one_statement_each(
    target: EditTargetView,
    headers: Seq<Seq<char>>,
    rows: Seq<Seq<Cell>>,
)
    requires
        headers.len() > 0,
    ensures
        separators(inserts_text(target.qualified(), headers, rows), 0).len() == rows.len(),
{
    let tbl = target.qualified();
    lemma_qualified(target);
    let cols = headers.map_values(|h: Seq<char>| ident(h));
    assert forall|i: int| 0 <= i < cols.len() implies closed(#[trigger] cols[i]) by {
        lemma_ident(headers[i]);
    }
    let lines = rows.map_values(|r: Seq<Cell>| insert_line(tbl, headers, r));
    let bodies = rows.map_values(
        |r: Seq<Cell>|
            "INSERT INTO "@ + tbl + " ("@ + joined(cols, ", "@) + ") VALUES ("@ + joined(
                row_literals(headers.len(), r),
                ", "@,
            ) + ")"@,
    );
    reveal_strlit(");\n");
    reveal_strlit(")");
    reveal_strlit(";\n");
    assert(");\n"@ =~= ")"@ + ";\n"@);
    assert forall|i: int| 0 <= i < rows.len() implies closed(#[trigger] bodies[i]) by {
        let vals = row_literals(headers.len(), rows[i]);
        assert forall|j: int| 0 <= j < vals.len() implies closed(#[trigger] vals[j]) by {
            lemma_literal(cell_at(rows[i], j));
        }
        lemma_insert_closed(tbl, cols, vals);
    }
    assert forall|i: int| 0 <= i < lines.len() implies #[trigger] lines[i] == bodies[i]
        + ";\n"@ by {
        assert(lines[i] =~= bodies[i] + ";\n"@);
    }
    let none = Seq::<char>::empty();
    lemma_lines(none, lines, bodies, none);
    assert(none + concat_all(lines) + none =~= concat_all(lines));
}

} // verus!
