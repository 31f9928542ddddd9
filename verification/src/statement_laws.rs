//! What generated SQL says to a reader: the statement for a change names its table, its
//! columns, its values and its whole key, and nothing else.

use vstd::prelude::*;
use crate::edit::{
    assignment, batch_line, batch_text, condition, first_fault, ident, key_condition, literal,
    EditTargetView, PairView, RowEditView,
};
use crate::export::{cell_at, insert_line, inserts_text, row_literals, Cell};
use crate::lexing::lemma_doubled_front;
use crate::text::{concat_all, doubled, joined, quoted};

verus! {

// ---- a reader --------------------------------------------------------------------

/// What stands behind a word that a text begins with.
pub open spec fn eat(s: Seq<char>, word: Seq<char>) -> Option<Seq<char>> {
    if word.len() <= s.len() && s.take(word.len() as int) == word {
        Some(s.skip(word.len() as int))
    } else {
        None
    }
}

/// Reads the inside of a quoted text up to the quote that closes it, a doubled quote standing
/// for one: what it says, and what stands behind it.
pub open spec fn read_inside(s: Seq<char>, q: char) -> Option<(Seq<char>, Seq<char>)>
    decreases s.len(),
{
    if s.len() == 0 {
        None
    } else if s[0] != q {
        match read_inside(s.skip(1), q) {
            Some((text, rest)) => Some((seq![s[0]] + text, rest)),
            None => None,
        }
    } else if s.len() > 1 && s[1] == q {
        match read_inside(s.skip(2), q) {
            Some((text, rest)) => Some((seq![q] + text, rest)),
            None => None,
        }
    } else {
        Some((Seq::empty(), s.skip(1)))
    }
}

/// Reads a quoted text.
pub open spec fn read_quote(s: Seq<char>, q: char) -> Option<(Seq<char>, Seq<char>)> {
    if s.len() > 0 && s[0] == q {
        read_inside(s.skip(1), q)
    } else {
        None
    }
}

/// Reads a value: a text between single quotes, or `NULL`.
pub open spec fn read_literal(s: Seq<char>) -> Option<(Cell, Seq<char>)> {
    match read_quote(s, '\'') {
        Some((text, rest)) => Some((Some(text), rest)),
        None => match eat(s, seq!['N', 'U', 'L', 'L']) {
            Some(rest) => Some((None, rest)),
            None => None,
        },
    }
}

/// Reads a name between double quotes.
pub open spec fn read_name(s: Seq<char>) -> Option<(Seq<char>, Seq<char>)> {
    read_quote(s, '"')
}

/// Reads `name = value`.
pub open spec fn read_assignment(s: Seq<char>) -> Option<(PairView, Seq<char>)> {
    match read_name(s) {
        None => None,
        Some((name, rest)) => match eat(rest, seq![' ', '=', ' ']) {
            None => None,
            Some(rest) => match read_literal(rest) {
                Some((value, rest)) => Some(((name, value), rest)),
                None => None,
            },
        },
    }
}

/// Reads a condition on a column: `name IS NULL` picks NULL, `name = 'text'` picks a text.
/// `name = NULL` picks nothing and is no condition.
pub open spec fn read_condition(s: Seq<char>) -> Option<(PairView, Seq<char>)> {
    match read_name(s) {
        None => None,
        Some((name, rest)) => match eat(rest, seq![' ', 'I', 'S', ' ', 'N', 'U', 'L', 'L']) {
            Some(rest) => Some(((name, None), rest)),
            None => match eat(rest, seq![' ', '=', ' ']) {
                None => None,
                Some(rest) => match read_quote(rest, '\'') {
                    Some((text, rest)) => Some(((name, Some(text)), rest)),
                    None => None,
                },
            },
        },
    }
}

/// Reads things one after the other, with a separator between each two.
pub open spec fn read_list<T>(
    s: Seq<char>,
    item: spec_fn(Seq<char>) -> Option<(T, Seq<char>)>,
    sep: Seq<char>,
) -> Option<(Seq<T>, Seq<char>)>
    decreases s.len(),
{
    match item(s) {
        None => None,
        Some((first, rest)) => match eat(rest, sep) {
            None => Some((seq![first], rest)),
            Some(more) => if more.len() < s.len() {
                match read_list(more, item, sep) {
                    Some((others, rest)) => Some((seq![first] + others, rest)),
                    None => None,
                }
            } else {
                None
            },
        },
    }
}

/// A change that was read: the schema and the table that it is about, the change, and what
/// stands behind it.
pub struct ReadEdit {
    pub schema: Seq<char>,
    pub table: Seq<char>,
    pub edit: RowEditView,
    pub rest: Seq<char>,
}

/// Reads a schema and a table with a dot between them.
pub open spec fn read_table(s: Seq<char>) -> Option<(Seq<char>, Seq<char>, Seq<char>)> {
    match read_name(s) {
        None => None,
        Some((schema, rest)) => match eat(rest, seq!['.']) {
            None => None,
            Some(rest) => match read_name(rest) {
                Some((table, rest)) => Some((schema, table, rest)),
                None => None,
            },
        },
    }
}

/// Reads the conditions that pick a row, joined by `AND`.
pub open spec fn read_key(s: Seq<char>) -> Option<(Seq<PairView>, Seq<char>)> {
    read_list(s, |t: Seq<char>| read_condition(t), " AND "@)
}

/// Reads what follows the table of an `UPDATE`.
pub open spec fn read_update(s: Seq<char>) -> Option<(RowEditView, Seq<char>)> {
    match eat(s, " SET "@) {
        None => None,
        Some(rest) => match read_list(rest, |t: Seq<char>| read_assignment(t), ", "@) {
            None => None,
            Some((set, rest)) => match eat(rest, " WHERE "@) {
                None => None,
                Some(rest) => match read_key(rest) {
                    Some((pk, rest)) => Some((RowEditView::Update { pk, set }, rest)),
                    None => None,
                },
            },
        },
    }
}

/// Reads what follows the table of a `DELETE`.
pub open spec fn read_delete(s: Seq<char>) -> Option<(RowEditView, Seq<char>)> {
    match eat(s, " WHERE "@) {
        None => None,
        Some(rest) => match read_key(rest) {
            Some((pk, rest)) => Some((RowEditView::Delete { pk }, rest)),
            None => None,
        },
    }
}

/// Reads what follows the table of an `INSERT`: as many values as names.
pub open spec fn read_insert(s: Seq<char>) -> Option<(RowEditView, Seq<char>)> {
    match eat(s, " ("@) {
        None => None,
        Some(rest) => match read_list(rest, |t: Seq<char>| read_name(t), ", "@) {
            None => None,
            Some((names, rest)) => match eat(rest, ") VALUES ("@) {
                None => None,
                Some(rest) => match read_list(rest, |t: Seq<char>| read_literal(t), ", "@) {
                    None => None,
                    Some((cells, rest)) => match eat(rest, ")"@) {
                        None => None,
                        Some(rest) => if names.len() == cells.len() {
                            Some(
                                (
                                    RowEditView::Insert {
                                        values: Seq::new(
                                            names.len(),
                                            |i: int| (names[i], cells[i]),
                                        ),
                                    },
                                    rest,
                                ),
                            )
                        } else {
                            None
                        },
                    },
                },
            },
        },
    }
}

/// Reads a statement from its verb on: the verb decides what follows the table.
pub open spec fn read_edit(s: Seq<char>) -> Option<ReadEdit> {
    let (verb, behind) = match (
        eat(s, "UPDATE "@),
        eat(s, "DELETE FROM "@),
        eat(s, "INSERT INTO "@),
    ) {
        (Some(rest), _, _) => (1int, rest),
        (None, Some(rest), _) => (2int, rest),
        (None, None, Some(rest)) => (3int, rest),
        (None, None, None) => (0int, s),
    };
    match read_table(behind) {
        None => None,
        Some((schema, table, rest)) => {
            let read = if verb == 1 {
                read_update(rest)
            } else if verb == 2 {
                read_delete(rest)
            } else if verb == 3 {
                read_insert(rest)
            } else {
                None
            };
            match read {
                Some((edit, rest)) => Some(ReadEdit { schema, table, edit, rest }),
                None => None,
            }
        },
    }
}

// ---- what it reads ---------------------------------------------------------------

/// Whether what follows a quoted text leaves it closed: no quote follows it.
pub open spec fn no_quote(rest: Seq<char>) -> bool {
    rest.len() == 0 || (rest[0] != '\'' && rest[0] != '"')
}

pub(crate) proof fn lemma_eat(word: Seq<char>, rest: Seq<char>)
    ensures
        eat(word + rest, word) == Some(rest),
{
    assert((word + rest).take(word.len() as int) =~= word);
    assert((word + rest).skip(word.len() as int) =~= rest);
}

proof fn lemma_eat_not(s: Seq<char>, word: Seq<char>, k: int)
    requires
        0 <= k < word.len(),
        k >= s.len() || s[k] != word[k],
    ensures
        eat(s, word) is None,
{
    if word.len() <= s.len() {
        assert(s.take(word.len() as int)[k] == s[k]);
    }
}

proof fn lemma_read_inside(s: Seq<char>, q: char, rest: Seq<char>)
    requires
        rest.len() == 0 || rest[0] != q,
    ensures
        read_inside(doubled(s, q) + seq![q] + rest, q) == Some((s, rest)),
    decreases s.len(),
{
    let t = doubled(s, q) + seq![q] + rest;
    if s.len() == 0 {
        assert(doubled(s, q) =~= Seq::<char>::empty());
        assert(t[0] == q);
        assert(t.skip(1) =~= rest);
        if t.len() > 1 {
            assert(t[1] == rest[0]);
        }
        assert(Seq::<char>::empty() =~= s);
    } else {
        lemma_doubled_front(s, q);
        let more = s.drop_first();
        lemma_read_inside(more, q, rest);
        let tail = doubled(more, q) + seq![q] + rest;
        if s[0] == q {
            assert(t[0] == q && t[1] == q);
            assert(t.skip(2) =~= tail);
        } else {
            assert(t[0] == s[0]);
            assert(t.skip(1) =~= tail);
        }
        assert(seq![s[0]] + more =~= s);
    }
}

proof fn lemma_read_quote(s: Seq<char>, q: char, rest: Seq<char>)
    requires
        rest.len() == 0 || rest[0] != q,
    ensures
        read_quote(quoted(s, q) + rest, q) == Some((s, rest)),
        (quoted(s, q) + rest).len() > rest.len(),
        (quoted(s, q) + rest)[0] == q,
{
    let t = quoted(s, q) + rest;
    lemma_read_inside(s, q, rest);
    assert(t[0] == q);
    assert(t.skip(1) =~= doubled(s, q) + seq![q] + rest);
}

proof fn lemma_read_literal(v: Cell, rest: Seq<char>)
    requires
        no_quote(rest),
    ensures
        read_literal(literal(v) + rest) == Some((v, rest)),
        literal(v).len() > 0,
{
    match v {
        Some(s) => {
            lemma_read_quote(s, '\'', rest);
        },
        None => {
            reveal_strlit("NULL");
            let word = seq!['N', 'U', 'L', 'L'];
            assert("NULL"@ =~= word);
            lemma_eat(word, rest);
            assert((word + rest)[0] == 'N');
        },
    }
}

proof fn lemma_read_assignment(p: PairView, rest: Seq<char>)
    requires
        no_quote(rest),
    ensures
        read_assignment(assignment(p) + rest) == Some((p, rest)),
        assignment(p).len() > 0,
{
    reveal_strlit(" = ");
    let mid = seq![' ', '=', ' '];
    assert(" = "@ =~= mid);
    let tail = mid + (literal(p.1) + rest);
    assert(assignment(p) + rest =~= ident(p.0) + tail);
    assert(tail[0] == ' ');
    lemma_read_quote(p.0, '"', tail);
    lemma_eat(mid, literal(p.1) + rest);
    lemma_read_literal(p.1, rest);
}

proof fn lemma_read_condition(p: PairView, rest: Seq<char>)
    requires
        no_quote(rest),
    ensures
        read_condition(condition(p) + rest) == Some((p, rest)),
        condition(p).len() > 0,
{
    reveal_strlit(" = ");
    reveal_strlit(" IS NULL");
    let is_null = seq![' ', 'I', 'S', ' ', 'N', 'U', 'L', 'L'];
    let mid = seq![' ', '=', ' '];
    assert(" = "@ =~= mid);
    assert(" IS NULL"@ =~= is_null);
    match p.1 {
        None => {
            let tail = is_null + rest;
            assert(condition(p) + rest =~= ident(p.0) + tail);
            assert(tail[0] == ' ');
            lemma_read_quote(p.0, '"', tail);
            lemma_eat(is_null, rest);
        },
        Some(s) => {
            let tail = mid + (literal(p.1) + rest);
            assert(condition(p) + rest =~= ident(p.0) + tail);
            assert(tail[0] == ' ');
            lemma_read_quote(p.0, '"', tail);
            assert(tail[1] == '=');
            lemma_eat_not(tail, is_null, 1);
            lemma_eat(mid, literal(p.1) + rest);
            lemma_read_quote(s, '\'', rest);
        },
    }
}

/// Whether each part reads as its item, whatever follows it but a quote.
spec fn parts_read<T>(
    parts: Seq<Seq<char>>,
    items: Seq<T>,
    item: spec_fn(Seq<char>) -> Option<(T, Seq<char>)>,
) -> bool {
    &&& parts.len() == items.len()
    &&& forall|i: int, rest: Seq<char>|
        0 <= i < parts.len() && no_quote(rest) ==> #[trigger] item(parts[i] + rest) == Some(
            (items[i], rest),
        )
    &&& forall|i: int| 0 <= i < parts.len() ==> (#[trigger] parts[i]).len() > 0
}

proof fn lemma_joined_front(parts: Seq<Seq<char>>, sep: Seq<char>)
    requires
        parts.len() >= 2,
    ensures
        joined(parts, sep) == parts[0] + sep + joined(parts.skip(1), sep),
    decreases parts.len(),
{
    if parts.len() == 2 {
        assert(joined(parts.drop_last(), sep) == parts[0]);
        assert(joined(parts.skip(1), sep) == parts[1]);
        assert(joined(parts, sep) =~= parts[0] + sep + joined(parts.skip(1), sep));
    } else {
        lemma_joined_front(parts.drop_last(), sep);
        assert(parts.drop_last().skip(1) =~= parts.skip(1).drop_last());
        assert(joined(parts, sep) =~= parts[0] + sep + joined(parts.skip(1), sep));
    }
}

proof fn lemma_read_list<T>(
    parts: Seq<Seq<char>>,
    items: Seq<T>,
    item: spec_fn(Seq<char>) -> Option<(T, Seq<char>)>,
    sep: Seq<char>,
    rest: Seq<char>,
)
    requires
        parts.len() > 0,
        parts_read(parts, items, item),
        sep.len() > 0,
        no_quote(sep),
        no_quote(rest),
        eat(rest, sep) is None,
    ensures
        read_list(joined(parts, sep) + rest, item, sep) == Some((items, rest)),
    decreases parts.len(),
{
    let s = joined(parts, sep) + rest;
    if parts.len() == 1 {
        assert(s == parts[0] + rest);
        assert(item(parts[0] + rest) == Some((items[0], rest)));
        assert(seq![items[0]] =~= items);
    } else {
        lemma_joined_front(parts, sep);
        let others = parts.skip(1);
        let more = joined(others, sep) + rest;
        assert(s =~= parts[0] + (sep + more));
        assert((sep + more)[0] == sep[0]);
        assert(item(parts[0] + (sep + more)) == Some((items[0], sep + more)));
        lemma_eat(sep, more);
        assert(parts_read(others, items.skip(1), item)) by {
            assert forall|i: int, rest: Seq<char>|
                0 <= i < others.len() && no_quote(rest) implies #[trigger] item(others[i] + rest)
                == Some((items.skip(1)[i], rest)) by {
                assert(others[i] == parts[i + 1]);
                assert(item(parts[i + 1] + rest) == Some((items[i + 1], rest)));
            }
            assert forall|i: int| 0 <= i < others.len() implies (#[trigger] others[i]).len()
                > 0 by {
                assert(others[i] == parts[i + 1]);
            }
        }
        lemma_read_list(others, items.skip(1), item, sep, rest);
        assert(parts[0].len() > 0);
        assert(more.len() < s.len());
        assert(seq![items[0]] + items.skip(1) =~= items);
    }
}

proof fn lemma_read_key(pk: Seq<PairView>, rest: Seq<char>)
    requires
        pk.len() > 0,
        rest.len() == 0 || rest[0] == ';',
    ensures
        read_key(key_condition(pk) + rest) == Some((pk, rest)),
{
    reveal_strlit(" AND ");
    let parts = pk.map_values(|p: PairView| condition(p));
    let item = |t: Seq<char>| read_condition(t);
    assert forall|i: int, rest: Seq<char>| 0 <= i < parts.len() && no_quote(rest) implies
        #[trigger] item(parts[i] + rest) == Some((pk[i], rest)) by {
        lemma_read_condition(pk[i], rest);
    }
    assert forall|i: int| 0 <= i < parts.len() implies (#[trigger] parts[i]).len() > 0 by {
        lemma_read_condition(pk[i], Seq::empty());
    }
    lemma_eat_not(rest, " AND "@, 0);
    lemma_read_list(parts, pk, item, " AND "@, rest);
}

proof fn lemma_read_set(set: Seq<PairView>, rest: Seq<char>)
    requires
        set.len() > 0,
        rest.len() > 0,
        rest[0] == ' ',
    ensures
        read_list(
            joined(set.map_values(|p: PairView| assignment(p)), ", "@) + rest,
            |t: Seq<char>| read_assignment(t),
            ", "@,
        ) == Some((set, rest)),
{
    reveal_strlit(", ");
    let parts = set.map_values(|p: PairView| assignment(p));
    let item = |t: Seq<char>| read_assignment(t);
    assert forall|i: int, rest: Seq<char>| 0 <= i < parts.len() && no_quote(rest) implies
        #[trigger] item(parts[i] + rest) == Some((set[i], rest)) by {
        lemma_read_assignment(set[i], rest);
    }
    assert forall|i: int| 0 <= i < parts.len() implies (#[trigger] parts[i]).len() > 0 by {
        lemma_read_assignment(set[i], Seq::empty());
    }
    lemma_eat_not(rest, ", "@, 0);
    lemma_read_list(parts, set, item, ", "@, rest);
}

proof fn lemma_read_names(names: Seq<Seq<char>>, rest: Seq<char>)
    requires
        names.len() > 0,
        rest.len() > 0,
        rest[0] == ')',
    ensures
        read_list(
            joined(names.map_values(|n: Seq<char>| ident(n)), ", "@) + rest,
            |t: Seq<char>| read_name(t),
            ", "@,
        ) == Some((names, rest)),
{
    reveal_strlit(", ");
    let parts = names.map_values(|n: Seq<char>| ident(n));
    let item = |t: Seq<char>| read_name(t);
    assert forall|i: int, rest: Seq<char>| 0 <= i < parts.len() && no_quote(rest) implies
        #[trigger] item(parts[i] + rest) == Some((names[i], rest)) by {
        lemma_read_quote(names[i], '"', rest);
    }
    lemma_eat_not(rest, ", "@, 0);
    lemma_read_list(parts, names, item, ", "@, rest);
}

proof fn lemma_read_cells(cells: Seq<Cell>, rest: Seq<char>)
    requires
        cells.len() > 0,
        rest.len() > 0,
        rest[0] == ')',
    ensures
        read_list(
            joined(cells.map_values(|v: Cell| literal(v)), ", "@) + rest,
            |t: Seq<char>| read_literal(t),
            ", "@,
        ) == Some((cells, rest)),
{
    reveal_strlit(", ");
    let parts = cells.map_values(|v: Cell| literal(v));
    let item = |t: Seq<char>| read_literal(t);
    assert forall|i: int, rest: Seq<char>| 0 <= i < parts.len() && no_quote(rest) implies
        #[trigger] item(parts[i] + rest) == Some((cells[i], rest)) by {
        lemma_read_literal(cells[i], rest);
    }
    assert forall|i: int| 0 <= i < parts.len() implies (#[trigger] parts[i]).len() > 0 by {
        lemma_read_literal(cells[i], Seq::empty());
    }
    lemma_eat_not(rest, ", "@, 0);
    lemma_read_list(parts, cells, item, ", "@, rest);
}

pub(crate) proof fn lemma_read_table(target: EditTargetView, rest: Seq<char>)
    requires
        rest.len() > 0,
        rest[0] == ' ',
    ensures
        read_table(target.qualified() + rest) == Some((target.schema, target.table, rest)),
{
    reveal_strlit(".");
    let dot = seq!['.'];
    assert("."@ =~= dot);
    let tail = dot + (ident(target.table) + rest);
    assert(target.qualified() + rest =~= ident(target.schema) + tail);
    assert(tail[0] == '.');
    lemma_read_quote(target.schema, '"', tail);
    lemma_eat(dot, ident(target.table) + rest);
    lemma_read_quote(target.table, '"', rest);
}

proof fn lemma_read_update(
    target: EditTargetView,
    pk: Seq<PairView>,
    set: Seq<PairView>,
    rest: Seq<char>,
)
    requires
        pk.len() > 0,
        set.len() > 0,
        rest.len() == 0 || rest[0] == ';',
    ensures
        read_edit((RowEditView::Update { pk, set }).sql(target)->Ok_0 + rest) == Some(
            ReadEdit {
                schema: target.schema,
                table: target.table,
                edit: RowEditView::Update { pk, set },
                rest,
            },
        ),
{
    reveal_strlit("UPDATE ");
    reveal_strlit(" SET ");
    reveal_strlit(" WHERE ");
    let sets = joined(set.map_values(|p: PairView| assignment(p)), ", "@);
    let keys = key_condition(pk);
    let a = " WHERE "@ + (keys + rest);
    let b = " SET "@ + (sets + a);
    let s = (RowEditView::Update { pk, set }).sql(target)->Ok_0 + rest;
    assert(s =~= "UPDATE "@ + (target.qualified() + b));
    assert(a[0] == ' ');
    assert(b[0] == ' ');
    lemma_eat("UPDATE "@, target.qualified() + b);
    lemma_read_table(target, b);
    lemma_eat(" SET "@, sets + a);
    lemma_read_set(set, a);
    lemma_eat(" WHERE "@, keys + rest);
    lemma_read_key(pk, rest);
}

proof fn lemma_read_delete(target: EditTargetView, pk: Seq<PairView>, rest: Seq<char>)
    requires
        pk.len() > 0,
        rest.len() == 0 || rest[0] == ';',
    ensures
        read_edit((RowEditView::Delete { pk }).sql(target)->Ok_0 + rest) == Some(
            ReadEdit {
                schema: target.schema,
                table: target.table,
                edit: RowEditView::Delete { pk },
                rest,
            },
        ),
{
    reveal_strlit("UPDATE ");
    reveal_strlit("DELETE FROM ");
    reveal_strlit(" WHERE ");
    let keys = key_condition(pk);
    let a = " WHERE "@ + (keys + rest);
    let s = (RowEditView::Delete { pk }).sql(target)->Ok_0 + rest;
    assert(s =~= "DELETE FROM "@ + (target.qualified() + a));
    assert(a[0] == ' ');
    assert(s[0] == 'D');
    lemma_eat_not(s, "UPDATE "@, 0);
    lemma_eat("DELETE FROM "@, target.qualified() + a);
    lemma_read_table(target, a);
    lemma_eat(" WHERE "@, keys + rest);
    lemma_read_key(pk, rest);
}

proof fn lemma_read_insert(target: EditTargetView, values: Seq<PairView>, rest: Seq<char>)
    requires
        values.len() > 0,
        rest.len() == 0 || rest[0] == ';',
    ensures
        read_edit((RowEditView::Insert { values }).sql(target)->Ok_0 + rest) == Some(
            ReadEdit {
                schema: target.schema,
                table: target.table,
                edit: RowEditView::Insert { values },
                rest,
            },
        ),
{
    reveal_strlit("UPDATE ");
    reveal_strlit("DELETE FROM ");
    reveal_strlit("INSERT INTO ");
    reveal_strlit(" (");
    reveal_strlit(") VALUES (");
    reveal_strlit(")");
    let names = values.map_values(|p: PairView| p.0);
    let cells = values.map_values(|p: PairView| p.1);
    let cols = joined(names.map_values(|n: Seq<char>| ident(n)), ", "@);
    let vals = joined(cells.map_values(|v: Cell| literal(v)), ", "@);
    assert(names.map_values(|n: Seq<char>| ident(n)) =~= values.map_values(
        |p: PairView| ident(p.0),
    ));
    assert(cells.map_values(|v: Cell| literal(v)) =~= values.map_values(
        |p: PairView| literal(p.1),
    ));
    let a = ")"@ + rest;
    let b = ") VALUES ("@ + (vals + a);
    let c = " ("@ + (cols + b);
    let s = (RowEditView::Insert { values }).sql(target)->Ok_0 + rest;
    assert(s =~= "INSERT INTO "@ + (target.qualified() + c));
    assert(a[0] == ')');
    assert(b[0] == ')');
    assert(c[0] == ' ');
    assert(s[0] == 'I');
    lemma_eat_not(s, "UPDATE "@, 0);
    lemma_eat_not(s, "DELETE FROM "@, 0);
    lemma_eat("INSERT INTO "@, target.qualified() + c);
    lemma_read_table(target, c);
    lemma_eat(" ("@, cols + b);
    lemma_read_names(names, b);
    lemma_eat(") VALUES ("@, vals + a);
    lemma_read_cells(cells, a);
    lemma_eat(")"@, rest);
    assert(Seq::new(names.len(), |i: int| (names[i], cells[i])) =~= values);
}

/// The statement for a change reads back as that change: an `UPDATE` sets every column that
/// is to be set, and only those, on the rows that meet a condition for every column of the
/// key, and no other condition; a `DELETE` is picked by its key likewise; an `INSERT` names
/// every column with its value. Each is about the table that it is meant for. NULL is set
/// with `= NULL` and matched with `IS NULL`.
pub proof fn law_statement_reads_back(edit: RowEditView, target: EditTargetView, rest: Seq<char>)
    requires
        edit.sql(target) is Ok,
        rest.len() == 0 || rest[0] == ';',
    ensures
        read_edit(edit.sql(target)->Ok_0 + rest) == Some(
            ReadEdit { schema: target.schema, table: target.table, edit, rest },
        ),
{
    match edit {
        RowEditView::Update { pk, set } => {
            lemma_read_update(target, pk, set, rest);
        },
        RowEditView::Insert { values } => {
            lemma_read_insert(target, values, rest);
        },
        RowEditView::Delete { pk } => {
            lemma_read_delete(target, pk, rest);
        },
    }
}

/// The text behind `WHERE` in the statement of an update or a delete holds one condition for
/// each column of the key, in order, and nothing else.
pub proof fn law_every_key_column_is_matched(pk: Seq<PairView>)
    requires
        pk.len() > 0,
    ensures
        read_key(key_condition(pk)) matches Some((read, rest)) && rest.len() == 0 && read.len()
            == pk.len() && forall|i: int| 0 <= i < pk.len() ==> #[trigger] read[i] == pk[i],
{
    lemma_read_key(pk, Seq::empty());
    assert(key_condition(pk) + Seq::<char>::empty() =~= key_condition(pk));
}

/// A change has a statement exactly where it says what to set, or to insert, and which row is
/// meant; no statement touches rows that no key picks.
pub proof fn law_only_whole_changes_have_statements(edit: RowEditView, target: EditTargetView)
    ensures
        edit.sql(target) is Ok <==> (match edit {
            RowEditView::Update { pk, set } => pk.len() > 0 && set.len() > 0,
            RowEditView::Insert { values } => values.len() > 0,
            RowEditView::Delete { pk } => pk.len() > 0,
        }),
{
}

// ---- batches and exported statements ---------------------------------------------

/// Reads statements, each with a semicolon and a line end, up to a last line.
pub open spec fn read_lines(s: Seq<char>, last: Seq<char>) -> Option<Seq<ReadEdit>>
    decreases s.len(),
{
    if s == last {
        Some(Seq::empty())
    } else {
        match read_edit(s) {
            None => None,
            Some(e) => match eat(e.rest, ";\n"@) {
                None => None,
                Some(more) => if more.len() < s.len() {
                    match read_lines(more, last) {
                        Some(others) => Some(
                            seq![ReadEdit { rest: Seq::empty(), ..e }] + others,
                        ),
                        None => None,
                    }
                } else {
                    None
                },
            },
        }
    }
}

/// A change of a table, as it is read.
pub open spec fn as_read(target: EditTargetView, edit: RowEditView) -> ReadEdit {
    ReadEdit { schema: target.schema, table: target.table, edit, rest: Seq::empty() }
}

proof fn lemma_concat_front(parts: Seq<Seq<char>>)
    requires
        parts.len() >= 1,
    ensures
        concat_all(parts) == parts[0] + concat_all(parts.skip(1)),
    decreases parts.len(),
{
    if parts.len() == 1 {
        assert(parts.drop_last() =~= Seq::<Seq<char>>::empty());
        assert(parts.skip(1) =~= Seq::<Seq<char>>::empty());
        assert(concat_all(parts) =~= parts[0] + concat_all(parts.skip(1)));
    } else {
        lemma_concat_front(parts.drop_last());
        assert(parts.drop_last().skip(1) =~= parts.skip(1).drop_last());
        assert(concat_all(parts) =~= parts[0] + concat_all(parts.skip(1)));
    }
}

proof fn lemma_read_lines(
    target: EditTargetView,
    edits: Seq<RowEditView>,
    lines: Seq<Seq<char>>,
    last: Seq<char>,
)
    requires
        lines.len() == edits.len(),
        forall|i: int| 0 <= i < edits.len() ==> (#[trigger] edits[i]).sql(target) is Ok,
        forall|i: int|
            0 <= i < lines.len() ==> #[trigger] lines[i] == edits[i].sql(target)->Ok_0 + ";\n"@,
        last.len() == 0 || last[0] == 'C',
    ensures
        read_lines(concat_all(lines) + last, last) == Some(
            edits.map_values(|e: RowEditView| as_read(target, e)),
        ),
    decreases edits.len(),
{
    reveal_strlit(";\n");
    let s = concat_all(lines) + last;
    let read = edits.map_values(|e: RowEditView| as_read(target, e));
    if edits.len() == 0 {
        assert(s =~= last);
        assert(read =~= Seq::<ReadEdit>::empty());
    } else {
        lemma_concat_front(lines);
        let sql = edits[0].sql(target)->Ok_0;
        let more = concat_all(lines.skip(1)) + last;
        assert(lines[0] == sql + ";\n"@);
        assert(s =~= sql + (";\n"@ + more));
        assert((";\n"@ + more)[0] == ';');
        assert(edits[0].sql(target) is Ok);
        law_statement_reads_back(edits[0], target, ";\n"@ + more);
        lemma_eat(";\n"@, more);
        assert(s != last) by {
            if s == last {
                assert(lines[0].len() >= 2);
            }
        }
        let others = edits.skip(1);
        assert forall|i: int| 0 <= i < others.len() implies (#[trigger] others[i]).sql(
            target,
        ) is Ok by {
            assert(others[i] == edits[i + 1]);
        }
        assert forall|i: int| 0 <= i < lines.skip(1).len() implies #[trigger] lines.skip(1)[i]
            == others[i].sql(target)->Ok_0 + ";\n"@ by {
            assert(lines.skip(1)[i] == lines[i + 1]);
            assert(others[i] == edits[i + 1]);
        }
        lemma_read_lines(target, others, lines.skip(1), last);
        assert(others.map_values(|e: RowEditView| as_read(target, e)) =~= read.skip(1));
        assert(read =~= seq![as_read(target, edits[0])] + read.skip(1));
    }
}

proof fn lemma_all_stated(target: EditTargetView, edits: Seq<RowEditView>, i: int)
    requires
        first_fault(target, edits) is None,
        0 <= i < edits.len(),
    ensures
        edits[i].sql(target) is Ok,
    decreases i,
{
    if i > 0 {
        lemma_all_stated(target, edits.drop_first(), i - 1);
    }
}

/// Reads a transaction.
pub open spec fn read_batch(s: Seq<char>) -> Option<Seq<ReadEdit>> {
    match eat(s, "BEGIN;\n"@) {
        Some(rest) => read_lines(rest, "COMMIT;\n"@),
        None => None,
    }
}

/// A batch reads back as one transaction that makes every change, each once and in order, on
/// the table that it is meant for.
pub proof fn law_batch_reads_back(target: EditTargetView, edits: Seq<RowEditView>)
    requires
        first_fault(target, edits) is None,
    ensures
        read_batch(batch_text(target, edits)) == Some(
            edits.map_values(|e: RowEditView| as_read(target, e)),
        ),
{
    reveal_strlit("COMMIT;\n");
    let lines = edits.map_values(|e: RowEditView| batch_line(target, e));
    assert forall|i: int| 0 <= i < edits.len() implies (#[trigger] edits[i]).sql(target) is Ok by {
        lemma_all_stated(target, edits, i);
    }
    lemma_read_lines(target, edits, lines, "COMMIT;\n"@);
    lemma_eat("BEGIN;\n"@, concat_all(lines) + "COMMIT;\n"@);
    assert(batch_text(target, edits) =~= "BEGIN;\n"@ + (concat_all(lines) + "COMMIT;\n"@));
}

/// A batch is refused exactly where one of its changes has no statement, for the reason that
/// the first such change has none.
pub proof fn law_first_fault(target: EditTargetView, edits: Seq<RowEditView>)
    ensures
        (match first_fault(target, edits) {
            None => forall|i: int|
                0 <= i < edits.len() ==> (#[trigger] edits[i]).sql(target) is Ok,
            Some(e) => exists|k: int|
                0 <= k < edits.len() && #[trigger] edits[k].sql(target) == Err::<
                    Seq<char>,
                    Seq<char>,
                >(e) && forall|i: int| 0 <= i < k ==> (#[trigger] edits[i]).sql(target) is Ok,
        }),
    decreases edits.len(),
{
    if edits.len() > 0 {
        let more = edits.drop_first();
        law_first_fault(target, more);
        match edits[0].sql(target) {
            Err(_) => {},
            Ok(_) => match first_fault(target, edits) {
                None => {
                    assert forall|i: int| 0 <= i < edits.len() implies (#[trigger] edits[i]).sql(
                        target,
                    ) is Ok by {
                        if i > 0 {
                            assert(more[i - 1] == edits[i]);
                        }
                    }
                },
                Some(e) => {
                    let k = choose|k: int|
                        0 <= k < more.len() && #[trigger] more[k].sql(target) == Err::<
                            Seq<char>,
                            Seq<char>,
                        >(e) && forall|i: int|
                            0 <= i < k ==> (#[trigger] more[i]).sql(target) is Ok;
                    assert(edits[k + 1] == more[k]);
                    assert(edits[k + 1].sql(target) == Err::<Seq<char>, Seq<char>>(e));
                    assert forall|i: int| 0 <= i < k + 1 implies (#[trigger] edits[i]).sql(
                        target,
                    ) is Ok by {
                        if i > 0 {
                            assert(more[i - 1] == edits[i]);
                        }
                    }
                },
            },
        }
    }
}

/// The columns of a row with their values; a row that is too short has NULLs behind it.
pub open spec fn row_values(headers: Seq<Seq<char>>, row: Seq<Cell>) -> Seq<PairView> {
    Seq::new(
        headers.len(),
        |i: int|
            (
                headers[i],
                if i < row.len() {
                    row[i]
                } else {
                    None
                },
            ),
    )
}

/// An export as `INSERT`s reads back as its rows: one statement for each, in order, about the
/// table, with every column under its name.
pub proof fn law_inserts_read_back(
    target: EditTargetView,
    headers: Seq<Seq<char>>,
    rows: Seq<Seq<Cell>>,
)
    requires
        headers.len() > 0,
    ensures
        read_lines(inserts_text(target.qualified(), headers, rows), Seq::empty()) == Some(
            rows.map_values(
                |r: Seq<Cell>|
                    as_read(target, RowEditView::Insert { values: row_values(headers, r) }),
            ),
        ),
{
    let edits = rows.map_values(
        |r: Seq<Cell>| RowEditView::Insert { values: row_values(headers, r) },
    );
    let tbl = target.qualified();
    let lines = rows.map_values(|r: Seq<Cell>| insert_line(tbl, headers, r));
    assert forall|i: int| 0 <= i < lines.len() implies #[trigger] lines[i] == edits[i].sql(
        target,
    )->Ok_0 + ";\n"@ by {
        lemma_insert_line(target, headers, rows[i]);
    }
    lemma_read_lines(target, edits, lines, Seq::empty());
    assert(concat_all(lines) + Seq::<char>::empty() =~= concat_all(lines));
    assert(edits.map_values(|e: RowEditView| as_read(target, e)) =~= rows.map_values(
        |r: Seq<Cell>| as_read(target, RowEditView::Insert { values: row_values(headers, r) }),
    ));
}

proof fn lemma_insert_line(target: EditTargetView, headers: Seq<Seq<char>>, row: Seq<Cell>)
    requires
        headers.len() > 0,
    ensures
        (RowEditView::Insert { values: row_values(headers, row) }).sql(target) is Ok,
        insert_line(target.qualified(), headers, row) == (RowEditView::Insert {
            values: row_values(headers, row),
        }).sql(target)->Ok_0 + ";\n"@,
{
    reveal_strlit(");\n");
    reveal_strlit(")");
    reveal_strlit(";\n");
    let values = row_values(headers, row);
    assert(headers.map_values(|h: Seq<char>| ident(h)) =~= values.map_values(
        |p: PairView| ident(p.0),
    ));
    assert(row_literals(headers.len(), row) =~= values.map_values(|p: PairView| literal(p.1)))
        by {
        assert forall|i: int| 0 <= i < headers.len() implies cell_at(row, i) == (#[trigger] values[i]).1 by {}
    }
    assert(insert_line(target.qualified(), headers, row) =~= (RowEditView::Insert {
        values,
    }).sql(target)->Ok_0 + ";\n"@);
}

} // verus!
