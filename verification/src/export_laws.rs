//! What exported text says: the names of the columns and the cells themselves, as they are.

use vstd::prelude::*;
use crate::export::{
    csv_field_text, csv_line, csv_text, flat, json_text, needs_quotes, texts, tsv_line, tsv_text,
    Cell,
};
use crate::readback::{
    law_csv_reads_back, law_json_reads_back, members_of, read_array, read_records,
};
use crate::text::{concat_all, joined, quoted};

verus! {

// ---- splitting -------------------------------------------------------------------

/// The pieces of a text between the places where a character stands.
pub open spec fn split(s: Seq<char>, c: char) -> Seq<Seq<char>>
    decreases s.len(),
{
    if s.len() == 0 {
        seq![Seq::empty()]
    } else {
        let front = split(s.drop_last(), c);
        if s.last() == c {
            front.push(Seq::empty())
        } else {
            front.update(front.len() - 1, front.last().push(s.last()))
        }
    }
}

proof fn lemma_split_len(s: Seq<char>, c: char)
    ensures
        split(s, c).len() >= 1,
    decreases s.len(),
{
    if s.len() > 0 {
        lemma_split_len(s.drop_last(), c);
    }
}

proof fn lemma_split_whole(s: Seq<char>, c: char)
    requires
        forall|i: int| 0 <= i < s.len() ==> #[trigger] s[i] != c,
    ensures
        split(s, c) == seq![s],
    decreases s.len(),
{
    if s.len() > 0 {
        let front = s.drop_last();
        assert forall|i: int| 0 <= i < front.len() implies #[trigger] front[i] != c by {
            assert(s[i] != c);
        }
        lemma_split_whole(front, c);
        assert(s[s.len() - 1] != c);
        assert(front.push(s.last()) =~= s);
        assert(split(s, c) =~= seq![s]);
    } else {
        assert(s =~= Seq::<char>::empty());
    }
}

proof fn lemma_split_at(a: Seq<char>, c: char, b: Seq<char>)
    ensures
        split(a.push(c) + b, c) == split(a, c) + split(b, c),
    decreases b.len(),
{
    let s = a.push(c) + b;
    if b.len() == 0 {
        assert(s =~= a.push(c));
        assert(s.drop_last() =~= a);
        assert(split(b, c) =~= seq![Seq::<char>::empty()]);
        assert(split(s, c) =~= split(a, c) + split(b, c));
    } else {
        lemma_split_at(a, c, b.drop_last());
        lemma_split_len(b.drop_last(), c);
        assert(s.drop_last() =~= a.push(c) + b.drop_last());
        assert(s.last() == b.last());
        assert(split(s, c) =~= split(a, c) + split(b, c));
    }
}

proof fn lemma_split_joined(parts: Seq<Seq<char>>, c: char)
    requires
        parts.len() > 0,
        forall|k: int, i: int|
            0 <= k < parts.len() && 0 <= i < parts[k].len() ==> #[trigger] parts[k][i] != c,
    ensures
        split(joined(parts, seq![c]), c) == parts,
    decreases parts.len(),
{
    if parts.len() == 1 {
        assert forall|i: int| 0 <= i < parts[0].len() implies #[trigger] parts[0][i] != c by {}
        lemma_split_whole(parts[0], c);
        assert(seq![parts[0]] =~= parts);
    } else {
        let front = parts.drop_last();
        assert forall|k: int, i: int|
            0 <= k < front.len() && 0 <= i < front[k].len() implies #[trigger] front[k][i] != c by {
            assert(front[k] == parts[k]);
            assert(parts[k][i] != c);
        }
        lemma_split_joined(front, c);
        let last = parts[parts.len() - 1];
        assert forall|i: int| 0 <= i < last.len() implies #[trigger] last[i] != c by {
            assert(parts[parts.len() - 1][i] != c);
        }
        lemma_split_whole(last, c);
        let head = joined(front, seq![c]);
        lemma_split_at(head, c, last);
        assert(joined(parts, seq![c]) =~= head.push(c) + last);
        assert(front + seq![last] =~= parts);
    }
}

proof fn lemma_split_lines(lines: Seq<Seq<char>>, bodies: Seq<Seq<char>>, c: char)
    requires
        lines.len() == bodies.len(),
        forall|k: int| 0 <= k < lines.len() ==> #[trigger] lines[k] == bodies[k].push(c),
        forall|k: int, i: int|
            0 <= k < bodies.len() && 0 <= i < bodies[k].len() ==> #[trigger] bodies[k][i] != c,
    ensures
        split(concat_all(lines), c) == bodies.push(Seq::empty()),
    decreases lines.len(),
{
    if lines.len() == 0 {
        assert(concat_all(lines) =~= Seq::<char>::empty());
        assert(bodies.push(Seq::empty()) =~= seq![Seq::<char>::empty()]);
    } else {
        let n = lines.len() - 1;
        let front = bodies.drop_last();
        assert forall|k: int| 0 <= k < front.len() implies #[trigger] lines.drop_last()[k]
            == front[k].push(c) by {
            assert(lines[k] == bodies[k].push(c));
        }
        assert forall|k: int, i: int|
            0 <= k < front.len() && 0 <= i < front[k].len() implies #[trigger] front[k][i] != c by {
            assert(front[k] == bodies[k]);
            assert(bodies[k][i] != c);
        }
        lemma_split_lines(lines.drop_last(), front, c);
        let body = bodies[n];
        assert forall|i: int| 0 <= i < body.len() implies #[trigger] body[i] != c by {
            assert(bodies[n][i] != c);
        }
        assert(lines[n] == body.push(c));
        lemma_split_ends(concat_all(lines.drop_last()), front, body, c);
        assert(concat_all(lines) =~= concat_all(lines.drop_last()) + body.push(c));
        assert(front.push(body) =~= bodies);
    }
}

proof fn lemma_split_ends(head: Seq<char>, front: Seq<Seq<char>>, body: Seq<char>, c: char)
    requires
        split(head, c) == front.push(Seq::empty()),
        forall|i: int| 0 <= i < body.len() ==> #[trigger] body[i] != c,
    ensures
        split(head + body.push(c), c) == front.push(body).push(Seq::empty()),
{
    lemma_split_grows(head, front, body, c);
    let s = head + body.push(c);
    assert(s.drop_last() =~= head + body);
    assert(s.last() == c);
}

proof fn lemma_split_grows(head: Seq<char>, front: Seq<Seq<char>>, body: Seq<char>, c: char)
    requires
        split(head, c) == front.push(Seq::empty()),
        forall|i: int| 0 <= i < body.len() ==> #[trigger] body[i] != c,
    ensures
        split(head + body, c) == front.push(body),
    decreases body.len(),
{
    if body.len() == 0 {
        assert(head + body =~= head);
        assert(body =~= Seq::<char>::empty());
    } else {
        let less = body.drop_last();
        assert forall|i: int| 0 <= i < less.len() implies #[trigger] less[i] != c by {
            assert(body[i] != c);
        }
        lemma_split_grows(head, front, less, c);
        assert((head + body).drop_last() =~= head + less);
        assert((head + body).last() == body[body.len() - 1]);
        assert(less.push(body.last()) =~= body);
        assert(front.push(less).update(front.len() as int, body) =~= front.push(body));
    }
}

// ---- TSV -------------------------------------------------------------------------

/// Whether a field of TSV says a text: every character stands at its place, but for tabs and
/// line ends, in whose places there are spaces.
pub open spec fn tells(field: Seq<char>, text: Seq<char>) -> bool {
    &&& field.len() == text.len()
    &&& forall|i: int|
        0 <= i < text.len() ==> #[trigger] field[i] == (if text[i] == '\t' || text[i] == '\n'
            || text[i] == '\r' {
            ' '
        } else {
            text[i]
        })
}

/// Whether the fields of a line, between its tabs, say these texts.
pub open spec fn line_tells(line: Seq<char>, record: Seq<Seq<char>>) -> bool {
    &&& split(line, '\t').len() == record.len()
    &&& forall|j: int|
        0 <= j < record.len() ==> tells(#[trigger] split(line, '\t')[j], record[j])
}

/// What a cell says in a format without NULL: its text, or nothing.
pub open spec fn plain_text(v: Cell) -> Seq<char> {
    if v is Some {
        v->0
    } else {
        Seq::empty()
    }
}

/// The texts of a row.
pub open spec fn plain_row(row: Seq<Cell>) -> Seq<Seq<char>> {
    Seq::new(row.len(), |i: int| plain_text(row[i]))
}

proof fn lemma_plain_row(row: Seq<Cell>)
    ensures
        texts(row) == plain_row(row),
{
    assert(texts(row) =~= plain_row(row));
}

proof fn lemma_tsv_line(fields: Seq<Seq<char>>)
    requires
        fields.len() > 0,
    ensures
        ({
            let line = tsv_line(fields);
            &&& line.len() > 0
            &&& line == line.drop_last().push('\n')
            &&& forall|i: int| 0 <= i < line.len() - 1 ==> #[trigger] line.drop_last()[i] != '\n'
            &&& line_tells(line.drop_last(), fields)
        }),
{
    reveal_strlit("\t");
    reveal_strlit("\n");
    let parts = fields.map_values(|f: Seq<char>| flat(f));
    let tab = seq!['\t'];
    assert("\t"@ =~= tab);
    assert("\n"@ =~= seq!['\n']);
    let line = tsv_line(fields);
    let body = joined(parts, tab);
    assert(line =~= body.push('\n'));
    assert(line.drop_last() =~= body);
    assert forall|k: int, i: int| 0 <= k < parts.len() && 0 <= i < parts[k].len() implies
        #[trigger] parts[k][i] != '\t' && parts[k][i] != '\n' by {
        assert(parts[k] == flat(fields[k]));
    }
    lemma_split_joined(parts, '\t');
    lemma_no_line_end(parts);
    assert forall|j: int| 0 <= j < fields.len() implies tells(
        #[trigger] split(body, '\t')[j],
        fields[j],
    ) by {
        assert(split(body, '\t')[j] == flat(fields[j]));
    }
}

proof fn lemma_no_line_end(parts: Seq<Seq<char>>)
    requires
        forall|k: int, i: int|
            0 <= k < parts.len() && 0 <= i < parts[k].len() ==> #[trigger] parts[k][i] != '\n',
    ensures
        forall|i: int|
            0 <= i < joined(parts, seq!['\t']).len() ==> #[trigger] joined(parts, seq!['\t'])[i]
                != '\n',
    decreases parts.len(),
{
    if parts.len() == 1 {
        assert forall|i: int| 0 <= i < parts[0].len() implies #[trigger] parts[0][i] != '\n' by {}
    } else if parts.len() > 1 {
        let front = parts.drop_last();
        assert forall|k: int, i: int|
            0 <= k < front.len() && 0 <= i < front[k].len() implies #[trigger] front[k][i]
            != '\n' by {
            assert(front[k] == parts[k]);
            assert(parts[k][i] != '\n');
        }
        lemma_no_line_end(front);
        let head = joined(front, seq!['\t']);
        let last = parts[parts.len() - 1];
        let all = joined(parts, seq!['\t']);
        assert(all == head + seq!['\t'] + last);
        assert forall|i: int| 0 <= i < all.len() implies #[trigger] all[i] != '\n' by {
            if i < head.len() {
                assert(all[i] == head[i]);
            } else if i > head.len() {
                assert(all[i] == parts[parts.len() - 1][i - head.len() - 1]);
            }
        }
    }
}

/// Whether a text of TSV says the names of columns and rows of cells.
pub open spec fn tells_rows(
    text: Seq<char>,
    headers: Seq<Seq<char>>,
    rows: Seq<Seq<Cell>>,
) -> bool {
    let lines = split(text, '\n');
    &&& lines.len() == rows.len() + 2
    &&& lines.last().len() == 0
    &&& line_tells(lines[0], headers)
    &&& forall|i: int|
        0 <= i < rows.len() ==> line_tells(#[trigger] lines[i + 1], plain_row(rows[i]))
}

/// TSV reads back: split at its line ends it has a line for the header and one for each row
/// and nothing behind them, and each line, split at its tabs, has a field for each of its
/// texts, which says that text. NULL says nothing.
pub proof fn law_tsv_reads_back(headers: Seq<Seq<char>>, rows: Seq<Seq<Cell>>)
    requires
        headers.len() > 0,
        forall|i: int| 0 <= i < rows.len() ==> (#[trigger] rows[i]).len() > 0,
    ensures
        tells_rows(tsv_text(headers, rows), headers, rows),
{
    let records = seq![headers] + rows.map_values(|r: Seq<Cell>| texts(r));
    let all = records.map_values(|r: Seq<Seq<char>>| tsv_line(r));
    let bodies = records.map_values(|r: Seq<Seq<char>>| tsv_line(r).drop_last());
    assert forall|k: int| 0 <= k < records.len() implies (#[trigger] records[k]).len() > 0 by {
        if k > 0 {
            assert(rows[k - 1].len() > 0);
        }
    }
    assert forall|k: int| 0 <= k < all.len() implies #[trigger] all[k] == bodies[k].push('\n') by {
        assert(records[k].len() > 0);
        lemma_tsv_line(records[k]);
    }
    assert forall|k: int, i: int| 0 <= k < bodies.len() && 0 <= i < bodies[k].len() implies
        #[trigger] bodies[k][i] != '\n' by {
        assert(records[k].len() > 0);
        lemma_tsv_line(records[k]);
        assert(tsv_line(records[k]).drop_last()[i] != '\n');
    }
    lemma_split_lines(all, bodies, '\n');
    lemma_concat_records(headers, rows);
    let lines = split(tsv_text(headers, rows), '\n');
    assert(lines == bodies.push(Seq::empty()));
    assert(lines[0] == bodies[0]);
    lemma_tsv_line(headers);
    assert forall|i: int| 0 <= i < rows.len() implies line_tells(
        #[trigger] lines[i + 1],
        plain_row(rows[i]),
    ) by {
        assert(lines[i + 1] == bodies[i + 1]);
        assert(records[i + 1] == texts(rows[i]));
        assert(records[i + 1].len() > 0);
        lemma_tsv_line(records[i + 1]);
        lemma_plain_row(rows[i]);
    }
}

proof fn lemma_concat_records(headers: Seq<Seq<char>>, rows: Seq<Seq<Cell>>)
    ensures
        tsv_text(headers, rows) == concat_all(
            (seq![headers] + rows.map_values(|r: Seq<Cell>| texts(r))).map_values(
                |r: Seq<Seq<char>>| tsv_line(r),
            ),
        ),
    decreases rows.len(),
{
    let records = seq![headers] + rows.map_values(|r: Seq<Cell>| texts(r));
    let all = records.map_values(|r: Seq<Seq<char>>| tsv_line(r));
    let lines = rows.map_values(|r: Seq<Cell>| tsv_line(texts(r)));
    if rows.len() == 0 {
        assert(all.drop_last() =~= Seq::<Seq<char>>::empty());
        assert(lines =~= Seq::<Seq<char>>::empty());
        assert(tsv_text(headers, rows) =~= tsv_line(headers));
        assert(concat_all(all) =~= tsv_line(headers));
    } else {
        let less = rows.drop_last();
        lemma_concat_records(headers, less);
        assert(all.drop_last() =~= (seq![headers] + less.map_values(
            |r: Seq<Cell>| texts(r),
        )).map_values(|r: Seq<Seq<char>>| tsv_line(r)));
        assert(lines.drop_last() =~= less.map_values(|r: Seq<Cell>| tsv_line(texts(r))));
        assert(all.last() == lines.last());
        assert(tsv_text(headers, rows) =~= concat_all(all));
    }
}

/// A field of TSV without tabs and line ends in it stands unchanged.
pub proof fn law_plain_tsv_field_is_unchanged(s: Seq<char>)
    requires
        forall|i: int|
            0 <= i < s.len() ==> #[trigger] s[i] != '\t' && s[i] != '\n' && s[i] != '\r',
    ensures
        flat(s) == s,
{
    assert(flat(s) =~= s);
}

// ---- CSV -------------------------------------------------------------------------

/// Whether records say the names of columns and rows of cells.
pub open spec fn says_rows(
    records: Seq<Seq<Seq<char>>>,
    headers: Seq<Seq<char>>,
    rows: Seq<Seq<Cell>>,
) -> bool {
    &&& records.len() == rows.len() + 1
    &&& records[0] == headers
    &&& forall|i: int| 0 <= i < rows.len() ==> #[trigger] records[i + 1] == plain_row(rows[i])
}

/// A CSV export reads back as the names of the columns and the cells themselves: the text of
/// a cell, and nothing for NULL.
pub proof fn law_csv_says_the_cells(headers: Seq<Seq<char>>, rows: Seq<Seq<Cell>>)
    requires
        headers.len() > 0,
        forall|i: int| 0 <= i < rows.len() ==> (#[trigger] rows[i]).len() > 0,
    ensures
        says_rows(read_records(csv_text(headers, rows), 0), headers, rows),
{
    law_csv_reads_back(headers, rows);
    assert forall|i: int| 0 <= i < rows.len() implies #[trigger] read_records(
        csv_text(headers, rows),
        0,
    )[i + 1] == plain_row(rows[i]) by {
        lemma_plain_row(rows[i]);
    }
}

/// A CSV field stands as it is where it holds no comma, no quote and no line end; else it
/// stands between two quotes.
pub proof fn law_csv_quotes_what_needs_it(s: Seq<char>)
    ensures
        (forall|i: int|
            0 <= i < s.len() ==> #[trigger] s[i] != ',' && s[i] != '"' && s[i] != '\n' && s[i]
                != '\r') ==> csv_field_text(s) == s,
        (exists|i: int|
            0 <= i < s.len() && (#[trigger] s[i] == ',' || s[i] == '"' || s[i] == '\n' || s[i]
                == '\r')) ==> csv_field_text(s).len() >= s.len() + 2 && csv_field_text(s)[0] == '"'
            && csv_field_text(s).last() == '"',
{
    lemma_doubled_len(s, '"');
    if exists|i: int|
        0 <= i < s.len() && (#[trigger] s[i] == ',' || s[i] == '"' || s[i] == '\n' || s[i]
            == '\r') {
        let i = choose|i: int|
            0 <= i < s.len() && (#[trigger] s[i] == ',' || s[i] == '"' || s[i] == '\n' || s[i]
                == '\r');
        assert(needs_quotes(s[i]));
        assert(csv_field_text(s) == quoted(s, '"'));
    } else {
        assert forall|i: int| 0 <= i < s.len() implies !needs_quotes(#[trigger] s[i]) by {}
    }
}

proof fn lemma_doubled_len(s: Seq<char>, q: char)
    ensures
        crate::text::doubled(s, q).len() >= s.len(),
    decreases s.len(),
{
    if s.len() > 0 {
        lemma_doubled_len(s.drop_last(), q);
    }
}

/// Every record of CSV ends in CR and LF.
pub proof fn law_csv_lines_end_in_crlf(fields: Seq<Seq<char>>)
    ensures
        csv_line(fields).len() >= 2,
        csv_line(fields)[csv_line(fields).len() - 2] == '\r',
        csv_line(fields)[csv_line(fields).len() - 1] == '\n',
{
    reveal_strlit("\r\n");
}

// ---- JSON ------------------------------------------------------------------------

/// Whether objects hold rows of cells under the names of their columns.
pub open spec fn holds_rows(
    objects: Seq<Seq<(Seq<char>, Cell)>>,
    headers: Seq<Seq<char>>,
    rows: Seq<Seq<Cell>>,
) -> bool {
    &&& objects.len() == rows.len()
    &&& forall|i: int| 0 <= i < rows.len() ==> (#[trigger] objects[i]).len() == headers.len()
    &&& forall|i: int, j: int|
        0 <= i < rows.len() && 0 <= j < headers.len() ==> #[trigger] objects[i][j] == (
            headers[j],
            if j < rows[i].len() {
                rows[i][j]
            } else {
                None
            },
        )
}

/// A JSON export reads back as an object for each row, in which every column stands under its
/// name, in order, with the text of its cell or `null`; a row that is too short has `null`
/// behind it.
pub proof fn law_json_says_the_cells(headers: Seq<Seq<char>>, rows: Seq<Seq<Cell>>)
    ensures
        read_array(json_text(headers, rows)) matches Some(objects) && holds_rows(
            objects,
            headers,
            rows,
        ),
{
    law_json_reads_back(headers, rows);
    let objects = read_array(json_text(headers, rows))->0;
    assert forall|i: int| 0 <= i < rows.len() implies (#[trigger] objects[i]).len()
        == headers.len() by {
        assert(objects[i] == members_of(headers, rows[i]));
    }
    assert forall|i: int, j: int| 0 <= i < rows.len() && 0 <= j < headers.len() implies
        #[trigger] objects[i][j] == (
        headers[j],
        if j < rows[i].len() {
            rows[i][j]
        } else {
            None
        },
    ) by {
        assert(objects[i] == members_of(headers, rows[i]));
    }
}

} // verus!
