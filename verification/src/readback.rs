//! What written text says to a reader: CSV records, JSON objects and quoted SQL come back as
//! they were, and TSV keeps its shape.

use vstd::prelude::*;
use crate::export::{
    cell_at, csv_field_text, csv_line, csv_text, flat, json_char, json_members, json_row,
    json_string, json_text, json_value, needs_quotes, texts, tsv_line, tsv_text, Cell,
};
use crate::lexing::lemma_doubled_front;
use crate::text::{concat_all, digit, doubled, joined, quoted};

verus! {

// ---- joined and concatenated texts from the front ------------------------------

pub(crate) proof fn lemma_joined_front(parts: Seq<Seq<char>>, sep: Seq<char>)
    requires
        parts.len() >= 2,
    ensures
        joined(parts, sep) == parts[0] + sep + joined(parts.drop_first(), sep),
    decreases parts.len(),
{
    if parts.len() == 2 {
        assert(joined(parts.drop_last(), sep) == parts[0]);
        assert(joined(parts.drop_first(), sep) == parts[1]);
        assert(joined(parts, sep) =~= parts[0] + sep + joined(parts.drop_first(), sep));
    } else {
        lemma_joined_front(parts.drop_last(), sep);
        assert(parts.drop_last().drop_first() =~= parts.drop_first().drop_last());
        assert(joined(parts, sep) =~= parts[0] + sep + joined(parts.drop_first(), sep));
    }
}

proof fn lemma_concat_front(parts: Seq<Seq<char>>)
    requires
        parts.len() >= 1,
    ensures
        concat_all(parts) == parts[0] + concat_all(parts.drop_first()),
    decreases parts.len(),
{
    if parts.len() == 1 {
        assert(parts.drop_last() =~= Seq::<Seq<char>>::empty());
        assert(parts.drop_first() =~= Seq::<Seq<char>>::empty());
        assert(concat_all(parts) =~= parts[0] + concat_all(parts.drop_first()));
    } else {
        lemma_concat_front(parts.drop_last());
        assert(parts.drop_last().drop_first() =~= parts.drop_first().drop_last());
        assert(concat_all(parts) =~= parts[0] + concat_all(parts.drop_first()));
    }
}

// ---- a CSV reader --------------------------------------------------------------

/// Reads the inside of a text between two quotes `q` from `i` on, a doubled one standing for
/// one of them: its text, and where it ends.
pub open spec fn read_quoted(s: Seq<char>, i: int, q: char) -> (Seq<char>, int)
    decreases s.len() - i,
{
    if i >= s.len() {
        (Seq::empty(), i)
    } else if s[i] != q {
        let r = read_quoted(s, i + 1, q);
        (seq![s[i]] + r.0, r.1)
    } else if i + 1 < s.len() && s[i + 1] == q {
        let r = read_quoted(s, i + 2, q);
        (seq![q] + r.0, r.1)
    } else {
        (Seq::empty(), i + 1)
    }
}

/// Reads a field without quotes from `i` on, up to a comma or a line end.
pub open spec fn read_plain(s: Seq<char>, i: int) -> (Seq<char>, int)
    decreases s.len() - i,
{
    if i >= s.len() || s[i] == ',' || s[i] == '\r' || s[i] == '\n' {
        (Seq::empty(), i)
    } else {
        let r = read_plain(s, i + 1);
        (seq![s[i]] + r.0, r.1)
    }
}

/// Reads a field.
pub open spec fn read_field(s: Seq<char>, i: int) -> (Seq<char>, int) {
    if i < s.len() && s[i] == '"' {
        read_quoted(s, i + 1, '"')
    } else {
        read_plain(s, i)
    }
}

/// Reads the fields of a record up to the end of its line, and goes behind that.
pub open spec fn read_record(s: Seq<char>, i: int) -> (Seq<Seq<char>>, int)
    decreases s.len() - i,
{
    let (field, j) = read_field(s, i);
    if i <= j < s.len() && s[j] == ',' {
        let r = read_record(s, j + 1);
        (seq![field] + r.0, r.1)
    } else {
        (seq![field], j + 2)
    }
}

/// Reads all records.
pub open spec fn read_records(s: Seq<char>, i: int) -> Seq<Seq<Seq<char>>>
    decreases s.len() - i,
{
    if i >= s.len() {
        Seq::empty()
    } else {
        let (record, j) = read_record(s, i);
        seq![record] + (if i < j <= s.len() {
            read_records(s, j)
        } else {
            Seq::empty()
        })
    }
}

proof fn lemma_read_quoted(t: Seq<char>, i: int, s: Seq<char>, q: char)
    requires
        0 <= i,
        i + doubled(s, q).len() < t.len(),
        t.subrange(i, i + doubled(s, q).len()) == doubled(s, q),
        t[i + doubled(s, q).len()] == q,
        i + doubled(s, q).len() + 1 >= t.len() || t[i + doubled(s, q).len() + 1] != q,
    ensures
        read_quoted(t, i, q) == (s, i + doubled(s, q).len() + 1),
    decreases s.len(),
{
    let d = doubled(s, q);
    if s.len() == 0 {
        assert(read_quoted(t, i, q).0 =~= s);
    } else {
        lemma_doubled_front(s, q);
        let rest = doubled(s.drop_first(), q);
        assert(t[i] == t.subrange(i, i + d.len())[0]);
        let step: int = if s[0] == q {
            2
        } else {
            1
        };
        if s[0] == q {
            assert(t[i + 1] == t.subrange(i, i + d.len())[1]);
        }
        assert(t.subrange(i + step, i + step + rest.len()) =~= rest) by {
            assert forall|k: int| 0 <= k < rest.len() implies t.subrange(
                i + step,
                i + step + rest.len(),
            )[k] == rest[k] by {
                assert(t.subrange(i, i + d.len())[k + step] == d[k + step]);
            }
        }
        lemma_read_quoted(t, i + step, s.drop_first(), q);
        assert(seq![s[0]] + s.drop_first() =~= s);
    }
}

proof fn lemma_read_plain(pre: Seq<char>, s: Seq<char>, post: Seq<char>)
    requires
        forall|i: int| 0 <= i < s.len() ==> !needs_quotes(#[trigger] s[i]),
        post.len() > 0,
        post[0] == ',' || post[0] == '\r',
    ensures
        read_plain(pre + s + post, pre.len() as int) == (s, (pre.len() + s.len()) as int),
    decreases s.len(),
{
    let t = pre + s + post;
    if s.len() == 0 {
        assert(t[pre.len() as int] == post[0]);
        assert(read_plain(t, pre.len() as int).0 =~= s);
    } else {
        assert(t[pre.len() as int] == s[0]);
        assert(!needs_quotes(s[0]));
        assert forall|i: int| 0 <= i < s.drop_first().len() implies !needs_quotes(
            #[trigger] s.drop_first()[i],
        ) by {
            assert(!needs_quotes(s[i + 1]));
        }
        lemma_read_plain(pre.push(s[0]), s.drop_first(), post);
        assert(pre.push(s[0]) + s.drop_first() + post =~= t);
        assert(seq![s[0]] + s.drop_first() =~= s);
    }
}

/// A field reads back as it was, where a comma or a line end follows it.
pub proof fn law_csv_field_reads_back(pre: Seq<char>, s: Seq<char>, post: Seq<char>)
    requires
        post.len() > 0,
        post[0] == ',' || post[0] == '\r',
    ensures
        read_field(pre + csv_field_text(s) + post, pre.len() as int) == (
            s,
            (pre.len() + csv_field_text(s).len()) as int,
        ),
{
    let t = pre + csv_field_text(s) + post;
    let i = pre.len() as int;
    if exists|k: int| 0 <= k < s.len() && needs_quotes(#[trigger] s[k]) {
        let d = doubled(s, '"');
        assert(t[i] == quoted(s, '"')[0]);
        assert(t.subrange(i + 1, i + 1 + d.len()) =~= d);
        assert(t[i + 1 + d.len()] == quoted(s, '"')[1 + d.len() as int]);
        assert(t[i + 2 + d.len()] == post[0]);
        lemma_read_quoted(t, i + 1, s, '"');
    } else {
        assert forall|k: int| 0 <= k < s.len() implies !needs_quotes(#[trigger] s[k]) by {}
        if s.len() > 0 {
            assert(!needs_quotes(s[0]));
            assert(t[i] == s[0]);
        } else {
            assert(t[i] == post[0]);
        }
        lemma_read_plain(pre, s, post);
    }
}

proof fn lemma_read_record(pre: Seq<char>, fields: Seq<Seq<char>>, post: Seq<char>)
    requires
        fields.len() > 0,
    ensures
        read_record(pre + csv_line(fields) + post, pre.len() as int) == (
            fields,
            (pre.len() + csv_line(fields).len()) as int,
        ),
    decreases fields.len(),
{
    reveal_strlit(",");
    reveal_strlit("\r\n");
    let parts = fields.map_values(|f: Seq<char>| csv_field_text(f));
    let t = pre + csv_line(fields) + post;
    let i = pre.len() as int;
    if fields.len() == 1 {
        let rest = "\r\n"@ + post;
        assert(rest[0] == '\r');
        assert(t =~= pre + csv_field_text(fields[0]) + rest);
        law_csv_field_reads_back(pre, fields[0], rest);
        assert(t[i + csv_field_text(fields[0]).len()] == rest[0]);
        assert(read_record(t, i).0 =~= fields);
    } else {
        let more = fields.drop_first();
        lemma_joined_front(parts, ","@);
        assert(parts.drop_first() =~= more.map_values(|f: Seq<char>| csv_field_text(f)));
        let rest = ","@ + csv_line(more) + post;
        assert(rest[0] == ',');
        assert(t =~= pre + csv_field_text(fields[0]) + rest);
        law_csv_field_reads_back(pre, fields[0], rest);
        let j = i + csv_field_text(fields[0]).len();
        assert(t[j] == rest[0]);
        let pre2 = pre + csv_field_text(fields[0]) + ","@;
        assert(t =~= pre2 + csv_line(more) + post);
        lemma_read_record(pre2, more, post);
        assert(seq![fields[0]] + more =~= fields);
    }
}

proof fn lemma_read_records(pre: Seq<char>, records: Seq<Seq<Seq<char>>>)
    requires
        forall|i: int| 0 <= i < records.len() ==> (#[trigger] records[i]).len() > 0,
    ensures
        read_records(
            pre + concat_all(records.map_values(|r: Seq<Seq<char>>| csv_line(r))),
            pre.len() as int,
        ) == records,
    decreases records.len(),
{
    reveal_strlit("\r\n");
    let lines = records.map_values(|r: Seq<Seq<char>>| csv_line(r));
    let t = pre + concat_all(lines);
    if records.len() == 0 {
        assert(read_records(t, pre.len() as int) =~= records);
    } else {
        let more = records.drop_first();
        lemma_concat_front(lines);
        assert(lines.drop_first() =~= more.map_values(|r: Seq<Seq<char>>| csv_line(r)));
        let post = concat_all(lines.drop_first());
        assert(t =~= pre + csv_line(records[0]) + post);
        assert(records[0].len() > 0);
        lemma_read_record(pre, records[0], post);
        assert forall|i: int| 0 <= i < more.len() implies (#[trigger] more[i]).len() > 0 by {
            assert(records[i + 1].len() > 0);
        }
        lemma_read_records(pre + csv_line(records[0]), more);
        assert(t =~= pre + csv_line(records[0]) + post);
        assert(csv_line(records[0]).len() >= 2);
        assert(seq![records[0]] + more =~= records);
    }
}

/// A CSV export reads back as its header and its rows, whatever they hold; NULL reads as
/// an empty field. Every record must have a field: one without any is a blank line, which
/// reads as a record of one empty field.
pub proof fn law_csv_reads_back(headers: Seq<Seq<char>>, rows: Seq<Seq<Cell>>)
    requires
        headers.len() > 0,
        forall|i: int| 0 <= i < rows.len() ==> (#[trigger] rows[i]).len() > 0,
    ensures
        read_records(csv_text(headers, rows), 0) == seq![headers] + rows.map_values(
            |r: Seq<Cell>| texts(r),
        ),
{
    let bodies = rows.map_values(|r: Seq<Cell>| texts(r));
    let records = seq![headers] + bodies;
    let lines = records.map_values(|r: Seq<Seq<char>>| csv_line(r));
    lemma_concat_front(lines);
    assert(lines.drop_first() =~= rows.map_values(|r: Seq<Cell>| csv_line(texts(r))));
    assert(csv_text(headers, rows) =~= concat_all(lines));
    assert forall|i: int| 0 <= i < records.len() implies (#[trigger] records[i]).len() > 0 by {
        if i > 0 {
            assert(rows[i - 1].len() > 0);
        }
    }
    lemma_read_records(Seq::empty(), records);
    assert(Seq::<char>::empty() + concat_all(lines) =~= concat_all(lines));
}

// ---- quoted names and values in SQL ----------------------------------------------

/// A name or a value between quotes reads back as it was, whatever it holds, unless a quote
/// follows it.
pub proof fn law_quoted_reads_back(pre: Seq<char>, s: Seq<char>, q: char, post: Seq<char>)
    requires
        post.len() == 0 || post[0] != q,
    ensures
        read_quoted(pre + quoted(s, q) + post, pre.len() as int + 1, q) == (
            s,
            (pre.len() + quoted(s, q).len()) as int,
        ),
{
    let t = pre + quoted(s, q) + post;
    let d = doubled(s, q);
    let i = pre.len() as int;
    assert(t.subrange(i + 1, i + 1 + d.len()) =~= d);
    assert(t[i + 1 + d.len()] == quoted(s, q)[1 + d.len() as int]);
    if post.len() > 0 {
        assert(t[i + 2 + d.len()] == post[0]);
    }
    lemma_read_quoted(t, i + 1, s, q);
}

// ---- a JSON string reader --------------------------------------------------------

/// The value of a hexadecimal digit in lower case.
pub open spec fn digit_value(c: char) -> int {
    if '0' <= c <= '9' {
        c as int - '0' as int
    } else {
        c as int - 'a' as int + 10
    }
}

/// Whether a character is a hexadecimal digit in lower case.
pub open spec fn is_hex(c: char) -> bool {
    '0' <= c <= '9' || 'a' <= c <= 'f'
}

/// The character that a letter behind a backslash stands for, if it stands for one.
pub open spec fn unescaped(c: char) -> Option<char> {
    if c == '"' || c == '\\' || c == '/' {
        Some(c)
    } else if c == 'n' {
        Some('\n')
    } else if c == 'r' {
        Some('\r')
    } else if c == 't' {
        Some('\t')
    } else if c == 'b' {
        Some('\u{8}')
    } else if c == 'f' {
        Some('\u{c}')
    } else {
        None
    }
}

/// What was read, with a character before it.
pub open spec fn after_char(c: char, r: Option<(Seq<char>, int)>) -> Option<(Seq<char>, int)> {
    match r {
        Some((text, end)) => Some((seq![c] + text, end)),
        None => None,
    }
}

/// Reads the inside of a JSON string from `i` on: its text, and where the string ends.
pub open spec fn read_json(s: Seq<char>, i: int) -> Option<(Seq<char>, int)>
    decreases s.len() - i,
{
    if i < 0 || i >= s.len() || s[i] <= '\u{1f}' {
        None
    } else if s[i] == '"' {
        Some((Seq::empty(), i + 1))
    } else if s[i] != '\\' {
        after_char(s[i], read_json(s, i + 1))
    } else if i + 1 >= s.len() {
        None
    } else if s[i + 1] == 'u' {
        if i + 6 <= s.len() && is_hex(s[i + 2]) && is_hex(s[i + 3]) && is_hex(s[i + 4]) && is_hex(
            s[i + 5],
        ) {
            let code = ((digit_value(s[i + 2]) * 16 + digit_value(s[i + 3])) * 16 + digit_value(
                s[i + 4],
            )) * 16 + digit_value(s[i + 5]);
            after_char(code as char, read_json(s, i + 6))
        } else {
            None
        }
    } else {
        match unescaped(s[i + 1]) {
            Some(c) => after_char(c, read_json(s, i + 2)),
            None => None,
        }
    }
}

proof fn lemma_read_json(pre: Seq<char>, s: Seq<char>, post: Seq<char>)
    ensures
        read_json(
            pre + concat_all(s.map_values(|c: char| json_char(c))) + seq!['"'] + post,
            pre.len() as int,
        ) == Some(
            (s, pre.len() as int + concat_all(s.map_values(|c: char| json_char(c))).len() + 1),
        ),
    decreases s.len(),
{
    let parts = s.map_values(|c: char| json_char(c));
    let t = pre + concat_all(parts) + seq!['"'] + post;
    let i = pre.len() as int;
    if s.len() == 0 {
        assert(t[i] == '"');
        assert(Seq::<char>::empty() =~= s);
    } else {
        let c = s[0];
        let e = json_char(c);
        lemma_concat_front(parts);
        let more = s.drop_first();
        assert(parts.drop_first() =~= more.map_values(|c: char| json_char(c)));
        let pre2 = pre + e;
        lemma_read_json(pre2, more, post);
        assert(t =~= pre2 + concat_all(parts.drop_first()) + seq!['"'] + post);
        assert(t.subrange(i, i + e.len()) =~= e);
        assert forall|k: int| 0 <= k < e.len() implies t[i + k] == #[trigger] e[k] by {
            assert(t.subrange(i, i + e.len())[k] == e[k]);
        }
        assert(t[i] == e[0]);
        assert(seq![c] + more =~= s);
        if c == '"' || c == '\\' || c == '\n' || c == '\r' || c == '\t' {
            assert(t[i + 1] == e[1]);
        } else if c <= '\u{1f}' {
            assert(t[i + 1] == e[1]);
            assert(t[i + 2] == e[2]);
            assert(t[i + 3] == e[3]);
            assert(t[i + 4] == e[4]);
            assert(t[i + 5] == e[5]);
            lemma_escape(c);
        }
    }
}

proof fn lemma_escape(c: char)
    requires
        c <= '\u{1f}',
    ensures
        digit_value(digit(c as nat / 16)) * 16 + digit_value(digit(c as nat % 16)) == c as int,
        digit_value('0') == 0,
        (c as int) as char == c,
{
}

/// A JSON string reads back as the text that it was made of, whatever stands round it.
pub proof fn law_json_string_reads_back(pre: Seq<char>, s: Seq<char>, post: Seq<char>)
    ensures
        read_json(pre + json_string(s) + post, pre.len() as int + 1) == Some(
            (s, (pre.len() + json_string(s).len()) as int),
        ),
{
    let body = concat_all(s.map_values(|c: char| json_char(c)));
    lemma_read_json(pre.push('"'), s, post);
    assert(pre.push('"') + body + seq!['"'] + post =~= pre + json_string(s) + post);
}

// ---- a reader of exported JSON ---------------------------------------------------

/// Where the white space that begins at `i` ends.
pub open spec fn skip_space(s: Seq<char>, i: int) -> int
    decreases s.len() - i,
{
    if 0 <= i < s.len() && (s[i] == ' ' || s[i] == '\n') {
        skip_space(s, i + 1)
    } else {
        i
    }
}

/// Whether a character stands at `i`.
pub open spec fn char_at(s: Seq<char>, i: int, c: char) -> bool {
    0 <= i < s.len() && s[i] == c
}

/// Whether a word stands at `i`.
pub open spec fn word_at(s: Seq<char>, i: int, word: Seq<char>) -> bool {
    0 <= i && i + word.len() <= s.len() && s.subrange(i, i + word.len()) == word
}

/// Reads a string or `null`, and goes behind it.
pub open spec fn read_value(s: Seq<char>, i: int) -> Option<(Cell, int)> {
    if char_at(s, i, '"') {
        match read_json(s, i + 1) {
            Some((text, end)) => Some((Some(text), end)),
            None => None,
        }
    } else if word_at(s, i, "null"@) {
        Some((None, i + 4))
    } else {
        None
    }
}

/// Reads a member of an object: its name and its value, with a colon between them.
#[verifier::opaque]
pub open spec fn read_member(s: Seq<char>, i: int) -> Option<((Seq<char>, Cell), int)> {
    let at = skip_space(s, i);
    if !char_at(s, at, '"') {
        None
    } else {
        match read_json(s, at + 1) {
            None => None,
            Some((name, end)) => {
                let colon = skip_space(s, end);
                if !char_at(s, colon, ':') {
                    None
                } else {
                    match read_value(s, skip_space(s, colon + 1)) {
                        Some((value, end)) => Some(((name, value), end)),
                        None => None,
                    }
                }
            },
        }
    }
}

/// Reads members with commas between each two, up to the brace that closes the object, and
/// goes behind it.
pub open spec fn read_members(s: Seq<char>, i: int) -> Option<(Seq<(Seq<char>, Cell)>, int)>
    decreases s.len() - i,
{
    match read_member(s, i) {
        None => None,
        Some((m, end)) => {
            let j = skip_space(s, end);
            if i <= j && char_at(s, j, ',') {
                match read_members(s, j + 1) {
                    Some((more, end)) => Some((seq![m] + more, end)),
                    None => None,
                }
            } else if char_at(s, j, '}') {
                Some((seq![m], j + 1))
            } else {
                None
            }
        },
    }
}

/// Reads an object, and goes behind it.
#[verifier::opaque]
pub open spec fn read_object(s: Seq<char>, i: int) -> Option<(Seq<(Seq<char>, Cell)>, int)> {
    let at = skip_space(s, i);
    let first = skip_space(s, at + 1);
    if !char_at(s, at, '{') {
        None
    } else if char_at(s, first, '}') {
        Some((Seq::empty(), first + 1))
    } else {
        read_members(s, at + 1)
    }
}

/// Reads objects with commas between each two, up to the bracket that closes the array, and
/// goes behind it.
pub open spec fn read_objects(s: Seq<char>, i: int) -> Option<(Seq<Seq<(Seq<char>, Cell)>>, int)>
    decreases s.len() - i,
{
    match read_object(s, i) {
        None => None,
        Some((o, end)) => {
            let j = skip_space(s, end);
            if i <= j && char_at(s, j, ',') {
                match read_objects(s, j + 1) {
                    Some((more, end)) => Some((seq![o] + more, end)),
                    None => None,
                }
            } else if char_at(s, j, ']') {
                Some((seq![o], j + 1))
            } else {
                None
            }
        },
    }
}

/// Reads a text that is an array of objects and nothing else; nothing where it is not.
pub open spec fn read_array(s: Seq<char>) -> Option<Seq<Seq<(Seq<char>, Cell)>>> {
    let at = skip_space(s, 0);
    let first = skip_space(s, at + 1);
    let read = if !char_at(s, at, '[') {
        None
    } else if char_at(s, first, ']') {
        Some((Seq::empty(), first + 1))
    } else {
        read_objects(s, at + 1)
    };
    match read {
        Some((objects, end)) => if skip_space(s, end) == s.len() {
            Some(objects)
        } else {
            None
        },
        None => None,
    }
}

/// The members of the object for a row.
pub open spec fn members_of(headers: Seq<Seq<char>>, row: Seq<Cell>) -> Seq<(Seq<char>, Cell)> {
    Seq::new(headers.len(), |i: int| (headers[i], cell_at(row, i)))
}

/// A member as it is written.
pub open spec fn member_text(m: (Seq<char>, Cell)) -> Seq<char> {
    " "@ + json_string(m.0) + ": "@ + json_value(m.1)
}

proof fn lemma_read_member(pre: Seq<char>, m: (Seq<char>, Cell), post: Seq<char>)
    ensures
        read_member(pre + member_text(m) + post, pre.len() as int) == Some(
            (m, (pre.len() + member_text(m).len()) as int),
        ),
{
    reveal_strlit(" ");
    reveal_strlit(": ");
    reveal_strlit("null");
    reveal(read_member);
    reveal_with_fuel(skip_space, 2);
    let t = pre + member_text(m) + post;
    let i = pre.len() as int;
    let name = json_string(m.0);
    let value = json_value(m.1);
    let pre1 = pre + " "@;
    let post1 = ": "@ + value + post;
    assert(t =~= pre1 + name + post1);
    law_json_string_reads_back(pre1, m.0, post1);
    assert(t[i] == ' ');
    assert(t[i + 1] == name[0]);
    let b = i + 1 + name.len();
    assert(t[b] == ':');
    assert(t[b + 1] == ' ');
    let pre2 = pre1 + name + ": "@;
    assert(t =~= pre2 + value + post);
    assert(t[b + 2] == value[0]);
    match m.1 {
        Some(v) => {
            law_json_string_reads_back(pre2, v, post);
        },
        None => {
            assert(t.subrange(b + 2, b + 6) =~= "null"@);
        },
    }
}

proof fn lemma_read_members(pre: Seq<char>, ms: Seq<(Seq<char>, Cell)>, post: Seq<char>)
    requires
        ms.len() > 0,
        post.len() >= 2,
        post[0] == ' ',
        post[1] == '}',
    ensures
        ({
            let body = joined(ms.map_values(|m: (Seq<char>, Cell)| member_text(m)), ","@);
            read_members(pre + body + post, pre.len() as int) == Some(
                (ms, (pre.len() + body.len()) as int + 2),
            )
        }),
    decreases ms.len(),
{
    reveal_strlit(",");
    reveal_with_fuel(skip_space, 2);
    let parts = ms.map_values(|m: (Seq<char>, Cell)| member_text(m));
    let body = joined(parts, ","@);
    let t = pre + body + post;
    let i = pre.len() as int;
    let first = member_text(ms[0]);
    if ms.len() == 1 {
        assert(body == first);
        lemma_read_member(pre, ms[0], post);
        assert(t[i + first.len()] == post[0]);
        assert(t[i + first.len() + 1] == post[1]);
        assert(ms =~= seq![ms[0]]);
    } else {
        let more = ms.drop_first();
        lemma_joined_front(parts, ","@);
        assert(parts.drop_first() =~= more.map_values(|m: (Seq<char>, Cell)| member_text(m)));
        let rest = joined(parts.drop_first(), ","@);
        assert(t =~= pre + first + (","@ + rest + post));
        lemma_read_member(pre, ms[0], ","@ + rest + post);
        assert(t[i + first.len()] == ',');
        let pre2 = pre + first + ","@;
        assert(t =~= pre2 + rest + post);
        lemma_read_members(pre2, more, post);
        assert(seq![ms[0]] + more =~= ms);
    }
}

proof fn lemma_read_object(
    pre: Seq<char>,
    headers: Seq<Seq<char>>,
    row: Seq<Cell>,
    post: Seq<char>,
)
    ensures
        read_object(pre + json_row(headers, row) + post, pre.len() as int) == Some(
            (members_of(headers, row), (pre.len() + json_row(headers, row).len()) as int),
        ),
{
    reveal_strlit("  {");
    reveal_strlit(" }");
    reveal_strlit(" ");
    reveal(read_object);
    reveal_with_fuel(skip_space, 3);
    let ms = members_of(headers, row);
    let parts = ms.map_values(|m: (Seq<char>, Cell)| member_text(m));
    assert(json_members(headers, row) =~= parts);
    let body = joined(parts, ","@);
    let t = pre + json_row(headers, row) + post;
    let i = pre.len() as int;
    assert(t[i] == ' ');
    assert(t[i + 1] == ' ');
    assert(t[i + 2] == '{');
    let pre1 = pre + "  {"@;
    let post1 = " }"@ + post;
    assert(t =~= pre1 + body + post1);
    if ms.len() == 0 {
        assert(body =~= Seq::<char>::empty());
        assert(t[i + 3] == ' ');
        assert(t[i + 4] == '}');
        assert(ms =~= Seq::<(Seq<char>, Cell)>::empty());
    } else {
        lemma_read_members(pre1, ms, post1);
        let first = member_text(ms[0]);
        if ms.len() > 1 {
            lemma_joined_front(parts, ","@);
        }
        assert(parts[0] == first);
        assert(body.len() >= 2 && body[0] == first[0] && body[1] == first[1]);
        assert(first[0] == ' ');
        assert(first[1] == json_string(ms[0].0)[0]);
        assert(t[i + 3] == ' ');
        assert(t[i + 4] == '"');
    }
}

proof fn lemma_read_objects(
    pre: Seq<char>,
    headers: Seq<Seq<char>>,
    rows: Seq<Seq<Cell>>,
    post: Seq<char>,
)
    requires
        rows.len() > 0,
        pre.len() > 0,
        post.len() >= 2,
        post[0] == '\n',
        post[1] == ']',
    ensures
        ({
            let lines = joined(rows.map_values(|r: Seq<Cell>| json_row(headers, r)), ",\n"@);
            let read = Some(
                (
                    rows.map_values(|r: Seq<Cell>| members_of(headers, r)),
                    (pre.len() + lines.len()) as int + 2,
                ),
            );
            &&& read_objects(pre + lines + post, pre.len() as int) == read
            // A line end before the first object is passed over.
            &&& pre.last() == '\n' ==> read_objects(pre + lines + post, pre.len() - 1) == read
        }),
    decreases rows.len(),
{
    reveal_strlit(",\n");
    reveal_strlit("  {");
    reveal_with_fuel(skip_space, 2);
    let parts = rows.map_values(|r: Seq<Cell>| json_row(headers, r));
    let lines = joined(parts, ",\n"@);
    let t = pre + lines + post;
    let i = pre.len() as int;
    let first = json_row(headers, rows[0]);
    let objects = rows.map_values(|r: Seq<Cell>| members_of(headers, r));
    assert(t[i - 1] == pre.last());
    if rows.len() == 1 {
        assert(lines == first);
        lemma_read_object(pre, headers, rows[0], post);
        assert(t[i + first.len()] == '\n');
        assert(t[i + first.len() + 1] == ']');
        assert(objects =~= seq![objects[0]]);
    } else {
        let more = rows.drop_first();
        lemma_joined_front(parts, ",\n"@);
        assert(parts.drop_first() =~= more.map_values(|r: Seq<Cell>| json_row(headers, r)));
        let rest = joined(parts.drop_first(), ",\n"@);
        assert(t =~= pre + first + (",\n"@ + rest + post));
        lemma_read_object(pre, headers, rows[0], ",\n"@ + rest + post);
        assert(t[i + first.len()] == ',');
        let pre2 = pre + first + ",\n"@;
        assert(t =~= pre2 + rest + post);
        lemma_read_objects(pre2, headers, more, post);
        assert(seq![objects[0]] + more.map_values(|r: Seq<Cell>| members_of(headers, r))
            =~= objects);
    }
    if pre.last() == '\n' {
        assert(skip_space(t, i - 1) == skip_space(t, i));
        assert(read_object(t, i - 1) == read_object(t, i)) by {
            reveal(read_object);
        }
        let o = read_object(t, i)->0;
        assert(skip_space(t, o.1) >= i);
    }
}

/// A JSON export reads back as an array with an object for each row, in order: one member
/// for each column, in order, with the name of the column and the text of the cell, or
/// `null` where there is none.
pub proof fn law_json_reads_back(headers: Seq<Seq<char>>, rows: Seq<Seq<Cell>>)
    ensures
        read_array(json_text(headers, rows)) == Some(
            rows.map_values(|r: Seq<Cell>| members_of(headers, r)),
        ),
{
    reveal_strlit("[\n");
    reveal_strlit("\n");
    reveal_strlit("]");
    reveal_strlit("  {");
    reveal_with_fuel(skip_space, 4);
    let t = json_text(headers, rows);
    assert(t[0] == '[');
    assert(t[1] == '\n');
    if rows.len() == 0 {
        assert(t[2] == ']');
        assert(rows.map_values(|r: Seq<Cell>| members_of(headers, r)) =~= Seq::empty());
    } else {
        let parts = rows.map_values(|r: Seq<Cell>| json_row(headers, r));
        let lines = joined(parts, ",\n"@);
        let post = "\n"@ + "]"@;
        assert(t =~= "[\n"@ + lines + post);
        lemma_read_objects("[\n"@, headers, rows, post);
        if rows.len() > 1 {
            lemma_joined_front(parts, ",\n"@);
        }
        assert(parts[0] == json_row(headers, rows[0]));
        assert(lines[0] == ' ' && lines[1] == ' ' && lines[2] == '{');
        assert(t[2] == ' ');
        assert(t[3] == ' ');
        assert(t[4] == '{');
    }
}

// ---- the shape of TSV ------------------------------------------------------------

/// How often a character occurs in a text.
pub open spec fn count(s: Seq<char>, c: char) -> nat
    decreases s.len(),
{
    if s.len() == 0 {
        0
    } else {
        count(s.drop_last(), c) + (if s.last() == c {
            1nat
        } else {
            0nat
        })
    }
}

proof fn lemma_count_concat(a: Seq<char>, b: Seq<char>, c: char)
    ensures
        count(a + b, c) == count(a, c) + count(b, c),
    decreases b.len(),
{
    if b.len() == 0 {
        assert(a + b =~= a);
    } else {
        lemma_count_concat(a, b.drop_last(), c);
        assert((a + b).drop_last() =~= a + b.drop_last());
    }
}

proof fn lemma_count_none(s: Seq<char>, c: char)
    requires
        forall|i: int| 0 <= i < s.len() ==> #[trigger] s[i] != c,
    ensures
        count(s, c) == 0,
    decreases s.len(),
{
    if s.len() > 0 {
        assert(s[s.len() - 1] != c);
        lemma_count_none(s.drop_last(), c);
    }
}

proof fn lemma_count_joined(parts: Seq<Seq<char>>, sep: Seq<char>, c: char)
    requires
        parts.len() > 0,
        forall|i: int| 0 <= i < parts.len() ==> count(#[trigger] parts[i], c) == 0,
    ensures
        count(joined(parts, sep), c) == (parts.len() - 1) * count(sep, c),
    decreases parts.len(),
{
    if parts.len() == 1 {
        assert(count(parts[0], c) == 0);
        assert((parts.len() - 1) * count(sep, c) == 0) by (nonlinear_arith)
            requires
                parts.len() == 1,
        ;
    } else {
        let front = joined(parts.drop_last(), sep);
        lemma_count_joined(parts.drop_last(), sep, c);
        lemma_count_concat(front + sep, parts.last(), c);
        lemma_count_concat(front, sep, c);
        assert(count(parts[parts.len() - 1], c) == 0);
        let n = parts.len() - 2;
        let k = count(sep, c);
        assert(n * k + k == (n + 1) * k) by (nonlinear_arith);
    }
}

/// A TSV record holds one line end and one tab less than it has fields, whatever the
/// fields hold.
pub proof fn law_tsv_record_keeps_its_shape(fields: Seq<Seq<char>>)
    requires
        fields.len() > 0,
    ensures
        count(tsv_line(fields), '\t') == fields.len() - 1,
        count(tsv_line(fields), '\n') == 1,
        tsv_line(fields).last() == '\n',
{
    reveal_strlit("\t");
    reveal_strlit("\n");
    reveal_with_fuel(count, 2);
    let parts = fields.map_values(|f: Seq<char>| flat(f));
    assert forall|i: int| 0 <= i < parts.len() implies count(#[trigger] parts[i], '\t') == 0 && count(
        parts[i],
        '\n',
    ) == 0 by {
        let f = flat(fields[i]);
        assert forall|k: int| 0 <= k < f.len() implies #[trigger] f[k] != '\t' && f[k] != '\n' by {
            assert(f[k] == flat(fields[i])[k]);
        }
        lemma_count_none(f, '\t');
        lemma_count_none(f, '\n');
    }
    lemma_count_joined(parts, "\t"@, '\t');
    lemma_count_joined(parts, "\t"@, '\n');
    assert(count("\t"@, '\t') == 1);
    assert(count("\t"@, '\n') == 0);
    assert(count("\n"@, '\n') == 1);
    assert(count("\n"@, '\t') == 0);
    lemma_count_concat(joined(parts, "\t"@), "\n"@, '\t');
    lemma_count_concat(joined(parts, "\t"@), "\n"@, '\n');
    assert((parts.len() - 1) * 0 == 0);
}

/// A TSV export has one line for the header and one for each row, whatever they hold.
pub proof fn law_tsv_has_a_line_a_row(headers: Seq<Seq<char>>, rows: Seq<Seq<Cell>>)
    requires
        headers.len() > 0,
        forall|i: int| 0 <= i < rows.len() ==> (#[trigger] rows[i]).len() > 0,
    ensures
        count(tsv_text(headers, rows), '\n') == 1 + rows.len(),
{
    let lines = rows.map_values(|r: Seq<Cell>| tsv_line(texts(r)));
    law_tsv_record_keeps_its_shape(headers);
    assert forall|i: int| 0 <= i < lines.len() implies count(#[trigger] lines[i], '\n') == 1 by {
        assert(rows[i].len() > 0);
        law_tsv_record_keeps_its_shape(texts(rows[i]));
    }
    lemma_count_lines(lines);
    lemma_count_concat(tsv_line(headers), concat_all(lines), '\n');
}

proof fn lemma_count_lines(lines: Seq<Seq<char>>)
    requires
        forall|i: int| 0 <= i < lines.len() ==> count(#[trigger] lines[i], '\n') == 1,
    ensures
        count(concat_all(lines), '\n') == lines.len(),
    decreases lines.len(),
{
    if lines.len() > 0 {
        lemma_count_lines(lines.drop_last());
        lemma_count_concat(concat_all(lines.drop_last()), lines.last(), '\n');
        assert(count(lines[lines.len() - 1], '\n') == 1);
    }
}

} // verus!
