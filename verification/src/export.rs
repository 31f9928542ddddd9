//! Result sets as CSV, JSON, SQL `INSERT`s and TSV. The functions make text only; where
//! it goes is decided elsewhere. NULL is empty in CSV and TSV, `null` in JSON and
//! `NULL` in SQL.

use vstd::prelude::*;
use crate::edit::{ident, literal, quote_ident, quote_literal};
use crate::export_laws::{
    holds_rows, law_csv_says_the_cells, law_json_says_the_cells, law_tsv_reads_back, says_rows,
    tells_rows,
};
use crate::readback::{read_array, read_records};
use crate::text::{concat_all, digit, digit_of, join, joined, quote, quoted};
use crate::types::CellValue;

verus! {

/// Which serialization a result export produces.
#[derive(Debug, Clone, Copy, PartialEq, Eq, Structural)]
pub enum ExportFormat {
    Csv,
    Json,
    Inserts,
}

/// What a cell holds.
pub type Cell = Option<Seq<char>>;

impl ExportFormat {
    /// File extension (no dot) for a saved export.
    pub open spec fn suffix(self) -> Seq<char> {
        match self {
            ExportFormat::Csv => "csv"@,
            ExportFormat::Json => "json"@,
            ExportFormat::Inserts => "sql"@,
        }
    }

    /// File extension (no dot) for a saved export.
    pub fn extension(self) -> (r: &'static str)
        ensures
            r@ == self.suffix(),
    {
        match self {
            ExportFormat::Csv => "csv",
            ExportFormat::Json => "json",
            ExportFormat::Inserts => "sql",
        }
    }
}

/// The text of a cell, empty for NULL.
pub open spec fn cell_text(v: Cell) -> Seq<char> {
    match v {
        Some(s) => s,
        None => Seq::empty(),
    }
}

/// The text of a cell, empty for NULL.
pub fn cell_str(v: &CellValue) -> (r: &str)
    ensures
        r@ == cell_text(v.deep_view()),
{
    match v {
        CellValue::Text(s) => s.as_str(),
        CellValue::Null => {
            proof {
                reveal_strlit("");
            }
            ""
        },
    }
}

/// The cell of a row at `i`; a row that is too short has NULLs behind it.
pub open spec fn cell_at(row: Seq<Cell>, i: int) -> Cell {
    if 0 <= i < row.len() {
        row[i]
    } else {
        None
    }
}

/// The texts, one for each element.
pub open spec fn texts(row: Seq<Cell>) -> Seq<Seq<char>> {
    row.map_values(|v: Cell| cell_text(v))
}

// ---- CSV ---------------------------------------------------------------------

/// A character for which a CSV field is quoted.
pub open spec fn needs_quotes(c: char) -> bool {
    c == ',' || c == '"' || c == '\n' || c == '\r'
}

/// A CSV field: quoted where it holds a comma, a quote, CR or LF, inner quotes doubled.
pub open spec fn csv_field_text(s: Seq<char>) -> Seq<char> {
    if exists|i: int| 0 <= i < s.len() && needs_quotes(#[trigger] s[i]) {
        quoted(s, '"')
    } else {
        s
    }
}

/// One CSV record with its line end.
pub open spec fn csv_line(fields: Seq<Seq<char>>) -> Seq<char> {
    joined(fields.map_values(|f: Seq<char>| csv_field_text(f)), ","@) + "\r\n"@
}

/// The header record and one record for each row.
pub open spec fn csv_text(headers: Seq<Seq<char>>, rows: Seq<Seq<Cell>>) -> Seq<char> {
    csv_line(headers) + concat_all(rows.map_values(|r: Seq<Cell>| csv_line(texts(r))))
}

/// A CSV field, quoted where it has to be.
pub fn csv_field(s: &str) -> (r: String)
    ensures
        r@ == csv_field_text(s@),
{
    let mut plain = true;
    for c in it: s.chars()
        invariant
            it.seq() == s@,
            plain == forall|i: int| 0 <= i < it.index() ==> !needs_quotes(#[trigger] s@[i]),
    {
        if c == ',' || c == '"' || c == '\n' || c == '\r' {
            proof {
                assert(needs_quotes(s@[it.index() as int]));
            }
            plain = false;
        }
    }
    if plain {
        s.to_owned()
    } else {
        quote(s, '"')
    }
}

fn header_line(headers: &[String]) -> (r: String)
    ensures
        r@ == csv_line(headers.deep_view()),
{
    let mut parts: Vec<String> = Vec::new();
    for i in 0..headers.len()
        invariant
            parts@.len() == i,
            forall|j: int| 0 <= j < i ==> (#[trigger] parts@[j])@ == csv_field_text(headers@[j]@),
    {
        parts.push(csv_field(headers[i].as_str()));
    }
    proof {
        assert(parts.deep_view() =~= headers.deep_view().map_values(
            |f: Seq<char>| csv_field_text(f),
        ));
    }
    join(&parts, ",").concat("\r\n")
}

fn row_line(row: &Vec<CellValue>) -> (r: String)
    ensures
        r@ == csv_line(texts(row.deep_view())),
{
    let mut parts: Vec<String> = Vec::new();
    for i in 0..row.len()
        invariant
            parts@.len() == i,
            forall|j: int|
                0 <= j < i ==> (#[trigger] parts@[j])@ == csv_field_text(
                    cell_text(row@[j].deep_view()),
                ),
    {
        parts.push(csv_field(cell_str(&row[i])));
    }
    proof {
        assert(parts.deep_view() =~= texts(row.deep_view()).map_values(
            |f: Seq<char>| csv_field_text(f),
        ));
    }
    join(&parts, ",").concat("\r\n")
}

/// RFC 4180 CSV: a header record and one record for each row, CRLF line ends. A field is
/// quoted when it holds a comma, quote, CR or LF; inner quotes are doubled.
pub fn to_csv(headers: &[String], rows: &[Vec<CellValue>]) -> (r: String)
    ensures
        r@ == csv_text(headers.deep_view(), rows.deep_view()),
        headers@.len() > 0 && (forall|i: int| 0 <= i < rows@.len() ==> (#[trigger] rows@[i])@.len() > 0)
            ==> says_rows(read_records(r@, 0), headers.deep_view(), rows.deep_view()),
{
    proof {
        if headers@.len() > 0 && (forall|i: int|
            0 <= i < rows@.len() ==> (#[trigger] rows@[i])@.len() > 0) {
            assert forall|i: int| 0 <= i < rows@.len() implies (
            #[trigger] rows.deep_view()[i]).len() > 0 by {
                assert(rows@[i]@.len() > 0);
            }
            law_csv_says_the_cells(headers.deep_view(), rows.deep_view());
        }
    }
    let mut out = header_line(headers);
    let ghost lines = rows.deep_view().map_values(|r: Seq<Cell>| csv_line(texts(r)));
    let mut i: usize = 0;
    while i < rows.len()
        invariant
            i <= rows@.len(),
            lines == rows.deep_view().map_values(|r: Seq<Cell>| csv_line(texts(r))),
            out@ == csv_line(headers.deep_view()) + concat_all(lines.take(i as int)),
        decreases rows@.len() - i,
    {
        proof {
            assert(lines.take(i + 1).drop_last() == lines.take(i as int));
        }
        out.append(row_line(&rows[i]).as_str());
        i += 1;
    }
    proof {
        assert(lines.take(i as int) == lines);
    }
    out
}

// ---- JSON --------------------------------------------------------------------

/// A character inside a JSON string.
pub open spec fn json_char(c: char) -> Seq<char> {
    if c == '"' {
        seq!['\\', '"']
    } else if c == '\\' {
        seq!['\\', '\\']
    } else if c == '\n' {
        seq!['\\', 'n']
    } else if c == '\r' {
        seq!['\\', 'r']
    } else if c == '\t' {
        seq!['\\', 't']
    } else if c <= '\u{1f}' {
        seq!['\\', 'u', '0', '0', digit(c as nat / 16), digit(c as nat % 16)]
    } else {
        seq![c]
    }
}

/// A JSON string.
pub open spec fn json_string(s: Seq<char>) -> Seq<char> {
    seq!['"'] + concat_all(s.map_values(|c: char| json_char(c))) + seq!['"']
}

/// The JSON value of a cell: a string, or `null`.
pub open spec fn json_value(v: Cell) -> Seq<char> {
    match v {
        Some(s) => json_string(s),
        None => "null"@,
    }
}

/// The members of the object for a row, one for each column.
pub open spec fn json_members(headers: Seq<Seq<char>>, row: Seq<Cell>) -> Seq<Seq<char>> {
    Seq::new(
        headers.len(),
        |i: int| " "@ + json_string(headers[i]) + ": "@ + json_value(cell_at(row, i)),
    )
}

/// The object for a row, on a line of its own.
pub open spec fn json_row(headers: Seq<Seq<char>>, row: Seq<Cell>) -> Seq<char> {
    "  {"@ + joined(json_members(headers, row), ","@) + " }"@
}

/// The objects of all rows, in an array.
pub open spec fn json_text(headers: Seq<Seq<char>>, rows: Seq<Seq<Cell>>) -> Seq<char> {
    "[\n"@ + (if rows.len() == 0 {
        Seq::empty()
    } else {
        joined(rows.map_values(|r: Seq<Cell>| json_row(headers, r)), ",\n"@) + "\n"@
    }) + "]"@
}

/// Appends a character as it stands inside a JSON string.
fn push_json_char(ch: char, out: &mut String)
    ensures
        final(out)@ == old(out)@ + json_char(ch),
{
    if ch == '"' || ch == '\\' {
        out.push('\\');
        out.push(ch);
    } else if ch == '\n' {
        out.push('\\');
        out.push('n');
    } else if ch == '\r' {
        out.push('\\');
        out.push('r');
    } else if ch == '\t' {
        out.push('\\');
        out.push('t');
    } else if ch <= '\u{1f}' {
        let code: u64 = ch as u64;
        out.push('\\');
        out.push('u');
        out.push('0');
        out.push('0');
        out.push(digit_of(code / 16));
        out.push(digit_of(code % 16));
    } else {
        out.push(ch);
    }
}

/// Appends a text as a quoted, escaped JSON string.
pub fn json_str(s: &str, out: &mut String)
    ensures
        final(out)@ == old(out)@ + json_string(s@),
{
    let ghost before = out@;
    let ghost parts = s@.map_values(|c: char| json_char(c));
    out.push('"');
    for ch in it: s.chars()
        invariant
            it.seq() == s@,
            parts == s@.map_values(|c: char| json_char(c)),
            out@ == before + (seq!['"'] + concat_all(parts.take(it.index() as int))),
    {
        proof {
            let k = it.index() as int;
            assert(parts.take(k + 1).drop_last() == parts.take(k));
            assert(parts.take(k + 1).last() == json_char(ch));
        }
        push_json_char(ch, out);
    }
    proof {
        assert(parts.take(s@.len() as int) == parts);
    }
    out.push('"');
}

fn json_member(header: &str, row: &Vec<CellValue>, i: usize) -> (r: String)
    ensures
        r@ == " "@ + json_string(header@) + ": "@ + json_value(cell_at(row.deep_view(), i as int)),
{
    let mut out = " ".to_owned();
    json_str(header, &mut out);
    out.append(": ");
    if i < row.len() {
        match &row[i] {
            CellValue::Text(s) => json_str(s.as_str(), &mut out),
            CellValue::Null => out.append("null"),
        }
    } else {
        out.append("null");
    }
    out
}

fn json_row_text(headers: &[String], row: &Vec<CellValue>) -> (r: String)
    ensures
        r@ == json_row(headers.deep_view(), row.deep_view()),
{
    let mut parts: Vec<String> = Vec::new();
    for i in 0..headers.len()
        invariant
            parts@.len() == i,
            forall|j: int|
                0 <= j < i ==> (#[trigger] parts@[j])@ == json_members(
                    headers.deep_view(),
                    row.deep_view(),
                )[j],
    {
        parts.push(json_member(headers[i].as_str(), row, i));
    }
    proof {
        assert(parts.deep_view() =~= json_members(headers.deep_view(), row.deep_view()));
    }
    "  {".to_owned().concat(join(&parts, ",").as_str()).concat(" }")
}

/// JSON array of objects keyed by column name, one object a line. NULL is `null`; every
/// other value is a JSON string.
pub fn to_json(headers: &[String], rows: &[Vec<CellValue>]) -> (r: String)
    ensures
        r@ == json_text(headers.deep_view(), rows.deep_view()),
        read_array(r@) matches Some(objects) && holds_rows(
            objects,
            headers.deep_view(),
            rows.deep_view(),
        ),
{
    proof {
        law_json_says_the_cells(headers.deep_view(), rows.deep_view());
    }
    let mut out = "[\n".to_owned();
    let mut lines: Vec<String> = Vec::new();
    for i in 0..rows.len()
        invariant
            lines@.len() == i,
            forall|j: int|
                0 <= j < i ==> (#[trigger] lines@[j])@ == json_row(
                    headers.deep_view(),
                    rows@[j].deep_view(),
                ),
    {
        lines.push(json_row_text(headers, &rows[i]));
    }
    if rows.len() > 0 {
        proof {
            assert(lines.deep_view() =~= rows.deep_view().map_values(
                |r: Seq<Cell>| json_row(headers.deep_view(), r),
            ));
        }
        out.append(join(&lines, ",\n").as_str());
        out.append("\n");
    }
    out.append("]");
    out
}

// ---- SQL ---------------------------------------------------------------------

/// The literals of a row, one for each column.
pub open spec fn row_literals(columns: nat, row: Seq<Cell>) -> Seq<Seq<char>> {
    Seq::new(columns, |i: int| literal(cell_at(row, i)))
}

/// The `INSERT` for a row.
pub open spec fn insert_line(
    table: Seq<char>,
    headers: Seq<Seq<char>>,
    row: Seq<Cell>,
) -> Seq<char> {
    "INSERT INTO "@ + table + " ("@ + joined(
        headers.map_values(|h: Seq<char>| ident(h)),
        ", "@,
    ) + ") VALUES ("@ + joined(row_literals(headers.len(), row), ", "@) + ");\n"@
}

/// One `INSERT` for each row.
pub open spec fn inserts_text(
    table: Seq<char>,
    headers: Seq<Seq<char>>,
    rows: Seq<Seq<Cell>>,
) -> Seq<char> {
    concat_all(rows.map_values(|r: Seq<Cell>| insert_line(table, headers, r)))
}

fn column_list(headers: &[String]) -> (r: String)
    ensures
        r@ == joined(headers.deep_view().map_values(|h: Seq<char>| ident(h)), ", "@),
{
    let mut parts: Vec<String> = Vec::new();
    for i in 0..headers.len()
        invariant
            parts@.len() == i,
            forall|j: int| 0 <= j < i ==> (#[trigger] parts@[j])@ == ident(headers@[j]@),
    {
        parts.push(quote_ident(headers[i].as_str()));
    }
    proof {
        assert(parts.deep_view() =~= headers.deep_view().map_values(|h: Seq<char>| ident(h)));
    }
    join(&parts, ", ")
}

fn value_list(columns: usize, row: &Vec<CellValue>) -> (r: String)
    ensures
        r@ == joined(row_literals(columns as nat, row.deep_view()), ", "@),
{
    let mut parts: Vec<String> = Vec::new();
    for i in 0..columns
        invariant
            parts@.len() == i,
            forall|j: int|
                0 <= j < i ==> (#[trigger] parts@[j])@ == literal(cell_at(row.deep_view(), j)),
    {
        let part = if i < row.len() {
            quote_literal(&row[i])
        } else {
            "NULL".to_owned()
        };
        parts.push(part);
    }
    proof {
        assert(parts.deep_view() =~= row_literals(columns as nat, row.deep_view()));
    }
    join(&parts, ", ")
}

/// One `INSERT INTO <table> (..) VALUES (..);` for each row. `table` is qualified and
/// quoted already (e.g. `"public"."widget"`). Identifiers and literals are quoted as
/// they are for inline edits.
pub fn to_inserts(table: &str, headers: &[String], rows: &[Vec<CellValue>]) -> (r: String)
    ensures
        r@ == inserts_text(table@, headers.deep_view(), rows.deep_view()),
{
    let cols = column_list(headers);
    let mut out = String::new();
    let ghost hv = headers.deep_view();
    let ghost lines = rows.deep_view().map_values(|r: Seq<Cell>| insert_line(table@, hv, r));
    let mut i: usize = 0;
    while i < rows.len()
        invariant
            i <= rows@.len(),
            hv == headers.deep_view(),
            cols@ == joined(hv.map_values(|h: Seq<char>| ident(h)), ", "@),
            lines == rows.deep_view().map_values(|r: Seq<Cell>| insert_line(table@, hv, r)),
            out@ == concat_all(lines.take(i as int)),
        decreases rows@.len() - i,
    {
        let vals = value_list(headers.len(), &rows[i]);
        let line = "INSERT INTO ".to_owned().concat(table).concat(" (").concat(
            cols.as_str(),
        ).concat(") VALUES (").concat(vals.as_str()).concat(");\n");
        proof {
            assert(lines.take(i + 1).drop_last() == lines.take(i as int));
            assert(lines.take(i + 1).last() == line@);
        }
        out.append(line.as_str());
        i += 1;
    }
    proof {
        assert(lines.take(i as int) == lines);
    }
    out
}

// ---- TSV ---------------------------------------------------------------------

/// A text with its tabs and line ends turned into spaces.
pub open spec fn flat(s: Seq<char>) -> Seq<char> {
    s.map_values(
        |c: char|
            if c == '\t' || c == '\n' || c == '\r' {
                ' '
            } else {
                c
            },
    )
}

/// One TSV record with its line end.
pub open spec fn tsv_line(fields: Seq<Seq<char>>) -> Seq<char> {
    joined(fields.map_values(|f: Seq<char>| flat(f)), "\t"@) + "\n"@
}

/// The header record and one record for each row.
pub open spec fn tsv_text(headers: Seq<Seq<char>>, rows: Seq<Seq<Cell>>) -> Seq<char> {
    tsv_line(headers) + concat_all(rows.map_values(|r: Seq<Cell>| tsv_line(texts(r))))
}

fn flatten(s: &str) -> (r: String)
    ensures
        r@ == flat(s@),
{
    let mut r = String::new();
    for c in it: s.chars()
        invariant
            it.seq() == s@,
            r@ == flat(s@).take(it.index() as int),
    {
        if c == '\t' || c == '\n' || c == '\r' {
            r.push(' ');
        } else {
            r.push(c);
        }
    }
    r
}

fn tsv_header(headers: &[String]) -> (r: String)
    ensures
        r@ == tsv_line(headers.deep_view()),
{
    let mut parts: Vec<String> = Vec::new();
    for i in 0..headers.len()
        invariant
            parts@.len() == i,
            forall|j: int| 0 <= j < i ==> (#[trigger] parts@[j])@ == flat(headers@[j]@),
    {
        parts.push(flatten(headers[i].as_str()));
    }
    proof {
        assert(parts.deep_view() =~= headers.deep_view().map_values(|f: Seq<char>| flat(f)));
    }
    join(&parts, "\t").concat("\n")
}

fn tsv_row(row: &Vec<CellValue>) -> (r: String)
    ensures
        r@ == tsv_line(texts(row.deep_view())),
{
    let mut parts: Vec<String> = Vec::new();
    for i in 0..row.len()
        invariant
            parts@.len() == i,
            forall|j: int|
                0 <= j < i ==> (#[trigger] parts@[j])@ == flat(cell_text(row@[j].deep_view())),
    {
        parts.push(flatten(cell_str(&row[i])));
    }
    proof {
        assert(parts.deep_view() =~= texts(row.deep_view()).map_values(|f: Seq<char>| flat(f)));
    }
    join(&parts, "\t").concat("\n")
}

/// Tab-separated values for pasting into spreadsheets: a header record and one record
/// for each row; tabs and line ends inside values become spaces. NULL is empty.
pub fn to_tsv(headers: &[String], rows: &[Vec<CellValue>]) -> (r: String)
    ensures
        r@ == tsv_text(headers.deep_view(), rows.deep_view()),
        headers@.len() > 0 && (forall|i: int| 0 <= i < rows@.len() ==> (#[trigger] rows@[i])@.len() > 0)
            ==> tells_rows(r@, headers.deep_view(), rows.deep_view()),
{
    proof {
        if headers@.len() > 0 && (forall|i: int|
            0 <= i < rows@.len() ==> (#[trigger] rows@[i])@.len() > 0) {
            assert forall|i: int| 0 <= i < rows@.len() implies (
            #[trigger] rows.deep_view()[i]).len() > 0 by {
                assert(rows@[i]@.len() > 0);
            }
            law_tsv_reads_back(headers.deep_view(), rows.deep_view());
        }
    }
    let mut out = tsv_header(headers);
    let ghost lines = rows.deep_view().map_values(|r: Seq<Cell>| tsv_line(texts(r)));
    let mut i: usize = 0;
    while i < rows.len()
        invariant
            i <= rows@.len(),
            lines == rows.deep_view().map_values(|r: Seq<Cell>| tsv_line(texts(r))),
            out@ == tsv_line(headers.deep_view()) + concat_all(lines.take(i as int)),
        decreases rows@.len() - i,
    {
        proof {
            assert(lines.take(i + 1).drop_last() == lines.take(i as int));
        }
        out.append(tsv_row(&rows[i]).as_str());
        i += 1;
    }
    proof {
        assert(lines.take(i as int) == lines);
    }
    out
}

} // verus!
