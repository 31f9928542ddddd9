//! Exporting a result: to a file, or to the clipboard.

use vstd::prelude::*;
use crate::edit::{ident, quote_ident};
use crate::export::{
    csv_text, inserts_text, json_text, to_csv, to_inserts, to_json, to_tsv, tsv_text,
    ExportFormat,
};
use crate::lsp::{alphanumeric, is_alphanumeric};
use crate::text::{chars_of, decimal, decimal_text};
use crate::workspace::state::{Effect, EffectView, Workspace, WorkspaceView};
use crate::workspace::tab::{Tab, TabKind, TabKindView, TabView};

verus! {

/// The table that exported statements insert into: that of a table tab, else the one that
/// the result can be edited in, else `result`.
pub open spec fn export_table(t: TabView) -> Seq<char> {
    match t.kind {
        TabKindView::Table { schema, table } => ident(schema) + "."@ + ident(table),
        _ => match t.edit_target {
            Some(target) => ident(target.schema) + "."@ + ident(target.table),
            None => "result"@,
        },
    }
}

/// Whether a character may stand in the name of an exported file, given whether it is a
/// letter or a number.
pub open spec fn safe_char(c: char, alphanumeric: bool) -> char {
    if alphanumeric || c == '.' || c == '_' || c == '-' {
        c
    } else {
        '_'
    }
}

/// The name of an exported file, without its extension.
pub open spec fn export_name(t: TabView) -> Seq<char> {
    let raw = match t.kind {
        TabKindView::Table { schema, table } => schema + "."@ + table,
        _ => t.title,
    };
    if raw.len() == 0 {
        "export"@
    } else {
        raw.map_values(|c: char| safe_char(c, alphanumeric(c)))
    }
}

/// The text of an exported result.
pub open spec fn export_text(t: TabView, fmt: ExportFormat) -> Seq<char> {
    match fmt {
        ExportFormat::Csv => csv_text(t.headers, t.rows),
        ExportFormat::Json => json_text(t.headers, t.rows),
        ExportFormat::Inserts => inserts_text(export_table(t), t.headers, t.rows),
    }
}

impl WorkspaceView {
    /// The result of the active tab, where there is one.
    pub open spec fn shown_result(self) -> Option<TabView> {
        match self.active_tab() {
            Some(t) => if t.headers.len() > 0 {
                Some(t)
            } else {
                None
            },
            None => None,
        }
    }

    /// The result of the active tab is to be written to a file.
    pub open spec fn export_active(self, fmt: ExportFormat) -> WorkspaceView {
        match self.shown_result() {
            None => self.with_status("No result to export"@),
            Some(t) => self.with_effect(
                EffectView::SaveFile {
                    suggested: export_name(t) + "."@ + fmt.suffix(),
                    data: export_text(t, fmt),
                },
            ),
        }
    }

    /// The file was written, or could not be; nothing is said where the user did not choose
    /// one.
    pub open spec fn exported(self, result: Option<Result<Seq<char>, Seq<char>>>) -> WorkspaceView {
        match result {
            None => self,
            Some(Ok(path)) => self.with_status("Exported to "@ + path),
            Some(Err(e)) => self.with_status("Export failed: "@ + e),
        }
    }

    /// The result of the active tab is put on the clipboard.
    pub open spec fn copy_active_tsv(self) -> WorkspaceView {
        match self.shown_result() {
            None => self.with_status("No result to copy"@),
            Some(t) => self.with_effect(
                EffectView::Copy { text: tsv_text(t.headers, t.rows) },
            ).with_status("Copied "@ + decimal(t.rows.len()) + " row(s) to clipboard"@),
        }
    }
}

/// The table that exported statements insert into.
pub fn export_table_name(tab: &Tab) -> (r: String)
    ensures
        r@ == export_table(tab.deep_view()),
{
    match &tab.kind {
        TabKind::Table { schema, table } => quote_ident(schema.as_str()).concat(".").concat(
            quote_ident(table.as_str()).as_str(),
        ),
        _ => match &tab.edit_target {
            Some(target) => quote_ident(target.schema.as_str()).concat(".").concat(
                quote_ident(target.table.as_str()).as_str(),
            ),
            None => "result".to_owned(),
        },
    }
}

/// A character as it stands in the name of an exported file, given whether it is a letter
/// or a number.
pub fn file_char(c: char, alphanumeric: bool) -> (r: char)
    ensures
        r == safe_char(c, alphanumeric),
{
    if alphanumeric || c == '.' || c == '_' || c == '-' {
        c
    } else {
        '_'
    }
}

/// A name for an exported file that any file system takes, without its extension.
pub fn export_basename(tab: &Tab) -> (r: String)
    ensures
        r@ == export_name(tab.deep_view()),
{
    let raw = match &tab.kind {
        TabKind::Table { schema, table } => schema.clone().concat(".").concat(table.as_str()),
        _ => tab.title.clone(),
    };
    let v = chars_of(raw.as_str());
    if v.len() == 0 {
        return "export".to_owned();
    }
    let mut name = String::new();
    let mut i: usize = 0;
    while i < v.len()
        invariant
            i <= v@.len(),
            name@.len() == i,
            forall|j: int| 0 <= j < i ==> name@[j] == safe_char(v@[j], alphanumeric(v@[j])),
        decreases v@.len() - i,
    {
        let c = v[i];
        name.push(file_char(c, is_alphanumeric(c)));
        i += 1;
    }
    proof {
        assert(name@ =~= raw@.map_values(|c: char| safe_char(c, alphanumeric(c))));
    }
    name
}

fn text_of_result(tab: &Tab, fmt: ExportFormat) -> (r: String)
    ensures
        r@ == export_text(tab.deep_view(), fmt),
{
    let headers = tab.headers.as_slice();
    let rows = tab.rows.as_slice();
    proof {
        assert(headers.deep_view() =~= tab.headers.deep_view());
        assert(rows.deep_view() =~= tab.rows.deep_view());
    }
    match fmt {
        ExportFormat::Csv => to_csv(headers, rows),
        ExportFormat::Json => to_json(headers, rows),
        ExportFormat::Inserts => {
            let table = export_table_name(tab);
            to_inserts(table.as_str(), headers, rows)
        },
    }
}

impl Workspace {
    /// Has the result of the active tab written to a file that the user chooses.
    pub fn export_active(&mut self, fmt: ExportFormat)
        ensures
            final(self).deep_view() == old(self).deep_view().export_active(fmt),
    {
        let prepared = match self.active_tab() {
            None => None,
            Some(tab) => if tab.headers.len() == 0 {
                None
            } else {
                let suggested = export_basename(tab).concat(".").concat(fmt.extension());
                Some((suggested, text_of_result(tab, fmt)))
            },
        };
        match prepared {
            None => {
                self.set_status("No result to export".to_owned());
            },
            Some((suggested, data)) => {
                self.emit(Effect::SaveFile { suggested, data });
            },
        }
    }

    /// Takes in what came of writing the file: where it is, or why it is not. Without a
    /// choice of the user there is nothing to tell.
    pub fn exported(&mut self, result: Option<Result<String, String>>)
        ensures
            final(self).deep_view() == old(self).deep_view().exported(
                match result {
                    None => None,
                    Some(Ok(path)) => Some(Ok(path@)),
                    Some(Err(e)) => Some(Err(e@)),
                },
            ),
    {
        match result {
            None => {},
            Some(Ok(path)) => {
                self.set_status("Exported to ".to_owned().concat(path.as_str()));
            },
            Some(Err(e)) => {
                self.set_status("Export failed: ".to_owned().concat(e.as_str()));
            },
        }
    }

    /// Puts the result of the active tab on the clipboard as tab-separated values.
    pub fn copy_active_tsv(&mut self)
        ensures
            final(self).deep_view() == old(self).deep_view().copy_active_tsv(),
    {
        let payload = match self.active_tab() {
            None => None,
            Some(tab) => if tab.headers.len() == 0 {
                None
            } else {
                let headers = tab.headers.as_slice();
                let rows = tab.rows.as_slice();
                proof {
                    assert(headers.deep_view() =~= tab.headers.deep_view());
                    assert(rows.deep_view() =~= tab.rows.deep_view());
                }
                Some((to_tsv(headers, rows), tab.rows.len() as u64))
            },
        };
        match payload {
            None => {
                self.set_status("No result to copy".to_owned());
            },
            Some((text, n)) => {
                self.emit(Effect::Copy { text });
                self.set_status(
                    "Copied ".to_owned().concat(decimal_text(n).as_str()).concat(
                        " row(s) to clipboard",
                    ),
                );
            },
        }
    }
}

} // verus!
