//! The command palette, and the terminal.

use vstd::prelude::*;
use crate::export::ExportFormat;
use crate::text::{contains, lowercase, to_lower};
use crate::tree::is_kept;
use crate::workspace::state::{Effect, EffectView, Workspace, WorkspaceView};

verus! {

/// A command of the palette.
#[derive(Debug, Clone, Copy, PartialEq, Eq, Structural)]
pub enum PaletteCmd {
    Run,
    Explain,
    ExplainAnalyze,
    Cancel,
    Refresh,
    Terminal,
    Connections,
    Settings,
    ExportCsv,
    ExportJson,
    ExportInserts,
    CopyTsv,
    Format,
}

/// The commands with their labels, in the order in which they are listed.
pub open spec fn all_commands() -> Seq<(Seq<char>, PaletteCmd)> {
    seq![
        ("Run query"@, PaletteCmd::Run),
        ("Explain query"@, PaletteCmd::Explain),
        ("Explain analyze (runs query)"@, PaletteCmd::ExplainAnalyze),
        ("Format SQL"@, PaletteCmd::Format),
        ("Export result as CSV"@, PaletteCmd::ExportCsv),
        ("Export result as JSON"@, PaletteCmd::ExportJson),
        ("Export result as SQL INSERTs"@, PaletteCmd::ExportInserts),
        ("Copy result (TSV) to clipboard"@, PaletteCmd::CopyTsv),
        ("Cancel query"@, PaletteCmd::Cancel),
        ("Refresh schemas"@, PaletteCmd::Refresh),
        ("Manage connections"@, PaletteCmd::Connections),
        ("Open settings"@, PaletteCmd::Settings),
        ("Toggle terminal"@, PaletteCmd::Terminal),
    ]
}

/// What stands in lists of commands: labels with what they stand for.
pub open spec fn labelled(list: Seq<(&'static str, PaletteCmd)>) -> Seq<(Seq<char>, PaletteCmd)> {
    list.map_values(|e: (&'static str, PaletteCmd)| (e.0@, e.1))
}

/// The commands whose label holds a text, which is in lower case; all for the empty text.
pub open spec fn commands_with(
    list: Seq<(Seq<char>, PaletteCmd)>,
    needle: Seq<char>,
) -> Seq<(Seq<char>, PaletteCmd)>
    decreases list.len(),
{
    if list.len() == 0 {
        list
    } else if is_kept(list.last().0, needle) {
        commands_with(list.drop_last(), needle).push(list.last())
    } else {
        commands_with(list.drop_last(), needle)
    }
}

/// The commands with their labels.
pub fn palette_commands() -> (r: Vec<(&'static str, PaletteCmd)>)
    ensures
        labelled(r@) == all_commands(),
{
    let r: Vec<(&'static str, PaletteCmd)> = vec![
        ("Run query", PaletteCmd::Run),
        ("Explain query", PaletteCmd::Explain),
        ("Explain analyze (runs query)", PaletteCmd::ExplainAnalyze),
        ("Format SQL", PaletteCmd::Format),
        ("Export result as CSV", PaletteCmd::ExportCsv),
        ("Export result as JSON", PaletteCmd::ExportJson),
        ("Export result as SQL INSERTs", PaletteCmd::ExportInserts),
        ("Copy result (TSV) to clipboard", PaletteCmd::CopyTsv),
        ("Cancel query", PaletteCmd::Cancel),
        ("Refresh schemas", PaletteCmd::Refresh),
        ("Manage connections", PaletteCmd::Connections),
        ("Open settings", PaletteCmd::Settings),
        ("Toggle terminal", PaletteCmd::Terminal),
    ];
    proof {
        assert(labelled(r@) =~= all_commands());
    }
    r
}

/// The commands whose label holds a text that is in lower case already.
pub fn commands_for(needle: &str) -> (r: Vec<(&'static str, PaletteCmd)>)
    ensures
        labelled(r@) == commands_with(all_commands(), needle@),
{
    let all = palette_commands();
    let ghost av = labelled(all@);
    let mut r: Vec<(&'static str, PaletteCmd)> = Vec::new();
    proof {
        assert(labelled(r@) =~= commands_with(av.take(0), needle@));
    }
    let mut i: usize = 0;
    while i < all.len()
        invariant
            i <= all@.len(),
            av == labelled(all@),
            labelled(r@) == commands_with(av.take(i as int), needle@),
        decreases all@.len() - i,
    {
        let ghost before = labelled(r@);
        let entry = all[i];
        proof {
            assert(av.take(i + 1).drop_last() =~= av.take(i as int));
            assert(av.take(i + 1).last() == (entry.0@, entry.1));
        }
        if needle.is_empty() || contains(to_lower(entry.0).as_str(), needle) {
            r.push(entry);
            proof {
                assert(labelled(r@) =~= before.push((entry.0@, entry.1)));
            }
        }
        i += 1;
    }
    proof {
        assert(av.take(i as int) =~= av);
    }
    r
}

/// The commands that are listed for what was typed, in whatever case.
pub fn palette_list(query: &str) -> (r: Vec<(&'static str, PaletteCmd)>)
    ensures
        labelled(r@) == commands_with(all_commands(), lowercase(query@)),
{
    commands_for(to_lower(query).as_str())
}

/// The shell that a terminal runs: the one that the environment names, else the one that
/// every system has.
pub fn login_shell(windows: bool, comspec: Option<String>, shell: Option<String>) -> (r: String)
    ensures
        r@ == (if windows {
            match comspec {
                Some(s) => s@,
                None => "cmd.exe"@,
            }
        } else {
            match shell {
                Some(s) => s@,
                None => "/bin/sh"@,
            }
        }),
{
    if windows {
        match comspec {
            Some(s) => s,
            None => "cmd.exe".to_owned(),
        }
    } else {
        match shell {
            Some(s) => s,
            None => "/bin/sh".to_owned(),
        }
    }
}

impl WorkspaceView {
    /// The palette is shown or hidden.
    pub open spec fn with_palette(self, open: bool) -> WorkspaceView {
        WorkspaceView { palette_open: open, ..self }
    }

    /// The palette and both dialogs are hidden.
    pub open spec fn close_overlays(self) -> WorkspaceView {
        WorkspaceView {
            palette_open: false,
            conn_manager_open: false,
            settings_open: false,
            ..self
        }
    }

    /// The terminal is started, or shown or hidden where there is one.
    pub open spec fn toggle_terminal(self) -> WorkspaceView {
        if !self.terminal {
            self.with_effect(EffectView::StartTerminal)
        } else {
            let shown = WorkspaceView { terminal_open: !self.terminal_open, ..self };
            if shown.terminal_open {
                shown.with_effect(EffectView::FocusTerminal)
            } else {
                shown
            }
        }
    }

    /// The terminal was started, or could not be.
    pub open spec fn terminal_started(self, error: Option<Seq<char>>) -> WorkspaceView {
        match error {
            None => WorkspaceView { terminal: true, terminal_open: true, ..self }.with_status(
                "Terminal opened"@,
            ).with_effect(EffectView::FocusTerminal),
            Some(e) => self.with_status("Terminal failed: "@ + e),
        }
    }

    /// A command was chosen in the palette.
    #[verifier::opaque]
    pub open spec fn run_command(self, cmd: PaletteCmd) -> WorkspaceView {
        let w = self.with_palette(false);
        match cmd {
            PaletteCmd::Run => w.run_active_tab(),
            PaletteCmd::Explain => w.explain_active(false),
            PaletteCmd::ExplainAnalyze => w.explain_active(true),
            PaletteCmd::Format => w.format_active(),
            PaletteCmd::ExportCsv => w.export_active(ExportFormat::Csv),
            PaletteCmd::ExportJson => w.export_active(ExportFormat::Json),
            PaletteCmd::ExportInserts => w.export_active(ExportFormat::Inserts),
            PaletteCmd::CopyTsv => w.copy_active_tsv(),
            PaletteCmd::Cancel => w.cancel(),
            PaletteCmd::Refresh => w.connect_or_refresh(),
            PaletteCmd::Terminal => w.toggle_terminal(),
            PaletteCmd::Connections => w.toggle_connections(),
            PaletteCmd::Settings => w.toggle_settings(),
        }
    }
}

impl Workspace {
    /// Shows or hides the palette.
    pub fn toggle_palette(&mut self)
        ensures
            final(self).deep_view() == old(self).deep_view().with_palette(
                !old(self).deep_view().palette_open,
            ),
    {
        self.palette_open = !self.palette_open;
    }

    /// Hides the palette.
    pub fn close_palette(&mut self)
        ensures
            final(self).deep_view() == old(self).deep_view().with_palette(false),
    {
        self.palette_open = false;
    }

    /// Hides the palette and both dialogs.
    pub fn close_overlays(&mut self)
        ensures
            final(self).deep_view() == old(self).deep_view().close_overlays(),
    {
        self.close_palette();
        self.conn_manager_open = false;
        self.settings_open = false;
    }

    /// Starts the terminal, or shows or hides it where there is one.
    pub fn toggle_terminal(&mut self)
        ensures
            final(self).deep_view() == old(self).deep_view().toggle_terminal(),
    {
        if !self.terminal {
            self.emit(Effect::StartTerminal);
        } else {
            self.terminal_open = !self.terminal_open;
            if self.terminal_open {
                self.emit(Effect::FocusTerminal);
            }
        }
    }

    /// Takes in what came of starting the terminal.
    pub fn terminal_started(&mut self, result: Result<(), String>)
        ensures
            final(self).deep_view() == old(self).deep_view().terminal_started(
                match result {
                    Ok(_) => None,
                    Err(e) => Some(e@),
                },
            ),
    {
        match result {
            Ok(_) => {
                self.terminal = true;
                self.terminal_open = true;
                self.set_status("Terminal opened".to_owned());
                self.emit(Effect::FocusTerminal);
            },
            Err(e) => {
                self.set_status("Terminal failed: ".to_owned().concat(e.as_str()));
            },
        }
    }

    /// Runs a command of the palette and hides the palette.
    pub fn run_command(&mut self, cmd: PaletteCmd)
        ensures
            final(self).deep_view() == old(self).deep_view().run_command(cmd),
    {
        proof {
            reveal(WorkspaceView::run_command);
        }
        self.palette_open = false;
        match cmd {
            PaletteCmd::Run => self.run_active_tab(),
            PaletteCmd::Explain => self.explain_active(false),
            PaletteCmd::ExplainAnalyze => self.explain_active(true),
            PaletteCmd::Format => self.format_active(),
            PaletteCmd::ExportCsv => self.export_active(ExportFormat::Csv),
            PaletteCmd::ExportJson => self.export_active(ExportFormat::Json),
            PaletteCmd::ExportInserts => self.export_active(ExportFormat::Inserts),
            PaletteCmd::CopyTsv => self.copy_active_tsv(),
            PaletteCmd::Cancel => self.cancel(),
            PaletteCmd::Refresh => self.connect_or_refresh(),
            PaletteCmd::Terminal => self.toggle_terminal(),
            PaletteCmd::Connections => self.toggle_connections(),
            PaletteCmd::Settings => self.toggle_settings(),
        }
    }
}

} // verus!
