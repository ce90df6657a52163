//! Making failures findable.
//!
//! A tray app that is started by the desktop has nowhere to print to, so what
//! it can say about itself is collected in a [`Report`], for the user to ask
//! for.

use crate::model::geometry::Monitor;
use crate::model::note::Note;
use crate::model::store::{LoadOutcome, Store};
use crate::paths;
use crate::placement;
use crate::text;
use crate::APP_ID;
use vstd::prelude::*;
use vstd::string::StringExecFns;

verus! {

/// A snapshot of everything worth knowing when something is not working.
#[derive(Debug, Clone, PartialEq, Eq)]
pub struct Report {
    pub version: String,
    pub app_id: String,
    /// Session type as the environment reports it (`wayland`, `x11`).
    pub session_type: Option<String>,
    pub desktop: Option<String>,
    /// Protocol version that the shell extension answers with, if it runs.
    pub extension_version: Option<u32>,
    /// Protocol version that this build speaks.
    pub expected_extension_version: u32,
    /// Monitors that the extension reports: connector, and `WxH+X+Y`.
    pub monitors: Vec<(String, String)>,
    /// Does anything show tray icons?
    pub tray_host: bool,
    pub store_path: String,
    pub store_outcome: String,
    pub note_count: usize,
    pub notes_with_geometry: usize,
    pub store_read_only: bool,
}

// ---- gathering ----

/// How a monitor's work area is written.
pub open spec fn area_text(m: Monitor) -> Seq<char> {
    text::decimal(m.width as int) + "x"@ + text::decimal(m.height as int) + "+"@ + text::decimal(
        m.x as int,
    ) + "+"@ + text::decimal(m.y as int)
}

/// A monitor for the report: its connector and its work area.
pub fn describe_monitor(m: Monitor) -> (r: (String, String))
    ensures
        r.0 == m.connector,
        r.1@ == area_text(m),
{
    let mut area = text::decimal_i32(m.width);
    area.append("x");
    area.append(text::decimal_i32(m.height).as_str());
    area.append("+");
    area.append(text::decimal_i32(m.x).as_str());
    area.append("+");
    area.append(text::decimal_i32(m.y).as_str());
    (m.connector, area)
}

/// How many of `notes` were ever placed.
pub open spec fn positioned(notes: Seq<Note>) -> int
    decreases notes.len(),
{
    if notes.len() == 0 {
        0
    } else {
        positioned(notes.drop_last()) + if notes.last().geometry.monitor is Some {
            1int
        } else {
            0
        }
    }
}

fn count_positioned(notes: &[Note]) -> (r: usize)
    ensures
        r == positioned(notes@),
{
    let mut n: usize = 0;
    let mut i: usize = 0;
    assert(notes@.take(0) =~= seq![]);
    while i < notes.len()
        invariant
            i <= notes@.len(),
            n <= i,
            n == positioned(notes@.take(i as int)),
        decreases notes@.len() - i,
    {
        assert(notes@.take(i + 1).drop_last() =~= notes@.take(i as int));
        if notes[i].geometry.monitor.is_some() {
            n += 1;
        }
        i += 1;
    }
    assert(notes@.take(i as int) =~= notes@);
    n
}

/// What is said of a file that could not be used.
pub open spec fn recovered_text(reason: Seq<char>, kept_at: Seq<char>) -> Seq<char> {
    "RECOVERED: "@ + reason + " (previous file at "@ + kept_at + ")"@
}

/// What is said of a file that could not be used.
pub fn describe_recovery(reason: &str, kept_at: &str) -> (r: String)
    ensures
        r@ == recovered_text(reason@, kept_at@),
{
    let mut out = "RECOVERED: ".to_owned();
    out.append(reason);
    out.append(" (previous file at ");
    out.append(kept_at);
    out.append(")");
    out
}

/// How the store was opened, in words.
pub open spec fn outcome_text(outcome: LoadOutcome) -> Seq<char> {
    match outcome {
        LoadOutcome::Loaded => "loaded"@,
        LoadOutcome::Fresh => "no file yet (first run)"@,
        LoadOutcome::Recovered { backup, reason } => recovered_text(
            reason@,
            paths::shown(paths::path_bytes(backup)),
        ),
    }
}

/// How the store was opened, in words.
pub fn describe_outcome(outcome: &LoadOutcome) -> (r: String)
    ensures
        r@ == outcome_text(*outcome),
{
    match outcome {
        LoadOutcome::Loaded => "loaded".to_owned(),
        LoadOutcome::Fresh => "no file yet (first run)".to_owned(),
        LoadOutcome::Recovered { backup, reason } => {
            let kept_at = paths::display(backup);
            describe_recovery(reason.as_str(), kept_at.as_str())
        },
    }
}

/// What the process knows of its surroundings.
#[derive(Debug, PartialEq, Eq)]
pub struct Surroundings {
    pub version: String,
    pub session_type: Option<String>,
    pub desktop: Option<String>,
}

impl Report {
    /// The report on an opened store. What only the extension and the bus know
    /// is handed in.
    pub fn gather(
        extension_version: Option<u32>,
        monitors: Vec<(String, String)>,
        tray_host: bool,
        surroundings: Surroundings,
        store: &Store,
        outcome: &LoadOutcome,
    ) -> (r: Report)
        ensures
            r.version == surroundings.version,
            r.app_id@ == APP_ID@,
            r.session_type == surroundings.session_type,
            r.desktop == surroundings.desktop,
            r.extension_version == extension_version,
            r.expected_extension_version == placement::PROTOCOL_VERSION,
            r.monitors == monitors,
            r.tray_host == tray_host,
            r.store_path@ == paths::shown(store@.path),
            r.store_outcome@ == outcome_text(*outcome),
            r.note_count == store@.notes.len(),
            r.notes_with_geometry == positioned(store@.notes),
            r.store_read_only == store@.read_only,
    {
        Report {
            version: surroundings.version,
            app_id: APP_ID.to_owned(),
            session_type: surroundings.session_type,
            desktop: surroundings.desktop,
            extension_version,
            expected_extension_version: placement::PROTOCOL_VERSION,
            monitors,
            tray_host,
            store_path: paths::display(store.path()),
            store_outcome: describe_outcome(outcome),
            note_count: store.len(),
            notes_with_geometry: count_positioned(store.notes()),
            store_read_only: store.is_read_only(),
        }
    }

    /// Does the extension speak our protocol, and report a monitor?
    pub open spec fn places(self) -> bool {
        self.extension_version == Some(self.expected_extension_version) && self.monitors@.len() > 0
    }

    /// Does the shell extension look usable?
    pub fn placement_working(&self) -> (r: bool)
        ensures
            r == self.places(),
    {
        match self.extension_version {
            Some(v) => v == self.expected_extension_version && self.monitors.len() > 0,
            None => false,
        }
    }
}

// ---- rendering ----

/// A text that may be missing.
pub open spec fn or_unknown(text: Option<String>) -> Seq<char> {
    match text {
        Some(s) => s@,
        None => "unknown"@,
    }
}

/// Who is reporting.
pub open spec fn heading(r: Report) -> Seq<char> {
    "Stickies "@ + r.version@ + " ("@ + r.app_id@ + ")\n"@ + "  session:            "@ + or_unknown(
        r.session_type,
    ) + " / "@ + or_unknown(r.desktop) + "\n"@ + "\n"@
}

/// How the extension is doing.
pub open spec fn extension_status(r: Report) -> Seq<char> {
    match r.extension_version {
        Some(v) => if v == r.expected_extension_version {
            "  status:             connected (protocol "@ + text::decimal(v as int) + ")"@
        } else {
            "  status:             VERSION MISMATCH — extension speaks "@ + text::decimal(
                v as int,
            ) + ", this build speaks "@ + text::decimal(r.expected_extension_version as int)
                + ". The two halves are from different releases; reinstall both."@
        },
        None =>
        "  status:             NOT RUNNING — notes will not be repositioned.\n                    Check: gnome-extensions info stickies@hagreli.us\n                    A newly installed extension needs a logout."@,
    }
}

/// The line of the `i`th monitor.
pub open spec fn monitor_line(monitors: Seq<(String, String)>, i: int) -> Seq<char> {
    let label = if i == 0 {
        "  monitors:         "@
    } else {
        "                    "@
    };
    label + "  "@ + monitors[i].0@ + "  "@ + monitors[i].1@ + "\n"@
}

/// The lines of the first `n` monitors.
pub open spec fn monitor_lines(monitors: Seq<(String, String)>, n: int) -> Seq<char>
    decreases n,
{
    if n <= 0 {
        seq![]
    } else {
        monitor_lines(monitors, n - 1) + monitor_line(monitors, n - 1)
    }
}

/// What is said of the extension.
pub open spec fn extension_section(r: Report) -> Seq<char> {
    "Shell extension (window placement, global shortcut)\n"@ + extension_status(r) + "\n"@ + (
    if r.monitors@.len() == 0 {
        "  monitors:           none reported\n"@
    } else {
        monitor_lines(r.monitors@, r.monitors@.len() as int)
    }) + "\n"@
}

/// What is said of the tray.
pub open spec fn tray_section(r: Report) -> Seq<char> {
    "Status icon\n"@ + "  host:               "@ + (if r.tray_host {
        "present"@
    } else {
        "none — the app quits with its last note instead of staying resident"@
    }) + "\n"@ + "\n"@
}

/// What is said of the notes.
pub open spec fn notes_section(r: Report) -> Seq<char> {
    "Notes\n"@ + "  file:               "@ + r.store_path@ + "\n"@ + "  state:              "@
        + r.store_outcome@ + "\n"@ + "  count:              "@ + text::decimal(r.note_count as int)
        + "\n"@ + "  with a position:    "@ + text::decimal(r.notes_with_geometry as int)
        + " of "@ + text::decimal(r.note_count as int) + "\n"@ + (if r.store_read_only {
        "  WRITES DISABLED:    the file is newer than this build understands; changes are not being saved.\n"@
    } else {
        seq![]
    }) + "\n"@
}

/// What it comes to.
pub open spec fn verdict(r: Report) -> Seq<char> {
    "Placement: "@ + (if r.places() {
        "working"@
    } else {
        "unavailable — content, colour and size still persist"@
    }) + "\n"@
}

/// The whole report.
pub open spec fn rendered(r: Report) -> Seq<char> {
    heading(r) + extension_section(r) + tray_section(r) + notes_section(r) + verdict(r)
}

fn append_or_unknown(out: &mut String, text: &Option<String>)
    ensures
        final(out)@ == old(out)@ + or_unknown(*text),
{
    match text {
        Some(s) => out.append(s.as_str()),
        None => out.append("unknown"),
    }
}

impl Report {
    fn render_heading(&self, out: &mut String)
        ensures
            final(out)@ == old(out)@ + heading(*self),
    {
        out.append("Stickies ");
        out.append(self.version.as_str());
        out.append(" (");
        out.append(self.app_id.as_str());
        out.append(")\n");
        out.append("  session:            ");
        append_or_unknown(out, &self.session_type);
        out.append(" / ");
        append_or_unknown(out, &self.desktop);
        out.append("\n");
        out.append("\n");
        assert(out@ =~= old(out)@ + heading(*self));
    }

    fn render_extension(&self, out: &mut String)
        ensures
            final(out)@ == old(out)@ + extension_section(*self),
    {
        out.append("Shell extension (window placement, global shortcut)\n");
        let ghost titled = out@;
        match self.extension_version {
            Some(v) => {
                if v == self.expected_extension_version {
                    out.append("  status:             connected (protocol ");
                    out.append(text::decimal_u64(v as u64).as_str());
                    out.append(")");
                } else {
                    out.append("  status:             VERSION MISMATCH — extension speaks ");
                    out.append(text::decimal_u64(v as u64).as_str());
                    out.append(", this build speaks ");
                    out.append(text::decimal_u64(self.expected_extension_version as u64).as_str());
                    out.append(". The two halves are from different releases; reinstall both.");
                }
            },
            None => out.append(
                "  status:             NOT RUNNING — notes will not be repositioned.\n                    Check: gnome-extensions info stickies@hagreli.us\n                    A newly installed extension needs a logout.",
            ),
        }
        assert(out@ =~= titled + extension_status(*self));
        out.append("\n");
        let ghost before = out@;
        if self.monitors.len() == 0 {
            out.append("  monitors:           none reported\n");
        } else {
            let mut i: usize = 0;
            while i < self.monitors.len()
                invariant
                    i <= self.monitors@.len(),
                    out@ == before + monitor_lines(self.monitors@, i as int),
                decreases self.monitors@.len() - i,
            {
                let ghost so_far = out@;
                if i == 0 {
                    out.append("  monitors:         ");
                } else {
                    out.append("                    ");
                }
                out.append("  ");
                out.append(self.monitors[i].0.as_str());
                out.append("  ");
                out.append(self.monitors[i].1.as_str());
                out.append("\n");
                assert(out@ =~= so_far + monitor_line(self.monitors@, i as int));
                assert(out@ =~= before + monitor_lines(self.monitors@, i + 1));
                i += 1;
            }
        }
        out.append("\n");
        assert(out@ =~= old(out)@ + extension_section(*self));
    }

    fn render_tray(&self, out: &mut String)
        ensures
            final(out)@ == old(out)@ + tray_section(*self),
    {
        out.append("Status icon\n");
        out.append("  host:               ");
        if self.tray_host {
            out.append("present");
        } else {
            out.append("none — the app quits with its last note instead of staying resident");
        }
        out.append("\n");
        out.append("\n");
        assert(out@ =~= old(out)@ + tray_section(*self));
    }

    fn render_notes(&self, out: &mut String)
        ensures
            final(out)@ == old(out)@ + notes_section(*self),
    {
        out.append("Notes\n");
        out.append("  file:               ");
        out.append(self.store_path.as_str());
        out.append("\n");
        out.append("  state:              ");
        out.append(self.store_outcome.as_str());
        out.append("\n");
        out.append("  count:              ");
        out.append(text::decimal_u64(self.note_count as u64).as_str());
        out.append("\n");
        out.append("  with a position:    ");
        out.append(text::decimal_u64(self.notes_with_geometry as u64).as_str());
        out.append(" of ");
        out.append(text::decimal_u64(self.note_count as u64).as_str());
        out.append("\n");
        if self.store_read_only {
            out.append(
                "  WRITES DISABLED:    the file is newer than this build understands; changes are not being saved.\n",
            );
        }
        out.append("\n");
        assert(out@ =~= old(out)@ + notes_section(*self));
    }

    /// The report for reading, with the diagnosis spelled out rather than left
    /// for the reader to infer from the fields.
    pub fn render(&self) -> (r: String)
        ensures
            r@ == rendered(*self),
    {
        let mut out = String::new();
        self.render_heading(&mut out);
        self.render_extension(&mut out);
        self.render_tray(&mut out);
        self.render_notes(&mut out);
        out.append("Placement: ");
        if self.placement_working() {
            out.append("working");
        } else {
            out.append("unavailable — content, colour and size still persist");
        }
        out.append("\n");
        assert(out@ =~= rendered(*self));
        out
    }
}

// ---- panics ----

/// A place in the source.
#[derive(Debug, Clone, Copy)]
pub struct Location<'a> {
    pub file: &'a str,
    pub line: u32,
    pub column: u32,
}

/// Where a panic happened, in words.
pub open spec fn location_text(at: Option<Location<'_>>) -> Seq<char> {
    match at {
        Some(l) => l.file@ + ":"@ + text::decimal(l.line as int) + ":"@ + text::decimal(
            l.column as int,
        ),
        None => "unknown location"@,
    }
}

/// What is written about a panic.
pub open spec fn panic_text(at: Option<Location<'_>>, message: Option<&str>) -> Seq<char> {
    "PANIC at "@ + location_text(at) + ": "@ + (match message {
        Some(m) => m@,
        None => "<non-string panic>"@,
    })
        + "\nIf this happened inside a signal or D-Bus callback the process is about to abort rather than unwind. Re-run with RUST_BACKTRACE=1 for frames."@
}

/// What to write about a panic, before the process dies.
pub fn describe_panic(at: Option<Location<'_>>, message: Option<&str>) -> (r: String)
    ensures
        r@ == panic_text(at, message),
{
    let mut out = "PANIC at ".to_owned();
    match at {
        Some(l) => {
            out.append(l.file);
            out.append(":");
            out.append(text::decimal_u64(l.line as u64).as_str());
            out.append(":");
            out.append(text::decimal_u64(l.column as u64).as_str());
        },
        None => out.append("unknown location"),
    }
    out.append(": ");
    match message {
        Some(m) => out.append(m),
        None => out.append("<non-string panic>"),
    }
    out.append(
        "\nIf this happened inside a signal or D-Bus callback the process is about to abort rather than unwind. Re-run with RUST_BACKTRACE=1 for frames.",
    );
    assert(out@ =~= panic_text(at, message));
    out
}

} // verus!
