//! What every report says.

use crate::diagnostics;
use crate::diagnostics::{Location, Report};
use crate::model::geometry::Monitor;
use crate::model::note::Note;
use crate::model::store::LoadOutcome;
use crate::paths;
use crate::text;
use vstd::prelude::*;

verus! {

/// Placing works exactly when the extension speaks the version that is expected
/// of it and reports a monitor.
pub proof fn placing_takes_an_extension_and_a_monitor(r: Report)
    ensures
        r.places() <==> r.extension_version is Some && r.extension_version->0
            == r.expected_extension_version && r.monitors@.len() > 0,
{
}

/// A report says who is reporting and where; then how the extension is, whether
/// anything shows tray icons, and how the notes are; and ends with whether
/// placing works.
pub proof fn reports_say_everything_in_order(r: Report)
    ensures
        diagnostics::rendered(r) == "Stickies "@ + r.version@ + " ("@ + r.app_id@ + ")\n"@
            + "  session:            "@ + (match r.session_type {
            Some(s) => s@,
            None => "unknown"@,
        }) + " / "@ + (match r.desktop {
            Some(s) => s@,
            None => "unknown"@,
        }) + "\n\n"@ + diagnostics::extension_section(r) + diagnostics::tray_section(r)
            + diagnostics::notes_section(r) + (if r.places() {
            "Placement: working\n"@
        } else {
            "Placement: unavailable — content, colour and size still persist\n"@
        }),
{
    reveal_strlit("\n");
    reveal_strlit("\n\n");
    reveal_strlit("Placement: ");
    reveal_strlit("working");
    reveal_strlit("unavailable — content, colour and size still persist");
    reveal_strlit("Placement: working\n");
    reveal_strlit("Placement: unavailable — content, colour and size still persist\n");
    assert("\n\n"@ =~= "\n"@ + "\n"@);
    assert("Placement: working\n"@ =~= "Placement: "@ + "working"@ + "\n"@);
    assert("Placement: unavailable — content, colour and size still persist\n"@
        =~= "Placement: "@ + "unavailable — content, colour and size still persist"@ + "\n"@);
    assert(diagnostics::rendered(r) =~= "Stickies "@ + r.version@ + " ("@ + r.app_id@ + ")\n"@
        + "  session:            "@ + (match r.session_type {
        Some(s) => s@,
        None => "unknown"@,
    }) + " / "@ + (match r.desktop {
        Some(s) => s@,
        None => "unknown"@,
    }) + "\n\n"@ + diagnostics::extension_section(r) + diagnostics::tray_section(r)
        + diagnostics::notes_section(r) + diagnostics::verdict(r));
}

/// Of the extension it says whether it runs and, if so, which version it
/// speaks; and lists every monitor.
pub proof fn reports_say_how_the_extension_is(r: Report)
    ensures
        ({
            let status = match r.extension_version {
                Some(v) => if v == r.expected_extension_version {
                    "  status:             connected (protocol "@ + text::numeral(v as int, 10)
                        + ")"@
                } else {
                    "  status:             VERSION MISMATCH — extension speaks "@ + text::numeral(
                        v as int,
                        10,
                    ) + ", this build speaks "@ + text::numeral(
                        r.expected_extension_version as int,
                        10,
                    ) + ". The two halves are from different releases; reinstall both."@
                },
                None =>
                "  status:             NOT RUNNING — notes will not be repositioned.\n                    Check: gnome-extensions info stickies@hagreli.us\n                    A newly installed extension needs a logout."@,
            };
            let monitors = if r.monitors@.len() == 0 {
                "  monitors:           none reported\n"@
            } else {
                diagnostics::monitor_lines(r.monitors@, r.monitors@.len() as int)
            };
            diagnostics::extension_section(r)
                == "Shell extension (window placement, global shortcut)\n"@ + status + "\n"@
                + monitors + "\n"@
        }),
{
}

/// Every monitor has a line of its own, with its connector and its work area,
/// and the first says what the lines are.
pub proof fn every_monitor_has_a_line(monitors: Seq<(String, String)>, n: int)
    requires
        0 <= n < monitors.len(),
    ensures
        diagnostics::monitor_lines(monitors, 0).len() == 0,
        diagnostics::monitor_lines(monitors, n + 1) == diagnostics::monitor_lines(monitors, n) + (
        if n == 0 {
            "  monitors:         "@
        } else {
            "                    "@
        }) + "  "@ + monitors[n].0@ + "  "@ + monitors[n].1@ + "\n"@,
{
    assert(diagnostics::monitor_lines(monitors, n + 1) =~= diagnostics::monitor_lines(monitors, n)
        + (if n == 0 {
        "  monitors:         "@
    } else {
        "                    "@
    }) + "  "@ + monitors[n].0@ + "  "@ + monitors[n].1@ + "\n"@);
}

/// Of the tray it says whether anything shows icons.
pub proof fn reports_say_whether_icons_show(r: Report)
    ensures
        r.tray_host ==> diagnostics::tray_section(r) == "Status icon\n"@
            + "  host:               "@ + "present"@ + "\n"@ + "\n"@,
        !r.tray_host ==> diagnostics::tray_section(r) == "Status icon\n"@
            + "  host:               "@
            + "none — the app quits with its last note instead of staying resident"@ + "\n"@
            + "\n"@,
{
}

/// Of the notes it says where they are, how they were read, how many there are
/// and how many of them have a place, and that they cannot be saved if so.
pub proof fn reports_say_how_the_notes_are(r: Report)
    ensures
        diagnostics::notes_section(r) == "Notes\n"@ + "  file:               "@ + r.store_path@
            + "\n"@ + "  state:              "@ + r.store_outcome@ + "\n"@
            + "  count:              "@ + text::numeral(r.note_count as int, 10) + "\n"@
            + "  with a position:    "@ + text::numeral(r.notes_with_geometry as int, 10) + " of "@
            + text::numeral(r.note_count as int, 10) + "\n"@ + (if r.store_read_only {
            "  WRITES DISABLED:    the file is newer than this build understands; changes are not being saved.\n"@
        } else {
            seq![]
        }) + "\n"@,
{
}

/// A work area is written as its size and its place.
pub proof fn work_areas_are_written_out(m: Monitor)
    ensures
        diagnostics::area_text(m) == text::decimal(m.width as int) + "x"@ + text::decimal(
            m.height as int,
        ) + "+"@ + text::decimal(m.x as int) + "+"@ + text::decimal(m.y as int),
{
}

/// A note counts as placed once it was on a monitor.
pub proof fn placed_notes_are_counted(notes: Seq<Note>, note: Note)
    ensures
        diagnostics::positioned(seq![]) == 0,
        diagnostics::positioned(notes.push(note)) - diagnostics::positioned(notes)
            == if note.geometry.monitor is Some {
            1int
        } else {
            0
        },
{
    assert(notes.push(note).drop_last() =~= notes);
}

/// How the notes were read is said in words, with the reason and the place of
/// the file if it could not be used.
pub proof fn outcomes_are_said_in_words(outcome: LoadOutcome)
    ensures
        match outcome {
            LoadOutcome::Loaded => diagnostics::outcome_text(outcome) == "loaded"@,
            LoadOutcome::Fresh => diagnostics::outcome_text(outcome)
                == "no file yet (first run)"@,
            LoadOutcome::Recovered { backup, reason } => diagnostics::outcome_text(outcome)
                == "RECOVERED: "@ + reason@ + " (previous file at "@ + paths::shown(
                paths::path_bytes(backup),
            ) + ")"@,
        },
{
}

/// What is written of a panic says where it was and what it said.
pub proof fn panics_say_where_and_what(at: Option<Location<'_>>, message: Option<&str>)
    ensures
        diagnostics::panic_text(at, message) == "PANIC at "@ + (match at {
            Some(l) => l.file@ + ":"@ + text::numeral(l.line as int, 10) + ":"@ + text::numeral(
                l.column as int,
                10,
            ),
            None => "unknown location"@,
        }) + ": "@ + (match message {
            Some(m) => m@,
            None => "<non-string panic>"@,
        })
            + "\nIf this happened inside a signal or D-Bus callback the process is about to abort rather than unwind. Re-run with RUST_BACKTRACE=1 for frames."@,
{
}

} // verus!
