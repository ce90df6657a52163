use std::path::PathBuf;
use stickies::diagnostics::{
    describe_monitor, describe_outcome, describe_panic, describe_recovery, Location, Report,
    Surroundings,
};
use stickies::model::geometry::Monitor;
use stickies::model::note::{IdSource, Note, Palette};
use stickies::model::store::{Contents, LoadOutcome, Store};

fn report() -> Report {
    Report {
        version: "0.1.0".into(),
        app_id: "us.hagreli.Stickies".into(),
        session_type: Some("wayland".into()),
        desktop: Some("ubuntu:GNOME".into()),
        extension_version: Some(1),
        expected_extension_version: 1,
        monitors: vec![("DP-1".into(), "5048x1403+72+37".into())],
        tray_host: true,
        store_path: "/home/u/.local/share/stickies/notes.json".into(),
        store_outcome: "loaded".into(),
        note_count: 4,
        notes_with_geometry: 4,
        store_read_only: false,
    }
}

#[test]
fn a_copied_report_reads_the_same() {
    let r = report();
    assert_eq!(r.clone(), r);
    assert_eq!(r.clone().render(), r.render());
}

#[test]
fn a_healthy_system_reads_as_working() {
    let r = report();
    assert!(r.placement_working());
    let text = r.render();
    assert!(text.contains("connected (protocol 1)"));
    assert!(text.contains("Placement: working"));
    assert!(text.contains("DP-1"));
}

#[test]
fn a_missing_extension_says_what_to_do_about_it() {
    let mut r = report();
    r.extension_version = None;
    r.monitors.clear();

    assert!(!r.placement_working());
    let text = r.render();
    assert!(text.contains("NOT RUNNING"));
    // The two things that actually resolve it.
    assert!(text.contains("gnome-extensions info"));
    assert!(text.contains("logout"));
    assert!(
        text.contains("content, colour and size still persist"),
        "must say what still works, so it does not read as total failure"
    );
}

#[test]
fn a_version_mismatch_is_called_out_separately_from_absence() {
    // Two halves from different releases fail differently from a missing
    // extension, and the fix is different too.
    let mut r = report();
    r.extension_version = Some(99);

    assert!(!r.placement_working());
    let text = r.render();
    assert!(text.contains("VERSION MISMATCH"));
    assert!(text.contains("extension speaks 99"));
    assert!(text.contains("reinstall both"));
    assert!(!text.contains("NOT RUNNING"));
}

#[test]
fn an_extension_reporting_no_monitors_is_not_working() {
    // The exact failure hit in practice: the extension was ACTIVE and
    // answered Version, but ListMonitors returned nothing usable.
    let mut r = report();
    r.monitors.clear();
    assert!(!r.placement_working(), "answering Version is not enough");
    assert!(r.render().contains("none reported"));
}

#[test]
fn a_corrupt_store_is_reported_with_the_backup_path() {
    let mut r = report();
    r.store_outcome =
        "RECOVERED: expected value at line 1 (previous file at /tmp/n.corrupt-1)".into();
    let text = r.render();
    assert!(text.contains("RECOVERED"));
    assert!(
        text.contains("/tmp/n.corrupt-1"),
        "the rescue path must be printed"
    );
}

#[test]
fn a_read_only_store_is_flagged_loudly() {
    let mut r = report();
    r.store_read_only = true;
    assert!(r.render().contains("WRITES DISABLED"));
}

#[test]
fn a_missing_tray_host_explains_the_lifecycle_difference() {
    let mut r = report();
    r.tray_host = false;
    assert!(r.render().contains("quits with its last note"));
}

fn surroundings() -> Surroundings {
    Surroundings {
        version: "0.1.0".into(),
        session_type: None,
        desktop: Some("GNOME".into()),
    }
}

#[test]
fn gather_reads_the_real_store_without_needing_a_display() {
    // Also the guard that the report works with no session bus at all.
    let path = Store::default_path(Some(PathBuf::from("/tmp/scratch")), None);
    let opened = Store::open(path, Contents::Missing);
    let r = Report::gather(
        None,
        Vec::new(),
        false,
        surroundings(),
        &opened.store,
        &opened.outcome,
    );
    assert_eq!(r.note_count, 0);
    assert!(r.store_path.ends_with("stickies/notes.json"));
    assert!(r.render().contains("no file yet (first run)"));
    assert_eq!(r.app_id, "us.hagreli.Stickies");
    assert_eq!(r.expected_extension_version, 1);
    assert!(!r.store_read_only);
}

#[test]
fn gather_counts_the_notes_that_have_a_position() {
    let mut ids = IdSource::new();
    let mut store = Store::new(PathBuf::from("/data/notes.json"));
    for monitor in [Some("DP-1".to_string()), None, Some("eDP-1".to_string())] {
        let mut note = Note::new(Palette::Blue, &mut ids);
        note.geometry.monitor = monitor;
        store.upsert(note);
    }
    let outcome = LoadOutcome::Recovered {
        backup: PathBuf::from("/data/notes.json.corrupt-5"),
        reason: "expected value".into(),
    };
    let r = Report::gather(Some(1), Vec::new(), true, surroundings(), &store, &outcome);
    assert_eq!((r.note_count, r.notes_with_geometry), (3, 2));
    assert_eq!(r.store_path, "/data/notes.json");
    assert_eq!(
        r.store_outcome,
        "RECOVERED: expected value (previous file at /data/notes.json.corrupt-5)"
    );
    assert_eq!(describe_outcome(&LoadOutcome::Loaded), "loaded");
}

#[test]
fn monitors_are_written_as_size_and_position() {
    let described = describe_monitor(Monitor {
        connector: "DP-1".into(),
        display_name: "Dell".into(),
        primary: true,
        x: -72,
        y: 37,
        width: 5048,
        height: 1403,
    });
    assert_eq!(described, ("DP-1".to_string(), "5048x1403+-72+37".to_string()));
}

#[test]
fn a_healthy_report_reads_line_by_line() {
    let mut r = report();
    r.monitors.push(("eDP-1".into(), "1920x1043+0+1440".into()));
    r.notes_with_geometry = 3;
    let expected = [
        "Stickies 0.1.0 (us.hagreli.Stickies)",
        "  session:            wayland / ubuntu:GNOME",
        "",
        "Shell extension (window placement, global shortcut)",
        "  status:             connected (protocol 1)",
        "  monitors:           DP-1  5048x1403+72+37",
        "                      eDP-1  1920x1043+0+1440",
        "",
        "Status icon",
        "  host:               present",
        "",
        "Notes",
        "  file:               /home/u/.local/share/stickies/notes.json",
        "  state:              loaded",
        "  count:              4",
        "  with a position:    3 of 4",
        "",
        "Placement: working",
        "",
    ]
    .join("\n");
    assert_eq!(r.render(), expected);
}

#[test]
fn a_sorry_report_reads_line_by_line() {
    let mut r = report();
    r.session_type = None;
    r.desktop = None;
    r.extension_version = None;
    r.monitors.clear();
    r.tray_host = false;
    r.store_read_only = true;
    let expected = [
        "Stickies 0.1.0 (us.hagreli.Stickies)",
        "  session:            unknown / unknown",
        "",
        "Shell extension (window placement, global shortcut)",
        "  status:             NOT RUNNING — notes will not be repositioned.",
        "                    Check: gnome-extensions info stickies@hagreli.us",
        "                    A newly installed extension needs a logout.",
        "  monitors:           none reported",
        "",
        "Status icon",
        "  host:               none — the app quits with its last note instead of staying resident",
        "",
        "Notes",
        "  file:               /home/u/.local/share/stickies/notes.json",
        "  state:              loaded",
        "  count:              4",
        "  with a position:    4 of 4",
        "  WRITES DISABLED:    the file is newer than this build understands; changes are not being saved.",
        "",
        "Placement: unavailable — content, colour and size still persist",
        "",
    ]
    .join("\n");
    assert_eq!(r.render(), expected);

    r.extension_version = Some(99);
    assert!(r.render().contains(
        "  status:             VERSION MISMATCH — extension speaks 99, this build speaks 1. \
         The two halves are from different releases; reinstall both.\n"
    ));
}

#[test]
fn a_panic_says_where_and_what() {
    let at = Some(Location {
        file: "src/lib.rs",
        line: 12,
        column: 5,
    });
    assert_eq!(
        describe_panic(at, Some("boom")),
        "PANIC at src/lib.rs:12:5: boom\n\
         If this happened inside a signal or D-Bus callback the process is \
         about to abort rather than unwind. Re-run with \
         RUST_BACKTRACE=1 for frames."
    );
    assert!(describe_panic(None, None)
        .starts_with("PANIC at unknown location: <non-string panic>\nIf this"));
}

#[test]
fn a_recovery_says_why_and_where_the_file_is() {
    assert_eq!(
        describe_recovery("bad", "/tmp/x"),
        "RECOVERED: bad (previous file at /tmp/x)"
    );
}
