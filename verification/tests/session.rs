use std::path::PathBuf;
use stickies::model::geometry::{Monitor, Placement};
use stickies::model::note::{IdSource, Note, NoteGeometry, Palette};
use stickies::model::store::{Contents, LoadOutcome, SaveStep, Store, StoreError};
use stickies::session::{
    action_name, command_line, describe_unread, extension_status, load_warning, Command, Opening, OpenWindow,
    Options, PlaceJob, PlaceStep, Restored, SaveDecision, Session, PLACE_ATTEMPTS,
};
use stickies::tray::MenuEntry;

fn note(id: &str) -> Note {
    let mut note = Note::new(Palette::Yellow, &mut IdSource::new());
    note.id = id.into();
    note.created = 1;
    note.modified = 1;
    note
}

fn session(notes: Vec<Note>) -> Session {
    let mut store = Store::new(PathBuf::from("/data/notes.json"));
    for note in notes {
        store.upsert(note);
    }
    Session::new(store)
}

fn placement(connector: &str, x: i32, y: i32) -> Placement {
    Placement {
        connector: connector.into(),
        x,
        y,
        width: 300,
        height: 320,
    }
}

fn monitor(connector: &str) -> Monitor {
    Monitor {
        connector: connector.into(),
        display_name: "A monitor".into(),
        primary: true,
        x: 0,
        y: 0,
        width: 1920,
        height: 1080,
    }
}

#[test]
fn editing_a_note_makes_the_store_dirty_once() {
    let mut s = session(vec![note("a"), note("b")]);
    assert!(!s.dirty);
    assert!(!s.body_changed_at("a", "".into(), 5), "the same text is no edit");
    assert!(!s.body_changed_at("missing", "text".into(), 5));
    assert!(!s.dirty);
    assert!(s.body_changed_at("a", "text".into(), 5));
    assert!(s.dirty);
    let a = s.store.get("a").unwrap();
    assert_eq!((a.body.as_str(), a.modified, a.created), ("text", 5, 1));
    assert_eq!(s.store.get("b"), Some(&note("b")));

    assert!(s.body_changed("b", "now".into()));
    assert!(s.store.get("b").unwrap().modified > 1_600_000_000);
}

#[test]
fn picking_a_colour_is_recorded() {
    let mut s = session(vec![note("a")]);
    assert!(!s.palette_changed_at("a", "chartreuse", 9));
    assert!(!s.dirty, "a colour that does not exist is ignored");
    assert!(s.palette_changed_at("a", "purple", 9));
    assert!(s.dirty);
    let a = s.store.get("a").unwrap();
    assert_eq!((a.palette, a.modified), (Palette::Purple, 9));
    assert!(s.palette_changed("a", "blue"));
    assert_eq!(s.store.get("a").unwrap().palette, Palette::Blue);
    assert!(s.palette_changed_at("missing", "blue", 9));
}

#[test]
fn pinning_is_recorded_without_counting_as_an_edit() {
    let mut s = session(vec![note("a")]);
    s.pin_changed("a", true);
    assert!(s.dirty);
    let a = s.store.get("a").unwrap();
    assert!(a.pinned);
    assert_eq!(a.modified, 1);
}

#[test]
fn a_fresh_store_gets_one_note() {
    let mut s = session(vec![]);
    let Restored::Fresh(id) = s.restore_session() else {
        panic!("expected a fresh note");
    };
    assert_eq!(s.store.len(), 1);
    let note = s.store.get(&id).expect("it is in the store");
    assert!(note.visible);
    assert_eq!(note.body, "");
    assert!(s.dirty);
    assert_eq!(s.ids.next, 1);
    assert!(id.ends_with("-0") && id != "0-0", "the clock was read: {id}");
    assert!(!s.quitting, "nothing else changes");
    let next = s.new_note();
    assert!(next.ends_with("-1"), "and identifiers go on: {next}");
}

#[test]
fn a_start_brings_back_what_was_on_screen() {
    let mut away = note("b");
    away.visible = false;
    away.modified = 100;
    let mut s = session(vec![note("a"), away, note("c")]);
    assert_eq!(
        s.restore_session(),
        Restored::Notes(vec!["a".into(), "c".into()])
    );
    assert!(!s.dirty, "they were on screen already");
    assert!(!s.store.get("b").unwrap().visible);
}

#[test]
fn a_start_with_everything_put_away_opens_the_latest_note_only() {
    let away = |id: &str, modified: i64| {
        let mut n = note(id);
        n.visible = false;
        n.modified = modified;
        n
    };
    let mut s = session(vec![away("a", 1000), away("b", 1003), away("c", 1003), away("d", 7)]);
    assert_eq!(s.restore_session(), Restored::Notes(vec!["c".into()]));
    let visible: Vec<&str> = s
        .store
        .notes()
        .iter()
        .filter(|n| n.visible)
        .map(|n| n.id.as_str())
        .collect();
    assert_eq!(visible, ["c"], "the later of two that are equally recent");
    assert!(s.dirty);
    assert_eq!(s.store.len(), 4, "nothing was created or deleted");
}

#[test]
fn show_all_shows_all() {
    let mut away = note("b");
    away.visible = false;
    let mut s = session(vec![note("a"), away]);
    assert_eq!(s.show_all(), ["a", "b"]);
    assert!(s.store.notes().iter().all(|n| n.visible));
    assert!(s.dirty);
}

#[test]
fn putting_away_keeps_the_note_and_remembers_where_it_was() {
    let mut s = session(vec![note("a")]);
    s.put_away("a", Some(&placement("DP-1", 40, 50)));
    let a = s.store.get("a").expect("it is kept");
    assert!(!a.visible);
    assert_eq!(a.geometry.monitor.as_deref(), Some("DP-1"));
    assert_eq!((a.geometry.x, a.geometry.y), (40, 50));
    assert!(s.dirty);

    let mut s = session(vec![note("a")]);
    s.put_away("a", None);
    assert!(!s.store.get("a").unwrap().visible);
    assert_eq!(s.store.get("a").unwrap().geometry, NoteGeometry::default());
}

#[test]
fn new_notes_take_the_least_used_colour() {
    let mut s = session(vec![note("a")]);
    let id = s.new_note();
    assert_eq!(s.store.get(&id).unwrap().palette, Palette::Green);
    let second = s.new_note();
    assert_ne!(id, second);
    assert_eq!(s.store.get(&second).unwrap().palette, Palette::Blue);
    assert_eq!(s.add_note("given".into(), 44), "given");
    let given = s.store.get("given").unwrap();
    assert_eq!((given.palette, given.created, given.modified), (Palette::Purple, 44, 44));
}

#[test]
fn a_copy_has_the_text_and_colour_but_not_the_place() {
    let mut source = note("a");
    source.body = "copy me".into();
    source.palette = Palette::Pink;
    source.pinned = true;
    source.visible = false;
    source.geometry = NoteGeometry {
        monitor: Some("DP-1".into()),
        x: 5,
        y: 6,
        width: 400,
        height: 500,
    };
    let mut s = session(vec![source]);
    assert_eq!(s.duplicate_note("missing"), None);
    assert!(!s.dirty);
    assert_eq!(s.ids.next, 0);

    let id = s.duplicate_note("a").unwrap();
    let copy = s.store.get(&id).unwrap();
    assert_eq!(copy.body, "copy me");
    assert_eq!(copy.palette, Palette::Pink);
    assert!(!copy.pinned);
    assert!(copy.visible);
    assert_eq!(copy.geometry.monitor.as_deref(), Some("DP-1"));
    assert_eq!((copy.geometry.x, copy.geometry.y), (0, 0));
    assert_eq!((copy.geometry.width, copy.geometry.height), (300, 320));
    assert!(s.dirty);
    assert_eq!(s.store.len(), 2);
}

#[test]
fn deleting_hands_the_note_back_for_the_record() {
    let mut s = session(vec![note("a"), note("b")]);
    assert_eq!(s.delete_note("a"), Some(note("a")));
    assert!(s.dirty);
    assert_eq!(s.store.len(), 1);
    assert_eq!(s.delete_note("a"), None);
}

#[test]
fn dragging_a_note_is_learned_from_the_compositor() {
    let mut s = session(vec![note("a"), note("b")]);
    let windows = [
        OpenWindow { path: "/w/1".into(), note: "a".into() },
        OpenWindow { path: "/w/2".into(), note: "b".into() },
    ];
    s.sync_geometry(
        &windows,
        &vec![
            ("/w/2".into(), placement("DP-1", 10, 20)),
            ("/w/9".into(), placement("DP-1", 1, 1)),
        ],
    );
    assert!(s.dirty);
    assert_eq!(s.store.get("a"), Some(&note("a")));
    let b = s.store.get("b").unwrap();
    assert_eq!(b.geometry.monitor.as_deref(), Some("DP-1"));
    assert_eq!((b.geometry.x, b.geometry.y), (10, 20));
    assert_eq!(b.modified, 1, "moving is not editing");

    s.dirty = false;
    s.record_geometry("b", &placement("DP-1", 10, 20));
    assert!(!s.dirty, "nothing moved");
    s.record_geometry("b", &placement("eDP-1", 10, 20));
    assert!(s.dirty);
}

#[test]
fn an_extension_that_does_not_answer_leaves_the_monitors_known() {
    let mut s = session(vec![]);
    assert!(s.refresh_monitors(vec![monitor("DP-1")]));
    assert!(!s.refresh_monitors(vec![]));
    assert_eq!(s.monitors, vec![monitor("DP-1")]);
}

#[test]
fn placing_is_tried_a_dozen_times() {
    let geometry = NoteGeometry {
        monitor: None,
        x: 5,
        y: 6,
        width: 300,
        height: 320,
    };
    let path = || Some("/w/1".to_string());
    assert!(PlaceJob::start(None, &geometry, false, &[monitor("DP-1")]).is_none());
    assert!(PlaceJob::start(path(), &geometry, false, &[]).is_none());
    let mut job = PlaceJob::start(path(), &geometry, false, &[monitor("DP-1")]).unwrap();
    assert_eq!(job.placement, placement("DP-1", 5, 6));
    for _ in 1..PLACE_ATTEMPTS {
        assert_eq!(job.answered(false), PlaceStep::Retry);
    }
    assert_eq!(job.answered(false), PlaceStep::GiveUp);
    assert_eq!(job.failures, 12);
    assert_eq!(
        job.give_up_text(),
        "gave up positioning /w/1 after 12 attempts; the note is where the compositor put it"
    );

    let mut job = PlaceJob::start(path(), &geometry, false, &[monitor("DP-1")]).unwrap();
    assert_eq!(job.answered(false), PlaceStep::Retry);
    assert_eq!(job.answered(true), PlaceStep::Done);
    let mut job = PlaceJob::start(path(), &geometry, true, &[monitor("DP-1")]).unwrap();
    assert_eq!(job.answered(true), PlaceStep::Pin);
}

#[test]
fn only_a_dirty_store_is_saved() {
    let mut s = session(vec![note("a")]);
    assert!(matches!(s.save_now(), SaveDecision::Clean));
    s.pin_changed("a", true);
    let SaveDecision::Write(plan) = s.save_now() else {
        panic!("expected a save");
    };
    assert_eq!(plan.document.notes.len(), 1);
    assert!(matches!(&plan.steps[0], SaveStep::CreateDirectory(_)));
    let news = s.save_finished(Ok(()));
    assert!(!s.dirty);
    assert_eq!((news.warning, news.tell_windows), (None, false));
}

#[test]
fn a_failing_save_is_told_once_and_tried_again() {
    let mut s = session(vec![note("a")]);
    s.dirty = true;
    let full = || Err(StoreError::Io("No space left on device".into()));
    let news = s.save_finished(full());
    assert_eq!(
        news.warning.as_deref(),
        Some("could not save notes: No space left on device")
    );
    assert!(news.tell_windows);
    assert!(s.dirty, "so the next tick tries again");
    assert_eq!(s.save_error.as_deref(), Some("No space left on device"));

    let news = s.save_finished(full());
    assert_eq!((news.warning, news.tell_windows), (None, false));

    let news = s.save_finished(Err(StoreError::Io("Permission denied".into())));
    assert!(news.warning.is_some() && news.tell_windows);

    let news = s.save_finished(Ok(()));
    assert_eq!((news.warning, news.tell_windows), (None, true));
    assert_eq!(s.save_error, None);
    assert!(!s.dirty);
}

#[test]
fn a_store_that_must_not_be_written_refuses() {
    let opened = Store::open(
        PathBuf::from("/data/notes.json"),
        Contents::Unreadable("Permission denied".into()),
    );
    let mut s = Session::new(opened.store);
    s.new_note();
    let SaveDecision::Refused(err) = s.save_now() else {
        panic!("expected a refusal");
    };
    assert_eq!(err, StoreError::UnsupportedVersion(2));
    let news = s.save_finished(Err(err));
    assert!(news.tell_windows);
    assert!(s.dirty);
}

#[test]
fn a_tray_icon_keeps_the_app_alive() {
    let mut s = session(vec![]);
    assert!(s.may_quit(false));
    assert!(!s.may_quit(true));
    assert!(s.should_quit(false));
    assert!(!s.should_quit(true));
    s.quitting = true;
    assert!(!s.may_quit(false));
    assert!(!s.should_quit(false));
}

#[test]
fn opening_a_note_makes_a_window_on_first_use() {
    let s = session(vec![note("a")]);
    assert_eq!(s.open_note("a", true), Opening::Present);
    assert_eq!(s.open_note("a", false), Opening::Build(note("a")));
    assert_eq!(s.open_note("missing", false), Opening::Missing);
    assert_eq!(s.geometry_of("a"), Some(NoteGeometry::default()));
    assert_eq!(s.geometry_of("missing"), None);
}

#[test]
fn the_tray_menu_tracks_the_notes() {
    let labels = |entries: &[MenuEntry]| -> Vec<String> {
        entries
            .iter()
            .map(|e| match e {
                MenuEntry::Item { label, enabled, .. } => format!("{label}:{enabled}"),
                MenuEntry::Info { label } => format!("({label})"),
                MenuEntry::Separator => "-".to_string(),
            })
            .collect()
    };
    assert_eq!(
        labels(&session(vec![]).tray_entries(0)),
        [
            "New Note:true",
            "-",
            "(No notes)",
            "Show All Notes:false",
            "Hide All Notes:false",
            "-",
            "Keyboard Shortcuts:true",
            "About Stickies:true",
            "Quit:true",
        ]
    );
    let one = labels(&session(vec![note("a")]).tray_entries(1));
    assert_eq!(&one[2..5], ["(1 note)", "Show All Notes:false", "Hide All Notes:true"]);
    let some = labels(&session(vec![note("a"), note("b"), note("c")]).tray_entries(1));
    assert_eq!(
        &some[2..5],
        ["(3 notes, 1 on screen)", "Show All Notes:true", "Hide All Notes:true"]
    );
    assert_eq!(
        session(vec![]).tray_entries(0)[8],
        MenuEntry::item("Quit", "app.quit")
    );
}

#[test]
fn detailed_action_names_lose_their_prefix() {
    assert_eq!(action_name("app.new-note"), "new-note");
    assert_eq!(action_name("note.hide"), "note.hide");
    assert_eq!(action_name("app."), "");
    assert_eq!(action_name("ap"), "ap");
    assert_eq!(action_name("app.app.x"), "app.x");
}

#[test]
fn the_command_line_is_carried_out_in_order() {
    let options = |diagnose, new_note, show_all| Options { diagnose, new_note, show_all };
    assert_eq!(command_line(options(false, false, false)), [Command::Activate]);
    assert_eq!(command_line(options(false, true, false)), [Command::NewNote]);
    assert_eq!(command_line(options(false, false, true)), [Command::ShowAll]);
    assert_eq!(
        command_line(options(false, true, true)),
        [Command::NewNote, Command::ShowAll]
    );
    assert_eq!(command_line(options(true, true, true)), [Command::Diagnose]);
}

#[test]
fn a_load_that_went_wrong_is_worth_a_line() {
    assert_eq!(load_warning(&LoadOutcome::Loaded), None);
    assert_eq!(load_warning(&LoadOutcome::Fresh), None);
    let outcome = LoadOutcome::Recovered {
        backup: PathBuf::from("/data/n.corrupt-1"),
        reason: "bad".into(),
    };
    assert_eq!(
        load_warning(&outcome).as_deref(),
        Some("could not read notes (bad); previous file kept at /data/n.corrupt-1")
    );
    assert_eq!(
        describe_unread("bad", "/x"),
        "could not read notes (bad); previous file kept at /x"
    );
    assert_eq!(extension_status(true), "Shell extension: connected");
    assert_eq!(
        extension_status(false),
        "Shell extension: not detected — notes will not be repositioned"
    );
}
