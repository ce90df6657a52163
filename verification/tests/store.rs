use std::path::{Path, PathBuf};
use stickies::model::note::{Note, NoteGeometry, Palette};
use stickies::model::store::{
    backup_name, backup_path, backup_path_at, backup_suffix, data_directory, plan_steps, Contents,
    Document, LoadOutcome, SaveStep, Store, StoreError, SCHEMA_VERSION,
};

fn sample(id: &str) -> Note {
    Note {
        id: id.into(),
        body: format!("body of {id}"),
        palette: Palette::Blue,
        geometry: NoteGeometry {
            monitor: Some("DP-1".into()),
            x: 100,
            y: 200,
            width: 320,
            height: 340,
        },
        visible: true,
        pinned: false,
        created: 1,
        modified: 2,
    }
}

fn at(path: &str) -> PathBuf {
    PathBuf::from(path)
}

fn document(notes: Vec<Note>) -> Contents {
    Contents::Document(Document {
        version: SCHEMA_VERSION,
        notes,
    })
}

#[test]
fn opening_a_missing_file_is_first_run_not_an_error() {
    let opened = Store::open(at("/data/notes.json"), Contents::Missing);
    assert_eq!(opened.outcome, LoadOutcome::Fresh);
    assert!(opened.store.is_empty());
    assert!(!opened.store.is_read_only());
    assert_eq!(opened.set_aside, None);
    assert_eq!(opened.store.path(), &at("/data/notes.json"));
}

#[test]
fn notes_survive_a_save_and_reload() {
    let path = at("/data/nested/notes.json");

    let mut store = Store::new(path.clone());
    store.upsert(sample("a"));
    store.upsert(sample("b"));
    let plan = store.save().expect("save");

    let reloaded = Store::open(path, Contents::Document(plan.document));
    assert_eq!(reloaded.outcome, LoadOutcome::Loaded);
    let reloaded = reloaded.store;
    assert_eq!(reloaded.len(), 2);
    assert_eq!(reloaded.get("a"), Some(&sample("a")));
    assert_eq!(
        reloaded.get("b").unwrap().geometry.monitor.as_deref(),
        Some("DP-1"),
        "monitor identity round-trips"
    );
}

#[test]
fn save_creates_missing_parent_directories() {
    let plan = Store::new(at("/data/a/b/c/notes.json")).save().expect("save");
    assert!(matches!(&plan.steps[0], SaveStep::CreateDirectory(dir) if dir == Path::new("/data/a/b/c")));
}

#[test]
fn save_leaves_no_temporary_file_behind() {
    let mut store = Store::new(at("/data/notes.json"));
    store.upsert(sample("a"));
    let plan = store.save().expect("save");
    assert_eq!(plan.steps.len(), 3);
    let SaveStep::WriteTemporary(written) = &plan.steps[1] else {
        panic!("expected a write, got {:?}", plan.steps[1]);
    };
    assert_eq!(written, Path::new("/data/notes.json.tmp"));
    let SaveStep::Replace(from, to) = &plan.steps[2] else {
        panic!("expected a replacement, got {:?}", plan.steps[2]);
    };
    assert_eq!(from, written, "the temporary file is moved away");
    assert_eq!(to, Path::new("/data/notes.json"));
}

#[test]
fn upsert_replaces_rather_than_duplicates() {
    let mut store = Store::new(at("/nonexistent/notes.json"));
    store.upsert(sample("a"));
    let mut updated = sample("a");
    updated.body = "rewritten".into();
    store.upsert(updated);

    assert_eq!(store.len(), 1);
    assert_eq!(store.get("a").unwrap().body, "rewritten");
}

#[test]
fn remove_returns_the_note_so_it_can_be_undone() {
    let mut store = Store::new(at("/nonexistent/notes.json"));
    store.upsert(sample("a"));
    let removed = store.remove("a").expect("removed");
    assert_eq!(removed.id, "a");
    assert!(store.is_empty());
    assert_eq!(store.remove("a"), None);

    // Undo: put it straight back.
    store.upsert(removed);
    assert_eq!(store.len(), 1);
}

#[test]
fn get_mut_edits_in_place() {
    let mut store = Store::new(at("/nonexistent/notes.json"));
    store.upsert(sample("a"));
    store.get_mut("a").unwrap().body = "edited".into();
    assert_eq!(store.get("a").unwrap().body, "edited");
    assert!(store.get_mut("missing").is_none());
}

#[test]
fn a_corrupt_file_is_set_aside_and_the_app_still_starts() {
    let path = at("/data/notes.json");
    let opened = Store::open(path.clone(), Contents::Malformed("expected ident".into()));
    assert!(opened.store.is_empty());
    assert!(!opened.store.is_read_only(), "a fresh store is writable");

    let LoadOutcome::Recovered { backup, reason } = opened.outcome else {
        panic!("expected recovery, got {:?}", opened.outcome);
    };
    assert_eq!(opened.set_aside.as_ref(), Some(&backup), "the bad file is moved there");
    assert_ne!(backup, path, "and not kept in the way");
    assert_eq!(reason, "expected ident");

    // And the recovered store can be written to.
    let plan = opened.store.save().expect("save after recovery");
    assert_eq!(
        Store::open(path, Contents::Document(plan.document)).outcome,
        LoadOutcome::Loaded
    );
}

#[test]
fn a_file_from_a_newer_version_is_never_overwritten() {
    let path = at("/data/notes.json");
    let opened = Store::open(
        path.clone(),
        Contents::Document(Document {
            version: SCHEMA_VERSION + 1,
            notes: vec![],
        }),
    );
    assert!(opened.store.is_read_only());
    assert_eq!(opened.set_aside, None, "the file stays where it is");
    assert_eq!(
        opened.outcome,
        LoadOutcome::Recovered {
            backup: path,
            reason: "notes file uses format version 2, but this build understands at most 1; \
                     upgrade Stickies to open it"
                .into(),
        }
    );
    assert_eq!(
        opened.store.save().err(),
        Some(StoreError::UnsupportedVersion(SCHEMA_VERSION + 1)),
        "saving must be refused"
    );
}

#[test]
fn the_notes_of_a_newer_version_are_loaded_rather_than_discarded() {
    let path = at("/data/notes.json");
    let opened = Store::open(
        path.clone(),
        Contents::Document(Document {
            version: SCHEMA_VERSION + 1,
            notes: vec![sample("a"), sample("b")],
        }),
    );
    assert_eq!(opened.store.notes(), [sample("a"), sample("b")]);
    assert_eq!(opened.store.path(), &path);
    assert!(opened.store.is_read_only());
    let LoadOutcome::Recovered { backup, .. } = opened.outcome.clone() else {
        panic!("expected recovery, got {:?}", opened.outcome);
    };
    assert_eq!(backup, path);
    assert_eq!(opened.set_aside, None);
    assert!(opened.store.save().is_err());
}

#[test]
fn a_file_that_cannot_be_read_is_left_alone() {
    let path = at("/data/notes.json");
    let opened = Store::open(
        path.clone(),
        Contents::Unreadable("Permission denied (os error 13)".into()),
    );
    assert!(opened.store.is_read_only());
    assert!(opened.store.is_empty());
    assert_eq!(opened.set_aside, None);
    assert_eq!(
        opened.outcome,
        LoadOutcome::Recovered {
            backup: path,
            reason: "Permission denied (os error 13)".into(),
        }
    );
    assert!(opened.store.save().is_err());
}

#[test]
fn an_empty_notes_array_loads_cleanly() {
    let opened = Store::open(at("/data/notes.json"), document(vec![]));
    assert_eq!(opened.outcome, LoadOutcome::Loaded);
    assert!(opened.store.is_empty());
}

#[test]
fn an_older_version_is_read() {
    let opened = Store::open(
        at("/data/notes.json"),
        Contents::Document(Document {
            version: 0,
            notes: vec![sample("a")],
        }),
    );
    assert_eq!(opened.outcome, LoadOutcome::Loaded);
    let plan = opened.store.save().expect("save");
    assert_eq!(plan.document.version, SCHEMA_VERSION, "and written as the current one");
    assert_eq!(plan.document.notes, vec![sample("a")]);
}

#[test]
fn default_path_follows_xdg_data_home() {
    let home = || Some(at("/home/u"));
    let path = Store::default_path(Some(at("/xdg")), home());
    assert_eq!(path, Path::new("/xdg/stickies/notes.json"));
    let path = Store::default_path(Some(at("relative")), home());
    assert_eq!(path, Path::new("/home/u/.local/share/stickies/notes.json"));
    let path = Store::default_path(None, home());
    assert_eq!(path, Path::new("/home/u/.local/share/stickies/notes.json"));
    let path = Store::default_path(None, None);
    assert_eq!(path, Path::new("./stickies/notes.json"));
    assert!(path.is_absolute() || path.starts_with("."));
    assert!(path.ends_with("stickies/notes.json"));
    let path = Store::default_path(Some(at("relative")), None);
    assert_eq!(path, Path::new("./stickies/notes.json"));
}

#[test]
fn the_default_path_is_put_together_with_single_separators() {
    let written = |data_home: &str| {
        let path = Store::default_path(Some(at(data_home)), None);
        path.to_str().expect("plain text").to_owned()
    };
    assert_eq!(written("/xdg"), "/xdg/stickies/notes.json");
    assert_eq!(written("/xdg/"), "/xdg/stickies/notes.json");
    assert_eq!(written("/xdg//"), "/xdg//stickies/notes.json");
    assert_eq!(written("/"), "/stickies/notes.json");
    assert_eq!(written(""), "./stickies/notes.json");
    let path = Store::default_path(None, Some(at("")));
    assert_eq!(path.to_str(), Some(".local/share/stickies/notes.json"));
    for base in ["/xdg", "/xdg/.", "/xdg/..", "/", ""] {
        let path = Store::default_path(Some(at(base)), Some(at(base)));
        assert_eq!(path.file_name().unwrap(), "notes.json", "{base}");
    }
}

#[test]
fn the_temporary_file_is_never_the_file_itself() {
    let temporary = |path: &str| {
        let plan = Store::new(at(path)).save().expect("save");
        let Some(SaveStep::Replace(from, to)) = plan.steps.last() else {
            panic!("expected a replacement, got {:?}", plan.steps);
        };
        assert_eq!(to.as_os_str(), path);
        from.to_str().expect("plain text").to_owned()
    };
    assert_eq!(temporary("/data/notes.json"), "/data/notes.json.tmp");
    assert_eq!(temporary("/data/notes"), "/data/notes.json.tmp");
    assert_eq!(temporary("/data/notes.json.tmp"), "/data/notes.json.json.tmp");
    assert_eq!(temporary(".json.tmp"), ".json.json.tmp");
    assert_eq!(temporary(".tmp"), ".tmp.json.tmp");
    assert_ne!(temporary("/data/notes.json.tmp/"), "/data/notes.json.tmp/");
    assert_ne!(temporary("/data/notes.json.tmp/."), "/data/notes.json.tmp/.");
    // A path that ends in no name has no other beside it.
    assert_eq!(temporary("/"), "/");
    assert_eq!(temporary("/data/.."), "/data/..");
}

#[test]
fn backup_paths_are_derived_from_the_original() {
    let backup = backup_path(&at("/home/u/.local/share/stickies/notes.json"));
    let name = backup.file_name().unwrap().to_string_lossy();
    assert!(name.starts_with("notes.json.corrupt-"), "{name}");
    assert_eq!(
        backup.parent(),
        Path::new("/home/u/.local/share/stickies").into()
    );
}

#[test]
fn a_backup_is_named_after_the_second_it_was_made() {
    assert_eq!(backup_suffix(0), ".corrupt-0");
    assert_eq!(backup_suffix(u64::MAX), ".corrupt-18446744073709551615");
    assert_eq!(
        backup_path_at(&at("/data/notes.json"), 1_700_000_000),
        Path::new("/data/notes.json.corrupt-1700000000")
    );
    // A path that ends in no name gets one.
    assert_eq!(backup_path_at(&at("/"), 7), Path::new("/.corrupt-7"));
    let opened = Store::open_at(at("/data/n"), Contents::Malformed("bad".into()), 12);
    assert_eq!(opened.set_aside, Some(at("/data/n.corrupt-12")));
}

#[test]
fn errors_say_what_happened() {
    assert_eq!(
        StoreError::Io("No space left on device".into()).describe(),
        "No space left on device"
    );
    assert_eq!(
        StoreError::UnsupportedVersion(7).describe(),
        "notes file uses format version 7, but this build understands at most 1; \
         upgrade Stickies to open it"
    );
}

#[test]
fn notes_keep_their_order() {
    let mut store = Store::new(at("/data/notes.json"));
    for id in ["a", "b", "c"] {
        store.upsert(sample(id));
    }
    let mut changed = sample("b");
    changed.body = "changed".into();
    store.upsert(changed);
    let ids: Vec<&str> = store.notes().iter().map(|n| n.id.as_str()).collect();
    assert_eq!(ids, ["a", "b", "c"], "a replaced note keeps its place");
    store.remove("a");
    let ids: Vec<&str> = store.notes().iter().map(|n| n.id.as_str()).collect();
    assert_eq!(ids, ["b", "c"]);
    assert_eq!(store.get("b").unwrap().body, "changed");
    assert_eq!(store.get("a"), None);
}

/// What is on a disk after some steps of a save, the last of them cut short
/// after `written` bytes where it is a write.
fn crash(steps: &[SaveStep], bytes: &str, written: Option<usize>) -> std::collections::HashMap<PathBuf, String> {
    let mut files = std::collections::HashMap::new();
    files.insert(at("/data/notes.json"), "old".to_string());
    for (i, step) in steps.iter().enumerate() {
        match step {
            SaveStep::CreateDirectory(_) => {}
            SaveStep::WriteTemporary(path) => {
                let all = bytes.len();
                let n = if i + 1 == steps.len() { written.unwrap_or(all) } else { all };
                files.insert(path.clone(), bytes[..n].to_string());
            }
            SaveStep::Replace(from, to) => {
                let content = files.remove(from).expect("it was written");
                files.insert(to.clone(), content);
            }
        }
    }
    files
}

#[test]
fn a_crash_leaves_the_old_file_or_the_new_one() {
    let plan = Store::new(at("/data/notes.json")).save().expect("save");
    for done in 0..=plan.steps.len() {
        for written in [None, Some(0), Some(2)] {
            let files = crash(&plan.steps[..done], "new contents", written);
            let target = &files[&at("/data/notes.json")];
            if done < plan.steps.len() {
                assert_eq!(target, "old", "after {done} steps");
            } else {
                assert_eq!(target, "new contents");
                assert_eq!(files.len(), 1, "no temporary file is left");
            }
        }
    }
}

#[test]
fn storing_and_removing_leave_other_notes_alone() {
    let mut store = Store::new(at("/data/notes.json"));
    for id in ["a", "b", "c"] {
        store.upsert(sample(id));
    }
    let removed = store.remove("b").unwrap();
    assert_eq!(store.get("b"), None);
    assert_eq!(store.get("a"), Some(&sample("a")));
    assert_eq!(store.get("c"), Some(&sample("c")));
    store.upsert(removed);
    assert_eq!(store.len(), 3);
    for id in ["a", "b", "c"] {
        assert_eq!(store.get(id), Some(&sample(id)));
    }
}

#[test]
fn the_parts_of_a_path_decide() {
    assert_eq!(backup_name(Some(at("n.json")), 3), Path::new("n.json.corrupt-3"));
    assert_eq!(backup_name(None, 3), Path::new(".corrupt-3"));
    let named = || Some(at("named"));
    let share = || Some(at("share"));
    assert_eq!(data_directory(named(), true, share()), Path::new("named"));
    assert_eq!(data_directory(named(), false, share()), Path::new("share"));
    assert_eq!(data_directory(named(), false, None), Path::new("."));
    assert_eq!(data_directory(None, true, share()), Path::new("share"));
    let steps = plan_steps(None, at("t"), at("p"));
    assert_eq!(steps.len(), 2, "a path without a directory needs none made");
    assert!(matches!(&steps[1], SaveStep::Replace(t, p) if t == Path::new("t") && p == Path::new("p")));
}
