//! Persistence: a single document under the user's data directory.
//!
//! Notes are small, few, and always loaded together, so one file beats a
//! database. Two things matter: a crash in the middle of a write never destroys
//! the previous contents (a write goes to a temporary file, which then replaces
//! the old one in one step), and a corrupt file loses at most the corrupt file
//! (it is set aside rather than overwritten).

use crate::clock;
use crate::model::note::Note;
use crate::paths;
use crate::search;
use crate::text;
use std::path::PathBuf;
use std::time::SystemTime;
use vstd::prelude::*;
use vstd::string::StringExecFns;
use vstd::utf8::encode_utf8;

verus! {

/// Raised when the shape of the file changes incompatibly. Readers accept every
/// version they understand and refuse to overwrite anything newer.
pub const SCHEMA_VERSION: u32 = 1;

/// What the file holds.
#[derive(Debug, PartialEq, Eq)]
pub struct Document {
    pub version: u32,
    pub notes: Vec<Note>,
}

#[derive(Debug, PartialEq, Eq)]
pub enum StoreError {
    /// What the file system answered.
    Io(String),
    /// The file declares a version that this build cannot read. The store
    /// refuses to save, so that a newer version's data is not destroyed.
    UnsupportedVersion(u32),
}

/// What is said of a file of version `v`.
pub open spec fn unsupported_message(v: int) -> Seq<char> {
    "notes file uses format version "@ + text::decimal(v)
        + ", but this build understands at most "@ + text::decimal(SCHEMA_VERSION as int)
        + "; upgrade Stickies to open it"@
}

impl StoreError {
    /// The error in words.
    pub open spec fn message(self) -> Seq<char> {
        match self {
            StoreError::Io(err) => err@,
            StoreError::UnsupportedVersion(v) => unsupported_message(v as int),
        }
    }

    /// The error in words.
    pub fn describe(&self) -> (r: String)
        ensures
            r@ == self.message(),
    {
        match self {
            StoreError::Io(err) => err.clone(),
            StoreError::UnsupportedVersion(v) => {
                let mut out = "notes file uses format version ".to_owned();
                out.append(text::decimal_u64(*v as u64).as_str());
                out.append(", but this build understands at most ");
                out.append(text::decimal_u64(SCHEMA_VERSION as u64).as_str());
                out.append("; upgrade Stickies to open it");
                out
            },
        }
    }
}

/// What happened when the store was opened. Anything but [`LoadOutcome::Loaded`]
/// is worth telling the user.
#[derive(Debug, Clone, PartialEq, Eq)]
pub enum LoadOutcome {
    /// Notes were read (possibly none).
    Loaded,
    /// No file yet: the first run.
    Fresh,
    /// The file could not be used as it is. It is kept at `backup`. The notes
    /// of a newer version are read all the same; of any other such file the
    /// store starts empty.
    Recovered { backup: PathBuf, reason: String },
}

/// What was found at the store's path.
#[derive(Debug, PartialEq, Eq)]
pub enum Contents {
    /// There is no file.
    Missing,
    /// There is a file that could not be read, for this reason.
    Unreadable(String),
    /// The file was read and is not a document, for this reason.
    Malformed(String),
    /// The file holds this document.
    Document(Document),
}

/// The notes in memory, plus the file behind them.
#[derive(Debug)]
pub struct Store {
    path: PathBuf,
    notes: Vec<Note>,
    /// The file on disk is not ours to write.
    read_only: bool,
}

/// A store, as a mathematical value.
#[verifier::ext_equal]
pub struct StoreView {
    pub path: Seq<u8>,
    pub notes: Seq<Note>,
    pub read_only: bool,
}

impl View for Store {
    type V = StoreView;

    closed spec fn view(&self) -> StoreView {
        StoreView {
            path: paths::path_bytes(self.path),
            notes: self.notes@,
            read_only: self.read_only,
        }
    }
}

/// Notes with this identifier.
pub open spec fn with_id(id: Seq<char>) -> spec_fn(Note) -> bool {
    |n: Note| n.id@ == id
}

/// Index of the first note with this identifier.
pub open spec fn index_of(notes: Seq<Note>, id: Seq<char>) -> Option<int> {
    search::first_where(notes, with_id(id))
}

impl StoreView {
    /// A store with no notes.
    pub open spec fn empty(path: Seq<u8>) -> StoreView {
        StoreView { path, notes: seq![], read_only: false }
    }

    /// The note with this identifier.
    pub open spec fn note(self, id: Seq<char>) -> Option<Note> {
        match index_of(self.notes, id) {
            Some(k) => Some(self.notes[k]),
            None => None,
        }
    }

    /// The store with `note` in the place of the note with its identifier, or
    /// at the end when there is none.
    pub open spec fn upserted(self, note: Note) -> StoreView {
        match index_of(self.notes, note.id@) {
            Some(k) => StoreView { notes: self.notes.update(k, note), ..self },
            None => StoreView { notes: self.notes.push(note), ..self },
        }
    }

    /// The store without the note with this identifier.
    pub open spec fn removed(self, id: Seq<char>) -> StoreView {
        match index_of(self.notes, id) {
            Some(k) => StoreView { notes: self.notes.remove(k), ..self },
            None => self,
        }
    }
}

impl Store {
    /// An empty store backed by `path`, without touching the disk.
    pub fn new(path: PathBuf) -> (r: Self)
        ensures
            r@ == StoreView::empty(paths::path_bytes(path)),
    {
        Store { path, notes: Vec::new(), read_only: false }
    }

    pub fn path(&self) -> (r: &PathBuf)
        ensures
            paths::path_bytes(*r) == self@.path,
    {
        &self.path
    }

    /// Is saving refused?
    pub fn is_read_only(&self) -> (r: bool)
        ensures
            r == self@.read_only,
    {
        self.read_only
    }

    pub fn notes(&self) -> (r: &[Note])
        ensures
            r@ == self@.notes,
    {
        self.notes.as_slice()
    }

    pub fn len(&self) -> (r: usize)
        ensures
            r == self@.notes.len(),
    {
        self.notes.len()
    }

    pub fn is_empty(&self) -> (r: bool)
        ensures
            r == (self@.notes.len() == 0),
    {
        self.notes.len() == 0
    }

    fn position(&self, id: &str) -> (r: Option<usize>)
        ensures
            match index_of(self@.notes, id@) {
                Some(k) => r matches Some(i) && i == k && i < self.notes@.len(),
                None => r is None,
            },
    {
        let mut i: usize = 0;
        while i < self.notes.len()
            invariant
                i <= self.notes@.len(),
                index_of(self.notes@, id@) == search::first_from(
                    self.notes@,
                    with_id(id@),
                    i as int,
                ),
            decreases self.notes@.len() - i,
        {
            if *self.notes[i].id.as_str() == *id {
                return Some(i);
            }
            i += 1;
        }
        None
    }

    /// The note with this identifier.
    pub fn get(&self, id: &str) -> (r: Option<&Note>)
        ensures
            match r {
                Some(note) => self@.note(id@) == Some(*note),
                None => self@.note(id@) is None,
            },
    {
        match self.position(id) {
            Some(i) => Some(&self.notes[i]),
            None => None,
        }
    }

    /// The note with this identifier, for editing.
    pub fn get_mut(&mut self, id: &str) -> (r: Option<&mut Note>)
        ensures
            match index_of(old(self)@.notes, id@) {
                Some(k) => r matches Some(note) && {
                    &&& *note == old(self)@.notes[k]
                    &&& final(self)@ == (StoreView {
                        notes: old(self)@.notes.update(k, *final(note)),
                        ..old(self)@
                    })
                },
                None => r is None && final(self)@ == old(self)@,
            },
    {
        match self.position(id) {
            Some(i) => Some(&mut self.notes[i]),
            None => None,
        }
    }

    /// Insert a new note, or replace the one with the same identifier.
    pub fn upsert(&mut self, note: Note)
        ensures
            final(self)@ == old(self)@.upserted(note),
    {
        match self.position(note.id.as_str()) {
            Some(i) => {
                self.notes.set(i, note);
            },
            None => {
                self.notes.push(note);
            },
        }
    }

    /// Remove a note, and hand it back so that the caller can offer an undo.
    pub fn remove(&mut self, id: &str) -> (r: Option<Note>)
        ensures
            r == old(self)@.note(id@),
            final(self)@ == old(self)@.removed(id@),
    {
        match self.position(id) {
            Some(i) => Some(self.notes.remove(i)),
            None => None,
        }
    }
}

// ---- opening ----

/// The end of a backup's file name.
pub open spec fn corrupt_suffix(stamp: int) -> Seq<char> {
    ".corrupt-"@ + text::decimal(stamp)
}

/// Where a malformed file at `path` is set aside at second `stamp`: beside
/// itself, under its own name with the suffix.
pub open spec fn backup_bytes(path: Seq<u8>, stamp: int) -> Seq<u8> {
    let name = match paths::final_component(path) {
        Some(name) => name,
        None => seq![],
    };
    paths::beside(path, name + encode_utf8(corrupt_suffix(stamp)))
}

/// The end of a backup's file name.
pub fn backup_suffix(stamp: u64) -> (r: String)
    ensures
        r@ == corrupt_suffix(stamp as int),
{
    let mut out = ".corrupt-".to_owned();
    out.append(text::decimal_u64(stamp).as_str());
    out
}

/// The file name of a backup of a file with this name, if it has one.
pub fn backup_name(name: Option<PathBuf>, stamp: u64) -> (r: PathBuf)
    ensures
        paths::path_bytes(r) == (match name {
            Some(n) => paths::path_bytes(n),
            None => seq![],
        }) + encode_utf8(corrupt_suffix(stamp as int)),
{
    let name = match name {
        Some(name) => name,
        None => PathBuf::new(),
    };
    let suffix = backup_suffix(stamp);
    paths::with_suffix(name, suffix.as_str())
}

/// `notes.json` to `notes.json.corrupt-<stamp>`.
pub fn backup_path_at(path: &PathBuf, stamp: u64) -> (r: PathBuf)
    ensures
        paths::path_bytes(r) == backup_bytes(paths::path_bytes(*path), stamp as int),
{
    paths::with_file_name(path, &backup_name(paths::file_name(path), stamp))
}

/// `notes.json` to `notes.json.corrupt-<seconds since the epoch>`.
pub fn backup_path(path: &PathBuf) -> (r: PathBuf)
    ensures
        exists|t: SystemTime|
            paths::path_bytes(r) == backup_bytes(
                paths::path_bytes(*path),
                clock::whole_seconds(#[trigger] clock::epoch_nanos(t)) as int,
            ),
{
    let reading = clock::now();
    backup_path_at(path, clock::seconds(reading))
}

/// A store just opened.
#[derive(Debug)]
pub struct Opened {
    pub store: Store,
    pub outcome: LoadOutcome,
    /// Where the file is to be moved, when it has to make room.
    pub set_aside: Option<PathBuf>,
}

/// Was the file kept at `at`, for this reason?
pub open spec fn recovered(outcome: LoadOutcome, at: Seq<u8>, why: Seq<char>) -> bool {
    outcome matches LoadOutcome::Recovered { backup, reason } && paths::path_bytes(backup) == at
        && reason@ == why
}

/// Is this what opening a store at `path` comes to, with these contents found
/// at second `stamp`?
pub open spec fn opens_as(r: Opened, path: Seq<u8>, contents: Contents, stamp: int) -> bool {
    match contents {
        Contents::Missing => {
            &&& r.store@ == StoreView::empty(path)
            &&& r.outcome == LoadOutcome::Fresh
            &&& r.set_aside is None
        },
        Contents::Unreadable(why) => {
            &&& r.store@ == (StoreView { read_only: true, ..StoreView::empty(path) })
            &&& recovered(r.outcome, path, why@)
            &&& r.set_aside is None
        },
        Contents::Malformed(why) => {
            &&& r.store@ == StoreView::empty(path)
            &&& recovered(r.outcome, backup_bytes(path, stamp), why@)
            &&& paths::optional_bytes(r.set_aside) == Some(backup_bytes(path, stamp))
        },
        Contents::Document(doc) => if doc.version <= SCHEMA_VERSION {
            &&& r.store@ == (StoreView { path, notes: doc.notes@, read_only: false })
            &&& r.outcome == LoadOutcome::Loaded
            &&& r.set_aside is None
        } else {
            &&& r.store@ == (StoreView { path, notes: doc.notes@, read_only: true })
            &&& recovered(r.outcome, path, unsupported_message(doc.version as int))
            &&& r.set_aside is None
        },
    }
}

impl Store {
    /// The store that the contents found at `path` make, at second `stamp`.
    ///
    /// A missing file is the first run, not an error. A malformed file is set
    /// aside and the store starts empty, so that a bad write never leaves the
    /// app unable to start. A file that could not be read stays where it is, and
    /// the store does not write over it. Neither does it write over a file that
    /// comes from a newer version, whose notes are loaded rather than discarded.
    pub fn open_at(path: PathBuf, contents: Contents, stamp: u64) -> (r: Opened)
        ensures
            opens_as(r, paths::path_bytes(path), contents, stamp as int),
    {
        match contents {
            Contents::Missing => Opened {
                store: Store::new(path),
                outcome: LoadOutcome::Fresh,
                set_aside: None,
            },
            Contents::Unreadable(reason) => {
                let backup = path.clone();
                Opened {
                    store: Store { path, notes: Vec::new(), read_only: true },
                    outcome: LoadOutcome::Recovered { backup, reason },
                    set_aside: None,
                }
            },
            Contents::Malformed(reason) => {
                let backup = backup_path_at(&path, stamp);
                let set_aside = Some(backup.clone());
                Opened {
                    store: Store::new(path),
                    outcome: LoadOutcome::Recovered { backup, reason },
                    set_aside,
                }
            },
            Contents::Document(doc) => {
                if doc.version <= SCHEMA_VERSION {
                    Opened {
                        store: Store { path, notes: doc.notes, read_only: false },
                        outcome: LoadOutcome::Loaded,
                        set_aside: None,
                    }
                } else {
                    let backup = path.clone();
                    Opened {
                        store: Store { path, notes: doc.notes, read_only: true },
                        outcome: LoadOutcome::Recovered {
                            backup,
                            reason: StoreError::UnsupportedVersion(doc.version).describe(),
                        },
                        set_aside: None,
                    }
                }
            },
        }
    }

    /// The store that the contents found at `path` make now.
    pub fn open(path: PathBuf, contents: Contents) -> (r: Opened)
        ensures
            exists|t: SystemTime|
                opens_as(
                    r,
                    paths::path_bytes(path),
                    contents,
                    clock::whole_seconds(#[trigger] clock::epoch_nanos(t)) as int,
                ),
    {
        let reading = clock::now();
        Store::open_at(path, contents, clock::seconds(reading))
    }
}

// ---- where the file is ----

/// Where the file is, given the two environment variables that decide it.
pub open spec fn default_bytes(data_home: Option<Seq<u8>>, home: Option<Seq<u8>>) -> Seq<u8> {
    let base = match data_home {
        Some(dir) if paths::from_root(dir) => dir,
        _ => match home {
            Some(dir) => paths::below(dir, encode_utf8(".local/share"@)),
            None => encode_utf8("."@),
        },
    };
    paths::below(
        paths::below(base, encode_utf8("stickies"@)),
        encode_utf8("notes.json"@),
    )
}

/// The directory for data: the one that is named, if it is absolute, else the
/// one below the home directory, else the current one.
pub fn data_directory(data_home: Option<PathBuf>, absolute: bool, share: Option<PathBuf>) -> (r:
    PathBuf)
    ensures
        paths::path_bytes(r) == (match data_home {
            Some(dir) if absolute => paths::path_bytes(dir),
            _ => match share {
                Some(dir) => paths::path_bytes(dir),
                None => encode_utf8("."@),
            },
        }),
{
    match (data_home, share) {
        (Some(dir), _) if absolute => dir,
        (_, Some(dir)) => dir,
        _ => paths::path_of("."),
    }
}

impl Store {
    /// The default location, `$XDG_DATA_HOME/stickies/notes.json`, where
    /// `data_home` is that variable and `home` is `$HOME`. A data directory
    /// that is not absolute is ignored.
    pub fn default_path(data_home: Option<PathBuf>, home: Option<PathBuf>) -> (r: PathBuf)
        ensures
            paths::path_bytes(r) == default_bytes(
                paths::optional_bytes(data_home),
                paths::optional_bytes(home),
            ),
            paths::final_component(paths::path_bytes(r)) == Some(encode_utf8("notes.json"@)),
    {
        let absolute = match &data_home {
            Some(dir) => paths::is_absolute(dir),
            None => false,
        };
        let share = match home {
            Some(dir) => Some(paths::join(&dir, ".local/share")),
            None => None,
        };
        let base = data_directory(data_home, absolute, share);
        proof {
            reveal_strlit("notes.json");
            assert("notes.json"@.len() == 10);
        }
        paths::join(&paths::join(&base, "stickies"), "notes.json")
    }
}

// ---- saving ----

/// One step of a save.
#[derive(Debug)]
pub enum SaveStep {
    /// Make this directory, and those it is in.
    CreateDirectory(PathBuf),
    /// Write the document here, and have it reach the disk.
    WriteTemporary(PathBuf),
    /// Put the first file in the place of the second, in one step.
    Replace(PathBuf, PathBuf),
}

/// A save: what to write, and the steps that write it. The first step that
/// fails ends the save.
#[derive(Debug)]
pub struct SavePlan {
    pub document: Document,
    pub steps: Vec<SaveStep>,
}

/// A step of a save, as a mathematical value.
pub enum Step {
    CreateDirectory(Seq<u8>),
    WriteTemporary(Seq<u8>),
    Replace(Seq<u8>, Seq<u8>),
}

impl View for SaveStep {
    type V = Step;

    open spec fn view(&self) -> Step {
        match self {
            SaveStep::CreateDirectory(dir) => Step::CreateDirectory(paths::path_bytes(*dir)),
            SaveStep::WriteTemporary(file) => Step::WriteTemporary(paths::path_bytes(*file)),
            SaveStep::Replace(from, to) => Step::Replace(
                paths::path_bytes(*from),
                paths::path_bytes(*to),
            ),
        }
    }
}

impl SavePlan {
    /// The steps, as mathematical values.
    pub open spec fn planned(self) -> Seq<Step> {
        self.steps@.map_values(|s: SaveStep| s@)
    }
}

/// Where the file at `path` is written first.
pub open spec fn temporary_bytes(path: Seq<u8>) -> Seq<u8> {
    paths::extended(path, encode_utf8("json.tmp"@))
}

/// The steps that write the file at `path`.
pub open spec fn save_steps(path: Seq<u8>) -> Seq<Step> {
    steps_through(paths::enclosing(path), temporary_bytes(path), path)
}

/// The steps of a save of the file at `path`, in its directory, by way of a
/// temporary file.
pub open spec fn steps_through(dir: Option<Seq<u8>>, temporary: Seq<u8>, path: Seq<u8>) -> Seq<
    Step,
> {
    let write = seq![Step::WriteTemporary(temporary), Step::Replace(temporary, path)];
    match dir {
        Some(d) => seq![Step::CreateDirectory(d)] + write,
        None => write,
    }
}

/// The steps of a save of the file at `path`, in its directory, by way of a
/// temporary file.
pub fn plan_steps(dir: Option<PathBuf>, temporary: PathBuf, path: PathBuf) -> (r: Vec<SaveStep>)
    ensures
        r@.map_values(|s: SaveStep| s@) == steps_through(
            paths::optional_bytes(dir),
            paths::path_bytes(temporary),
            paths::path_bytes(path),
        ),
{
    let ghost wanted = steps_through(
        paths::optional_bytes(dir),
        paths::path_bytes(temporary),
        paths::path_bytes(path),
    );
    let mut steps: Vec<SaveStep> = Vec::new();
    if let Some(dir) = dir {
        steps.push(SaveStep::CreateDirectory(dir));
    }
    steps.push(SaveStep::WriteTemporary(temporary.clone()));
    steps.push(SaveStep::Replace(temporary, path));
    assert(steps@.map_values(|s: SaveStep| s@) =~= wanted);
    steps
}

/// Is this how a store is written out? A path with a file name gets another
/// path to be written to first.
pub open spec fn saves_as(plan: SavePlan, s: StoreView) -> bool {
    &&& !s.read_only
    &&& plan.document.version == SCHEMA_VERSION
    &&& plan.document.notes@ == s.notes
    &&& plan.planned() == save_steps(s.path)
    &&& paths::final_component(s.path) is Some ==> temporary_bytes(s.path) != s.path
}

/// A copy of every note, in order.
fn clone_notes(notes: &Vec<Note>) -> (r: Vec<Note>)
    ensures
        r@ == notes@,
{
    let mut out: Vec<Note> = Vec::new();
    let mut i: usize = 0;
    while i < notes.len()
        invariant
            i <= notes@.len(),
            out@ == notes@.take(i as int),
        decreases notes@.len() - i,
    {
        out.push(notes[i].clone());
        i += 1;
    }
    out
}

impl Store {
    /// How to write the store out: a temporary file in the same directory, and
    /// then that file in the place of the old one. A crash at any point leaves
    /// the old file or the new one, never a truncated one.
    ///
    /// A store that must not be written is refused.
    pub fn save(&self) -> (r: Result<SavePlan, StoreError>)
        ensures
            match r {
                Ok(plan) => saves_as(plan, self@),
                Err(err) => self@.read_only && err == StoreError::UnsupportedVersion(
                    (SCHEMA_VERSION + 1) as u32,
                ),
            },
    {
        if self.read_only {
            return Err(StoreError::UnsupportedVersion(SCHEMA_VERSION + 1));
        }
        proof {
            reveal_strlit("json.tmp");
            assert("json.tmp"@[4] == '.');
        }
        let temporary = paths::with_extension(&self.path, "json.tmp");
        let steps = plan_steps(paths::parent(&self.path), temporary, self.path.clone());
        Ok(
            SavePlan {
                document: Document { version: SCHEMA_VERSION, notes: clone_notes(&self.notes) },
                steps,
            },
        )
    }
}

} // verus!
