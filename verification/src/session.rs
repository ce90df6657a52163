//! The running session: what each thing the user does comes to.
//!
//! Everything that changes a note goes through here. The windows report what
//! the user did, the session applies it to the store and marks it as changed,
//! and a periodic tick writes it out. There is exactly one place where a note
//! can be lost.

use crate::clock;
use crate::model::geometry;
use crate::model::geometry::{Monitor, Placement};
use crate::model::note;
use crate::model::note::{IdSource, Note, NoteGeometry, Palette};
use crate::model::store;
use crate::model::store::{LoadOutcome, SavePlan, Store, StoreError, StoreView};
use crate::model::store_laws as laws;
use crate::paths;
use crate::search;
use crate::text;
use crate::tray;
use crate::tray::{MenuEntry, Row};
use std::time::SystemTime;
use vstd::prelude::*;
use vstd::string::StringExecFns;

verus! {

/// How often the windows are asked about and a changed store is written, in
/// seconds.
pub const TICK_SECONDS: u64 = 2;

/// A window that was just presented is unknown to the compositor until it is
/// on screen, so the first attempt to place it usually misses.
pub const PLACE_ATTEMPTS: u32 = 12;

/// How long to wait between two attempts, in milliseconds.
pub const PLACE_RETRY_MS: u64 = 70;

/// The session.
#[derive(Debug)]
pub struct Session {
    pub store: Store,
    pub ids: IdSource,
    /// The monitors as last reported.
    pub monitors: Vec<Monitor>,
    /// Does the store hold something that is not on disk?
    pub dirty: bool,
    /// Does the shell extension answer?
    pub placement_available: bool,
    /// Why saving fails, while it does.
    pub save_error: Option<String>,
    /// Is the app on its way out?
    pub quitting: bool,
}

/// The store with `note` in the place of the note with this identifier.
pub open spec fn rewritten(s: StoreView, id: Seq<char>, note: Note) -> StoreView {
    match store::index_of(s.notes, id) {
        Some(k) => StoreView { notes: s.notes.update(k, note), ..s },
        None => s,
    }
}

impl Session {
    /// A session on this store.
    pub fn new(store: Store) -> (r: Session)
        ensures
            r.store == store,
            r.ids.next == 0,
            r.monitors@.len() == 0,
            !r.dirty,
            !r.placement_available,
            r.save_error is None,
            !r.quitting,
    {
        Session {
            store,
            ids: IdSource::new(),
            monitors: Vec::new(),
            dirty: false,
            placement_available: false,
            save_error: None,
            quitting: false,
        }
    }

    // ---- edits ----

    /// The text of a note was changed at `now`. Says whether that is news.
    pub fn body_changed_at(&mut self, id: &str, body: String, now: i64) -> (r: bool)
        ensures
            *final(self) == (Session {
                store: final(self).store,
                dirty: old(self).dirty || r,
                ..*old(self)
            }),
            match old(self).store@.note(id@) {
                Some(n) => {
                    &&& r == (n.body@ != body@)
                    &&& final(self).store@ == if r {
                        rewritten(old(self).store@, id@, (Note { body, modified: now, ..n }))
                    } else {
                        old(self).store@
                    }
                },
                None => !r && final(self).store@ == old(self).store@,
            },
    {
        let mut changed = false;
        if let Some(note) = self.store.get_mut(id) {
            if !(*note.body.as_str() == *body.as_str()) {
                note.body = body;
                note.touch_at(now);
                changed = true;
            }
        }
        proof {
            laws::lemma_index_of(old(self).store@.notes, id@);
            if !changed {
                assert(self.store@ =~= old(self).store@);
            }
        }
        if changed {
            self.dirty = true;
        }
        changed
    }

    /// The text of a note was changed now. Says whether that is news.
    pub fn body_changed(&mut self, id: &str, body: String) -> (r: bool)
        ensures
            *final(self) == (Session {
                store: final(self).store,
                dirty: old(self).dirty || r,
                ..*old(self)
            }),
            match old(self).store@.note(id@) {
                Some(n) => {
                    &&& r == (n.body@ != body@)
                    &&& if r {
                        exists|t: SystemTime|
                            final(self).store@ == rewritten(
                                old(self).store@,
                                id@,
                                (Note {
                                    body,
                                    modified: note::timestamp(#[trigger] clock::epoch_nanos(t)),
                                    ..n
                                }),
                            )
                    } else {
                        final(self).store@ == old(self).store@
                    }
                },
                None => !r && final(self).store@ == old(self).store@,
            },
    {
        let now: i64 = note::now_secs();
        self.body_changed_at(id, body, now)
    }

    /// A colour was picked for a note at `now`, by its machine name. A name of
    /// no colour is ignored.
    pub fn palette_changed_at(&mut self, id: &str, name: &str, now: i64) -> (r: bool)
        ensures
            *final(self) == (Session {
                store: final(self).store,
                dirty: old(self).dirty || r,
                ..*old(self)
            }),
            r == exists|p: Palette| #[trigger] p.name() == name@,
            if r {
                exists|p: Palette| #[trigger]
                    p.name() == name@ && final(self).store@ == (match old(self).store@.note(id@) {
                        Some(n) => rewritten(
                            old(self).store@,
                            id@,
                            (Note { palette: p, modified: now, ..n }),
                        ),
                        None => old(self).store@,
                    })
            } else {
                final(self).store@ == old(self).store@
            },
    {
        match Palette::from_id(name) {
            Some(palette) => {
                if let Some(note) = self.store.get_mut(id) {
                    note.palette = palette;
                    note.touch_at(now);
                }
                self.dirty = true;
                assert(palette.name() == name@);
                true
            },
            None => false,
        }
    }

    /// A colour was picked for a note now, by its machine name.
    pub fn palette_changed(&mut self, id: &str, name: &str) -> (r: bool)
        ensures
            *final(self) == (Session {
                store: final(self).store,
                dirty: old(self).dirty || r,
                ..*old(self)
            }),
            r == exists|p: Palette| #[trigger] p.name() == name@,
            if r {
                exists|p: Palette, t: SystemTime|
                    #![trigger p.name(), clock::epoch_nanos(t)]
                    p.name() == name@ && final(self).store@ == (match old(self).store@.note(id@) {
                        Some(n) => rewritten(
                            old(self).store@,
                            id@,
                            (Note {
                                palette: p,
                                modified: note::timestamp(clock::epoch_nanos(t)),
                                ..n
                            }),
                        ),
                        None => old(self).store@,
                    })
            } else {
                final(self).store@ == old(self).store@
            },
    {
        let now: i64 = note::now_secs();
        self.palette_changed_at(id, name, now)
    }

    /// A note was pinned or unpinned.
    pub fn pin_changed(&mut self, id: &str, pinned: bool)
        ensures
            *final(self) == (Session { store: final(self).store, dirty: true, ..*old(self) }),
            final(self).store@ == (match old(self).store@.note(id@) {
                Some(n) => rewritten(old(self).store@, id@, (Note { pinned, ..n })),
                None => old(self).store@,
            }),
    {
        if let Some(note) = self.store.get_mut(id) {
            note.pinned = pinned;
        }
        self.dirty = true;
    }

    /// Remember whether a note is on screen.
    pub fn mark_visible(&mut self, id: &str, visible: bool)
        ensures
            *final(self) == (Session {
                store: final(self).store,
                dirty: final(self).dirty,
                ..*old(self)
            }),
            (final(self).store@, final(self).dirty) == marked(
                (old(self).store@, old(self).dirty),
                id@,
                visible,
            ),
    {
        let mut changed = false;
        if let Some(note) = self.store.get_mut(id) {
            if note.visible != visible {
                note.visible = visible;
                changed = true;
            }
        }
        proof {
            laws::lemma_index_of(old(self).store@.notes, id@);
            if !changed {
                assert(self.store@ =~= old(self).store@);
            }
        }
        if changed {
            self.dirty = true;
        }
    }
}

/// A store and whether it changed, after a note was marked as on screen or not.
pub open spec fn marked(s: (StoreView, bool), id: Seq<char>, visible: bool) -> (StoreView, bool) {
    match s.0.note(id) {
        Some(n) => if n.visible != visible {
            (rewritten(s.0, id, (Note { visible, ..n })), true)
        } else {
            s
        },
        None => s,
    }
}

/// A store and whether it changed, after each of these notes was shown.
pub open spec fn all_shown(s: (StoreView, bool), ids: Seq<Seq<char>>) -> (StoreView, bool)
    decreases ids.len(),
{
    if ids.len() == 0 {
        s
    } else {
        marked(all_shown(s, ids.drop_last()), ids.last(), true)
    }
}

// ---- new notes ----

/// Is `after` the session `before` with a new note in it? The note is empty, in
/// the least used colour, and made at some time that the clock may show. Its
/// identifier is the next one of the session, for some such time.
pub open spec fn adds_note(before: Session, after: Session, id: Seq<char>) -> bool {
    &&& after == (Session { store: after.store, ids: after.ids, dirty: true, ..before })
    &&& after.ids.next == before.ids.next.wrapping_add(1)
    &&& exists|t: SystemTime|
        id == note::id_text(
            clock::whole_nanos(#[trigger] clock::epoch_nanos(t)) as int,
            before.ids.next as int,
        )
    &&& exists|fresh: Note, at: SystemTime|
        #![trigger before.store@.upserted(fresh), clock::epoch_nanos(at)]
        {
            &&& fresh.id@ == id
            &&& fresh.body@.len() == 0
            &&& fresh.created == note::timestamp(clock::epoch_nanos(at))
            &&& note::least_used(before.store@.notes, fresh.palette)
            &&& fresh == Note::blank(fresh.id, fresh.body, fresh.palette, fresh.created)
            &&& after.store@ == before.store@.upserted(fresh)
        }
}

impl Session {
    /// A new note with this identifier, made at `now`, in the least used
    /// colour.
    pub fn add_note(&mut self, id: String, now: i64) -> (r: String)
        ensures
            r@ == id@,
            *final(self) == (Session { store: final(self).store, dirty: true, ..*old(self) }),
            exists|palette: Palette, body: String| #[trigger]
                note::least_used(old(self).store@.notes, palette) && body@.len() == 0
                    && final(self).store@ == old(self).store@.upserted(
                    #[trigger] Note::blank(id, body, palette, now),
                ),
    {
        let palette = note::least_used_palette(self.store.notes());
        let key = id.clone();
        let note = Note::created_at(id, palette, now);
        assert(note::least_used(old(self).store@.notes, palette));
        assert(note == Note::blank(id, note.body, palette, now));
        self.store.upsert(note);
        self.dirty = true;
        key
    }

    /// A new note. The result is its identifier.
    pub fn new_note(&mut self) -> (r: String)
        ensures
            adds_note(*old(self), *final(self), r@),
    {
        let now: i64 = note::now_secs();
        let id = self.ids.generate_id();
        let ghost made = id;
        let r = self.add_note(id, now);
        proof {
            let (palette, body) = choose|palette: Palette, body: String| #[trigger]
                note::least_used(old(self).store@.notes, palette) && body@.len() == 0
                    && self.store@ == old(self).store@.upserted(
                    #[trigger] Note::blank(made, body, palette, now),
                );
            let fresh = Note::blank(made, body, palette, now);
            assert(self.store@ == old(self).store@.upserted(fresh));
        }
        r
    }

    /// A copy of a note with this identifier, made at `now`. Its text and
    /// colour are copied, and the monitor it is on. Its position is not, since
    /// it would lie exactly on top; nor is whether it is pinned.
    pub fn add_copy(&mut self, source: &str, id: String, now: i64) -> (r: Option<String>)
        ensures
            match old(self).store@.note(source@) {
                Some(n) => {
                    &&& text::optional_text(r) == Some(id@)
                    &&& *final(self) == (Session {
                        store: final(self).store,
                        dirty: true,
                        ..*old(self)
                    })
                    &&& final(self).store@ == old(self).store@.upserted(copied(n, id, now))
                },
                None => r is None && *final(self) == *old(self),
            },
    {
        let copy = match self.store.get(source) {
            Some(found) => {
                let mut copy = Note::created_at(id.clone(), found.palette, now);
                copy.body = found.body.clone();
                copy.geometry.monitor = note::clone_name(&found.geometry.monitor);
                copy
            },
            None => {
                return None;
            },
        };
        self.store.upsert(copy);
        self.dirty = true;
        Some(id)
    }

    /// A copy of a note. The result is its identifier, or `None` when there is
    /// no such note.
    pub fn duplicate_note(&mut self, source: &str) -> (r: Option<String>)
        ensures
            match old(self).store@.note(source@) {
                Some(n) => {
                    &&& final(self).ids.next == old(self).ids.next.wrapping_add(1)
                    &&& *final(self) == (Session {
                        store: final(self).store,
                        ids: final(self).ids,
                        dirty: true,
                        ..*old(self)
                    })
                    &&& exists|id: String, at: SystemTime, t: SystemTime|
                        #![trigger copied(n, id, note::timestamp(clock::epoch_nanos(at))),
                            clock::epoch_nanos(t)]
                        text::optional_text(r) == Some(id@) && id@ == note::id_text(
                            clock::whole_nanos(clock::epoch_nanos(t)) as int,
                            old(self).ids.next as int,
                        ) && final(self).store@ == old(self).store@.upserted(
                            copied(n, id, note::timestamp(clock::epoch_nanos(at))),
                        )
                },
                None => r is None && *final(self) == *old(self),
            },
    {
        if self.store.get(source).is_none() {
            return None;
        }
        let now: i64 = note::now_secs();
        let id = self.ids.generate_id();
        let ghost made = id;
        let r = self.add_copy(source, id, now);
        proof {
            let n = old(self).store@.note(source@)->0;
            let at = choose|at: SystemTime|
                now == note::timestamp(#[trigger] clock::epoch_nanos(at));
            assert(self.store@ == old(self).store@.upserted(
                copied(n, made, note::timestamp(clock::epoch_nanos(at))),
            ));
        }
        r
    }

    /// Remove a note for good. The result is the note, for the record: this is
    /// the only thing in the app that cannot be taken back.
    pub fn delete_note(&mut self, id: &str) -> (r: Option<Note>)
        ensures
            *final(self) == (Session { store: final(self).store, dirty: true, ..*old(self) }),
            r == old(self).store@.note(id@),
            final(self).store@ == old(self).store@.removed(id@),
    {
        let removed = self.store.remove(id);
        self.dirty = true;
        removed
    }
}

/// What a copy of `source` is.
pub open spec fn copied(source: Note, id: String, now: i64) -> Note {
    Note {
        geometry: NoteGeometry { monitor: source.geometry.monitor, ..NoteGeometry::unplaced() },
        ..Note::blank(id, source.body, source.palette, now)
    }
}

// ---- which notes to open ----

/// The identifiers of the notes that are on screen, in order.
pub open spec fn visible_ids(notes: Seq<Note>) -> Seq<Seq<char>>
    decreases notes.len(),
{
    if notes.len() == 0 {
        seq![]
    } else {
        let before = visible_ids(notes.drop_last());
        if notes.last().visible {
            before.push(notes.last().id@)
        } else {
            before
        }
    }
}

/// Index of the note among the first `n` that was changed last; the later one
/// of two that were changed at the same time.
pub open spec fn latest(notes: Seq<Note>, n: int) -> Option<int>
    decreases n,
{
    if n <= 0 {
        None
    } else {
        match latest(notes, n - 1) {
            Some(k) => if notes[n - 1].modified >= notes[k].modified {
                Some(n - 1)
            } else {
                Some(k)
            },
            None => Some(n - 1),
        }
    }
}

/// The notes that a start brings back: those that were on screen, or else the
/// one that was changed last.
pub open spec fn restored_ids(notes: Seq<Note>) -> Seq<Seq<char>> {
    let visible = visible_ids(notes);
    if visible.len() > 0 {
        visible
    } else {
        match latest(notes, notes.len() as int) {
            Some(k) => seq![notes[k].id@],
            None => seq![],
        }
    }
}

/// The identifiers of all notes, in order.
pub open spec fn all_ids(notes: Seq<Note>) -> Seq<Seq<char>> {
    notes.map_values(|n: Note| n.id@)
}

/// What a start opens.
#[derive(Debug, PartialEq, Eq)]
pub enum Restored {
    /// These notes.
    Notes(Vec<String>),
    /// A fresh note, since there were none.
    Fresh(String),
}

impl Session {
    fn ids_to_restore(&self) -> (r: Vec<String>)
        ensures
            text::texts(r@) == restored_ids(self.store@.notes),
    {
        let notes = self.store.notes();
        let mut out: Vec<String> = Vec::new();
        let mut best: Option<usize> = None;
        let mut i: usize = 0;
        assert(notes@.take(0) =~= seq![]);
        assert(text::texts(out@) =~= seq![]);
        while i < notes.len()
            invariant
                i <= notes@.len(),
                notes@ == self.store@.notes,
                text::texts(out@) == visible_ids(notes@.take(i as int)),
                match best {
                    Some(k) => latest(notes@, i as int) == Some(k as int) && k < i,
                    None => latest(notes@, i as int) is None,
                },
                i > 0 ==> best is Some,
            decreases notes@.len() - i,
        {
            assert(notes@.take(i + 1).drop_last() =~= notes@.take(i as int));
            if notes[i].visible {
                let ghost before = out@;
                out.push(notes[i].id.clone());
                assert(text::texts(out@) =~= text::texts(before).push(notes@[i as int].id@));
            }
            match best {
                Some(k) => {
                    if notes[i].modified >= notes[k].modified {
                        best = Some(i);
                    }
                },
                None => {
                    best = Some(i);
                },
            }
            i += 1;
        }
        assert(notes@.take(i as int) =~= notes@);
        assert(text::texts(out@).len() == out@.len());
        if out.len() == 0 {
            if let Some(k) = best {
                out.push(notes[k].id.clone());
                assert(text::texts(out@) =~= seq![notes@[k as int].id@]);
            }
        }
        out
    }

    fn show_each(&mut self, ids: &Vec<String>)
        ensures
            *final(self) == (Session {
                store: final(self).store,
                dirty: final(self).dirty,
                ..*old(self)
            }),
            (final(self).store@, final(self).dirty) == all_shown(
                (old(self).store@, old(self).dirty),
                text::texts(ids@),
            ),
    {
        let ghost wanted = text::texts(ids@);
        let mut i: usize = 0;
        assert(wanted.take(0) =~= seq![]);
        while i < ids.len()
            invariant
                i <= ids@.len(),
                wanted == text::texts(ids@),
                *self == (Session { store: self.store, dirty: self.dirty, ..*old(self) }),
                (self.store@, self.dirty) == all_shown(
                    (old(self).store@, old(self).dirty),
                    wanted.take(i as int),
                ),
            decreases ids@.len() - i,
        {
            assert(wanted.take(i + 1).drop_last() =~= wanted.take(i as int));
            self.mark_visible(ids[i].as_str(), true);
            i += 1;
        }
        assert(wanted.take(i as int) =~= wanted);
    }

    /// Choose the notes to open at the start, and mark them as on screen.
    ///
    /// Those are the notes that were on screen at the last exit. If there were
    /// none, it is the one that was changed last: a start with no window looks
    /// broken, but one with every note buries the screen. An empty store gets
    /// one fresh note.
    pub fn restore_session(&mut self) -> (r: Restored)
        ensures
            match r {
                Restored::Notes(ids) => {
                    &&& restored_ids(old(self).store@.notes).len() > 0
                    &&& text::texts(ids@) == restored_ids(old(self).store@.notes)
                    &&& *final(self) == (Session {
                        store: final(self).store,
                        dirty: final(self).dirty,
                        ..*old(self)
                    })
                    &&& (final(self).store@, final(self).dirty) == all_shown(
                        (old(self).store@, old(self).dirty),
                        text::texts(ids@),
                    )
                },
                Restored::Fresh(id) => {
                    &&& restored_ids(old(self).store@.notes).len() == 0
                    &&& adds_note(*old(self), *final(self), id@)
                },
            },
    {
        let ids = self.ids_to_restore();
        assert(text::texts(ids@).len() == ids@.len());
        if ids.len() == 0 {
            return Restored::Fresh(self.new_note());
        }
        self.show_each(&ids);
        Restored::Notes(ids)
    }

    /// Mark every note as on screen. The result is every note's identifier.
    pub fn show_all(&mut self) -> (r: Vec<String>)
        ensures
            text::texts(r@) == all_ids(old(self).store@.notes),
            *final(self) == (Session {
                store: final(self).store,
                dirty: final(self).dirty,
                ..*old(self)
            }),
            (final(self).store@, final(self).dirty) == all_shown(
                (old(self).store@, old(self).dirty),
                text::texts(r@),
            ),
    {
        let mut ids: Vec<String> = Vec::new();
        let mut i: usize = 0;
        let notes = self.store.notes();
        while i < notes.len()
            invariant
                i <= notes@.len(),
                ids@.len() == i,
                forall|j: int| 0 <= j < i ==> (#[trigger] ids@[j])@ == notes@[j].id@,
            decreases notes@.len() - i,
        {
            ids.push(notes[i].id.clone());
            i += 1;
        }
        assert(text::texts(ids@) =~= all_ids(old(self).store@.notes));
        self.show_each(&ids);
        ids
    }
}

// ---- where the windows are ----

/// Does a note with this geometry lie elsewhere than `p`?
pub open spec fn moved(g: NoteGeometry, p: Placement) -> bool {
    ||| geometry::remembered(g.monitor) != Some(p.connector@)
    ||| g.x != p.x
    ||| g.y != p.y
    ||| g.width != p.width
    ||| g.height != p.height
}

/// The geometry of a note that lies at `p`.
pub open spec fn geometry_at(p: Placement) -> NoteGeometry {
    NoteGeometry {
        monitor: Some(p.connector),
        x: p.x,
        y: p.y,
        width: p.width,
        height: p.height,
    }
}

/// A store and whether it changed, after a window was found at `p`.
pub open spec fn recorded(s: (StoreView, bool), id: Seq<char>, p: Placement) -> (StoreView, bool) {
    match s.0.note(id) {
        Some(n) => if moved(n.geometry, p) {
            (rewritten(s.0, id, (Note { geometry: geometry_at(p), ..n })), true)
        } else {
            s
        },
        None => s,
    }
}

/// An open window: the object path it is known by, and its note.
#[derive(Debug, PartialEq, Eq)]
pub struct OpenWindow {
    pub path: String,
    pub note: String,
}

/// Windows known by this path.
pub open spec fn known_by(path: Seq<char>) -> spec_fn(OpenWindow) -> bool {
    |w: OpenWindow| w.path@ == path
}

/// A store and whether it changed, after the first `n` of `found` were
/// recorded. Windows that are not ours are skipped.
pub open spec fn all_recorded(
    s: (StoreView, bool),
    windows: Seq<OpenWindow>,
    found: Seq<(String, Placement)>,
    n: int,
) -> (StoreView, bool)
    decreases n,
{
    if n <= 0 {
        s
    } else {
        let before = all_recorded(s, windows, found, n - 1);
        match search::first_where(windows, known_by(found[n - 1].0@)) {
            Some(k) => recorded(before, windows[k].note@, found[n - 1].1),
            None => before,
        }
    }
}

fn find_window(windows: &[OpenWindow], path: &str) -> (r: Option<usize>)
    ensures
        match search::first_where(windows@, known_by(path@)) {
            Some(k) => r matches Some(i) && i == k && i < windows@.len(),
            None => r is None,
        },
{
    let mut i: usize = 0;
    while i < windows.len()
        invariant
            i <= windows@.len(),
            search::first_where(windows@, known_by(path@)) == search::first_from(
                windows@,
                known_by(path@),
                i as int,
            ),
        decreases windows@.len() - i,
    {
        if *windows[i].path.as_str() == *path {
            return Some(i);
        }
        i += 1;
    }
    None
}

fn has_moved(g: &NoteGeometry, p: &Placement) -> (r: bool)
    ensures
        r == moved(*g, *p),
{
    let elsewhere = match &g.monitor {
        Some(name) => !(*name.as_str() == *p.connector.as_str()),
        None => true,
    };
    elsewhere || g.x != p.x || g.y != p.y || g.width != p.width || g.height != p.height
}

impl Session {
    /// A note's window was found at `placement`.
    pub fn record_geometry(&mut self, id: &str, placement: &Placement)
        ensures
            *final(self) == (Session {
                store: final(self).store,
                dirty: final(self).dirty,
                ..*old(self)
            }),
            (final(self).store@, final(self).dirty) == recorded(
                (old(self).store@, old(self).dirty),
                id@,
                *placement,
            ),
    {
        let mut changed = false;
        if let Some(note) = self.store.get_mut(id) {
            if has_moved(&note.geometry, placement) {
                note.geometry = NoteGeometry {
                    monitor: Some(placement.connector.clone()),
                    x: placement.x,
                    y: placement.y,
                    width: placement.width,
                    height: placement.height,
                };
                changed = true;
            }
        }
        proof {
            laws::lemma_index_of(old(self).store@.notes, id@);
            if !changed {
                assert(self.store@ =~= old(self).store@);
            }
        }
        if changed {
            self.dirty = true;
        }
    }

    /// The compositor has these windows at these places. This is the only way
    /// to learn that the user moved a note.
    pub fn sync_geometry(&mut self, windows: &[OpenWindow], found: &Vec<(String, Placement)>)
        ensures
            *final(self) == (Session {
                store: final(self).store,
                dirty: final(self).dirty,
                ..*old(self)
            }),
            (final(self).store@, final(self).dirty) == all_recorded(
                (old(self).store@, old(self).dirty),
                windows@,
                found@,
                found@.len() as int,
            ),
    {
        let mut i: usize = 0;
        while i < found.len()
            invariant
                i <= found@.len(),
                *self == (Session { store: self.store, dirty: self.dirty, ..*old(self) }),
                (self.store@, self.dirty) == all_recorded(
                    (old(self).store@, old(self).dirty),
                    windows@,
                    found@,
                    i as int,
                ),
            decreases found@.len() - i,
        {
            if let Some(k) = find_window(windows, found[i].0.as_str()) {
                self.record_geometry(windows[k].note.as_str(), &found[i].1);
            }
            i += 1;
        }
    }

    /// A note was put away: kept, but off screen and not brought back at the
    /// next start. Its last place, if it could still be read, is remembered.
    pub fn put_away(&mut self, id: &str, found: Option<&Placement>)
        ensures
            *final(self) == (Session {
                store: final(self).store,
                dirty: final(self).dirty,
                ..*old(self)
            }),
            (final(self).store@, final(self).dirty) == marked(
                match found {
                    Some(p) => recorded((old(self).store@, old(self).dirty), id@, *p),
                    None => (old(self).store@, old(self).dirty),
                },
                id@,
                false,
            ),
    {
        if let Some(placement) = found {
            self.record_geometry(id, placement);
        }
        self.mark_visible(id, false);
    }

    /// The extension reported these monitors. An empty report means that it did
    /// not answer, and leaves what is known.
    pub fn refresh_monitors(&mut self, monitors: Vec<Monitor>) -> (r: bool)
        ensures
            r == (monitors@.len() > 0),
            *final(self) == (if r {
                Session { monitors, ..*old(self) }
            } else {
                *old(self)
            }),
    {
        if monitors.len() > 0 {
            self.monitors = monitors;
            true
        } else {
            false
        }
    }
}

// ---- placing a window ----

/// An attempt to put a window where its note says.
#[derive(Debug)]
pub struct PlaceJob {
    pub path: String,
    pub placement: Placement,
    pub pinned: bool,
    /// How often it was tried in vain.
    pub failures: u32,
}

/// What to do next about a window.
#[derive(Debug, Clone, Copy, PartialEq, Eq, Structural)]
pub enum PlaceStep {
    /// It is in its place.
    Done,
    /// It is in its place, and is to be kept above others.
    Pin,
    /// Wait a little, and try again.
    Retry,
    /// Leave it where the compositor put it.
    GiveUp,
}

impl PlaceJob {
    /// Are there attempts left?
    pub open spec fn trying(self) -> bool {
        self.failures < PLACE_ATTEMPTS
    }

    /// Start placing the window at `path`. Without a path, or without monitors,
    /// the compositor decides.
    pub fn start(
        path: Option<String>,
        geometry: &NoteGeometry,
        pinned: bool,
        monitors: &[Monitor],
    ) -> (r: Option<PlaceJob>)
        ensures
            match r {
                Some(job) => {
                    &&& path == Some(job.path)
                    &&& geometry::resolved(*geometry, monitors@) == Some(job.placement@)
                    &&& job.pinned == pinned
                    &&& job.failures == 0
                },
                None => path is None || monitors@.len() == 0,
            },
            r is Some ==> monitors@.len() > 0,
    {
        proof {
            crate::model::geometry_laws::some_monitor_is_picked(
                geometry::remembered(geometry.monitor),
                monitors@,
            );
        }
        match path {
            Some(path) => match geometry::resolve(geometry, monitors) {
                Some(placement) => Some(PlaceJob { path, placement, pinned, failures: 0 }),
                None => None,
            },
            None => None,
        }
    }

    /// The extension was asked to place the window, and said whether it did.
    pub fn answered(&mut self, placed: bool) -> (r: PlaceStep)
        requires
            old(self).trying(),
        ensures
            *final(self) == (PlaceJob {
                failures: (old(self).failures + if placed {
                    0int
                } else {
                    1
                }) as u32,
                ..*old(self)
            }),
            r == (if placed {
                if old(self).pinned {
                    PlaceStep::Pin
                } else {
                    PlaceStep::Done
                }
            } else if final(self).trying() {
                PlaceStep::Retry
            } else {
                PlaceStep::GiveUp
            }),
    {
        if placed {
            if self.pinned {
                PlaceStep::Pin
            } else {
                PlaceStep::Done
            }
        } else {
            self.failures = self.failures + 1;
            if self.failures < PLACE_ATTEMPTS {
                PlaceStep::Retry
            } else {
                PlaceStep::GiveUp
            }
        }
    }

    /// What is written when a window could not be placed.
    pub fn give_up_text(&self) -> (r: String)
        ensures
            r@ == "gave up positioning "@ + self.path@ + " after "@ + text::decimal(
                PLACE_ATTEMPTS as int,
            ) + " attempts; the note is where the compositor put it"@,
    {
        let mut out = "gave up positioning ".to_owned();
        out.append(self.path.as_str());
        out.append(" after ");
        out.append(text::decimal_u64(PLACE_ATTEMPTS as u64).as_str());
        out.append(" attempts; the note is where the compositor put it");
        out
    }
}

// ---- saving ----

/// What a save comes to.
#[derive(Debug)]
pub enum SaveDecision {
    /// Nothing changed since the last one.
    Clean,
    /// Carry this out, and report how it went.
    Write(SavePlan),
    /// The store refuses; report that as how it went.
    Refused(StoreError),
}

/// What to tell about a save.
#[derive(Debug, PartialEq, Eq)]
pub struct SaveNews {
    /// A line for the log. Not repeated while the failure stays the same.
    pub warning: Option<String>,
    /// Tell the windows that `save_error` changed.
    pub tell_windows: bool,
}

/// What is written when saving fails.
pub open spec fn save_warning(message: Seq<char>) -> Seq<char> {
    "could not save notes: "@ + message
}

impl Session {
    /// Is there something to save, and may it be saved?
    pub fn save_now(&self) -> (r: SaveDecision)
        ensures
            match r {
                SaveDecision::Clean => !self.dirty,
                SaveDecision::Write(plan) => self.dirty && store::saves_as(plan, self.store@),
                SaveDecision::Refused(err) => {
                    &&& self.dirty
                    &&& self.store@.read_only
                    &&& err == StoreError::UnsupportedVersion((store::SCHEMA_VERSION + 1) as u32)
                },
            },
    {
        if !self.dirty {
            return SaveDecision::Clean;
        }
        match self.store.save() {
            Ok(plan) => SaveDecision::Write(plan),
            Err(err) => SaveDecision::Refused(err),
        }
    }

    /// A save went well or badly.
    ///
    /// Notes that do not reach the disk are worth interrupting for, so the
    /// windows are told; and told again when saving works once more.
    pub fn save_finished(&mut self, result: Result<(), StoreError>) -> (r: SaveNews)
        ensures
            *final(self) == (Session {
                dirty: final(self).dirty,
                save_error: final(self).save_error,
                ..*old(self)
            }),
            match result {
                Ok(_) => {
                    &&& !final(self).dirty
                    &&& final(self).save_error is None
                    &&& r.warning is None
                    &&& r.tell_windows == old(self).save_error is Some
                },
                Err(err) => {
                    &&& final(self).dirty == old(self).dirty
                    &&& text::optional_text(final(self).save_error) == Some(err.message())
                    &&& r.tell_windows == (text::optional_text(old(self).save_error) != Some(
                        err.message(),
                    ))
                    &&& text::optional_text(r.warning) == if r.tell_windows {
                        Some(save_warning(err.message()))
                    } else {
                        None
                    }
                },
            },
    {
        match result {
            Ok(_) => {
                self.dirty = false;
                let told = self.save_error.is_some();
                self.save_error = None;
                SaveNews { warning: None, tell_windows: told }
            },
            Err(err) => {
                let message = err.describe();
                let known = match &self.save_error {
                    Some(last) => *last == message,
                    None => false,
                };
                if known {
                    return SaveNews { warning: None, tell_windows: false };
                }
                let mut line = "could not save notes: ".to_owned();
                line.append(message.as_str());
                self.save_error = Some(message);
                SaveNews { warning: Some(line), tell_windows: true }
            },
        }
    }

    // ---- quitting ----

    /// After a note left the screen, is it worth looking whether any is left?
    /// With a tray icon there is still a way to reach the app, so it stays.
    pub fn may_quit(&self, tray: bool) -> (r: bool)
        ensures
            r == (!self.quitting && !tray),
    {
        !self.quitting && !tray
    }

    /// Is it time to quit? With no note on screen there is nothing to interact
    /// with, and everything is on disk.
    pub fn should_quit(&self, any_visible: bool) -> (r: bool)
        ensures
            r == (!self.quitting && !any_visible),
    {
        !self.quitting && !any_visible
    }
}

// ---- opening a note ----

/// How to show a note.
#[derive(Debug, PartialEq, Eq)]
pub enum Opening {
    /// Its window is there already.
    Present,
    /// Make a window for this note.
    Build(Note),
    /// There is no such note.
    Missing,
}

impl Session {
    /// How to show a note, given whether it has a window.
    pub fn open_note(&self, id: &str, has_window: bool) -> (r: Opening)
        ensures
            match r {
                Opening::Present => has_window,
                Opening::Build(n) => !has_window && self.store@.note(id@) == Some(n),
                Opening::Missing => !has_window && self.store@.note(id@) is None,
            },
    {
        if has_window {
            return Opening::Present;
        }
        match self.store.get(id) {
            Some(n) => Opening::Build(n.clone()),
            None => Opening::Missing,
        }
    }

    /// Where a note wants to be, to place its window again after the monitors
    /// changed.
    pub fn geometry_of(&self, id: &str) -> (r: Option<NoteGeometry>)
        ensures
            match (r, self.store@.note(id@)) {
                (Some(g), Some(n)) => g == n.geometry,
                (None, None) => true,
                _ => false,
            },
    {
        match self.store.get(id) {
            Some(n) => Some(n.geometry.clone()),
            None => None,
        }
    }
}

// ---- the tray menu ----

/// What the menu says of the number of notes.
pub open spec fn count_text(total: int, on_screen: int) -> Seq<char> {
    if total == 0 {
        "No notes"@
    } else if total == 1 {
        "1 note"@
    } else {
        text::decimal(total) + " notes, "@ + text::decimal(on_screen) + " on screen"@
    }
}

/// The rows of the tray menu. Rows that can do nothing are disabled rather
/// than hidden: a menu that changes shape is harder to use.
pub open spec fn menu_rows(total: int, on_screen: int) -> Seq<Row> {
    seq![
        Row::Item { label: "New Note"@, action: "app.new-note"@, enabled: true },
        Row::Separator,
        Row::Info { label: count_text(total, on_screen) },
        Row::Item {
            label: "Show All Notes"@,
            action: "app.show-all"@,
            enabled: on_screen < total,
        },
        Row::Item { label: "Hide All Notes"@, action: "app.hide-all"@, enabled: on_screen > 0 },
        Row::Separator,
        Row::Item { label: "Keyboard Shortcuts"@, action: "app.shortcuts"@, enabled: true },
        Row::Item { label: "About Stickies"@, action: "app.about"@, enabled: true },
        Row::Item { label: "Quit"@, action: "app.quit"@, enabled: true },
    ]
}

fn count_label(total: usize, on_screen: usize) -> (r: String)
    ensures
        r@ == count_text(total as int, on_screen as int),
{
    if total == 0 {
        "No notes".to_owned()
    } else if total == 1 {
        "1 note".to_owned()
    } else {
        let mut out = text::decimal_u64(total as u64);
        out.append(" notes, ");
        out.append(text::decimal_u64(on_screen as u64).as_str());
        out.append(" on screen");
        out
    }
}

fn item_if(label: &str, action: &str, enabled: bool) -> (r: MenuEntry)
    ensures
        r@ == (Row::Item { label: label@, action: action@, enabled }),
{
    if enabled {
        MenuEntry::item(label, action)
    } else {
        MenuEntry::disabled(label, action)
    }
}

impl Session {
    /// The rows of the tray menu, with this many notes on screen.
    pub fn tray_entries(&self, on_screen: usize) -> (r: Vec<MenuEntry>)
        ensures
            tray::rows(r@) == menu_rows(self.store@.notes.len() as int, on_screen as int),
    {
        let total: usize = self.store.len();
        let label = count_label(total, on_screen);
        let mut out: Vec<MenuEntry> = Vec::new();
        out.push(MenuEntry::item("New Note", "app.new-note"));
        out.push(MenuEntry::Separator);
        out.push(MenuEntry::info(label.as_str()));
        out.push(item_if("Show All Notes", "app.show-all", on_screen < total));
        out.push(item_if("Hide All Notes", "app.hide-all", on_screen > 0));
        out.push(MenuEntry::Separator);
        out.push(MenuEntry::item("Keyboard Shortcuts", "app.shortcuts"));
        out.push(MenuEntry::item("About Stickies", "app.about"));
        out.push(MenuEntry::item("Quit", "app.quit"));
        assert(tray::rows(out@) =~= menu_rows(self.store@.notes.len() as int, on_screen as int));
        out
    }
}

/// The bare name of an action of the application.
pub open spec fn bare_action(action: Seq<char>) -> Seq<char> {
    if text::occurs_at(action, 0, "app."@) {
        action.skip(4)
    } else {
        action
    }
}

/// The bare name of a detailed action name such as `"app.new-note"`, which is
/// what the action group goes by.
pub fn action_name(action: &str) -> (r: String)
    ensures
        r@ == bare_action(action@),
{
    let chars = text::chars_of(action);
    proof {
        reveal_strlit("app.");
    }
    if chars.len() >= 4 && chars[0] == 'a' && chars[1] == 'p' && chars[2] == 'p' && chars[3] == '.' {
        assert(action@.subrange(0, 4) =~= "app."@);
        let rest = text::string_of(chars.as_slice(), 4, chars.len());
        assert(rest@ =~= action@.skip(4));
        rest
    } else {
        proof {
            if text::occurs_at(action@, 0, "app."@) {
                let front = action@.subrange(0, 4);
                assert(front[0] == 'a' && front[1] == 'p' && front[2] == 'p' && front[3] == '.');
            }
        }
        action.to_owned()
    }
}

// ---- the command line ----

/// What the command line asks for.
#[derive(Debug, Clone, Copy, PartialEq, Eq, Structural)]
pub struct Options {
    pub diagnose: bool,
    pub new_note: bool,
    pub show_all: bool,
}

/// One thing to do for the command line.
#[derive(Debug, Clone, Copy, PartialEq, Eq, Structural)]
pub enum Command {
    Diagnose,
    NewNote,
    ShowAll,
    Activate,
}

/// What to do for the command line, in order. A diagnosis is all that is done;
/// with nothing asked for, the app comes to the front.
pub open spec fn commands(o: Options) -> Seq<Command> {
    if o.diagnose {
        seq![Command::Diagnose]
    } else if o.new_note && o.show_all {
        seq![Command::NewNote, Command::ShowAll]
    } else if o.new_note {
        seq![Command::NewNote]
    } else if o.show_all {
        seq![Command::ShowAll]
    } else {
        seq![Command::Activate]
    }
}

/// What to do for the command line, in order.
pub fn command_line(options: Options) -> (r: Vec<Command>)
    ensures
        r@ == commands(options),
{
    let mut out: Vec<Command> = Vec::new();
    if options.diagnose {
        out.push(Command::Diagnose);
    } else {
        if options.new_note {
            out.push(Command::NewNote);
        }
        if options.show_all {
            out.push(Command::ShowAll);
        }
        if out.len() == 0 {
            out.push(Command::Activate);
        }
    }
    assert(out@ =~= commands(options));
    out
}

// ---- messages ----

/// What is written of notes that could not be read.
pub open spec fn unread_text(reason: Seq<char>, kept_at: Seq<char>) -> Seq<char> {
    "could not read notes ("@ + reason + "); previous file kept at "@ + kept_at
}

/// What to write of notes that could not be read.
pub fn describe_unread(reason: &str, kept_at: &str) -> (r: String)
    ensures
        r@ == unread_text(reason@, kept_at@),
{
    let mut out = "could not read notes (".to_owned();
    out.append(reason);
    out.append("); previous file kept at ");
    out.append(kept_at);
    out
}

/// What is written when the notes were opened, if anything.
pub open spec fn load_warning_text(outcome: LoadOutcome) -> Option<Seq<char>> {
    match outcome {
        LoadOutcome::Recovered { backup, reason } => Some(
            unread_text(reason@, paths::shown(paths::path_bytes(backup))),
        ),
        _ => None,
    }
}

/// What to write after the notes were opened, if anything.
pub fn load_warning(outcome: &LoadOutcome) -> (r: Option<String>)
    ensures
        text::optional_text(r) == load_warning_text(*outcome),
{
    match outcome {
        LoadOutcome::Recovered { backup, reason } => {
            let kept_at = paths::display(backup);
            Some(describe_unread(reason.as_str(), kept_at.as_str()))
        },
        _ => None,
    }
}

/// What the about dialog says of the extension.
pub fn extension_status(available: bool) -> (r: &'static str)
    ensures
        r@ == if available {
            "Shell extension: connected"@
        } else {
            "Shell extension: not detected — notes will not be repositioned"@
        },
{
    if available {
        "Shell extension: connected"
    } else {
        "Shell extension: not detected — notes will not be repositioned"
    }
}

} // verus!
