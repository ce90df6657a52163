//! What holds of a session as a whole.

use crate::model::geometry::Placement;
use crate::clock;
use crate::model::note;
use crate::model::note::{Note, Palette};
use crate::model::store;
use crate::model::store::{LoadOutcome, StoreView};
use crate::model::store_laws as laws;
use crate::paths;
use crate::search;
use crate::session;
use crate::text;
use std::time::SystemTime;
use vstd::prelude::*;

verus! {

/// Do both stores hold the same notes in the same order, by identifier, under
/// the same path?
pub open spec fn same_notes(a: StoreView, b: StoreView) -> bool {
    &&& a.path == b.path
    &&& a.read_only == b.read_only
    &&& a.notes.len() == b.notes.len()
    &&& forall|i: int| 0 <= i < a.notes.len() ==> (#[trigger] a.notes[i]).id@ == b.notes[i].id@
}

/// A note that is rewritten is found as rewritten, and nothing else changes.
pub proof fn rewriting_touches_one_note(s: StoreView, id: Seq<char>, note: Note, other: Seq<char>)
    requires
        s.note(id) is Some,
        note.id@ == id,
        other != id,
    ensures
        session::rewritten(s, id, note).note(id) == Some(note),
        session::rewritten(s, id, note).note(other) == s.note(other),
        same_notes(s, session::rewritten(s, id, note)),
{
    laws::lemma_index_of(s.notes, id);
    laws::a_stored_note_is_found(s, note);
    laws::storing_leaves_other_notes_alone(s, note, other);
    assert(session::rewritten(s, id, note) == s.upserted(note));
}

proof fn lemma_marked(s: (StoreView, bool), id: Seq<char>, visible: bool)
    ensures
        ({
            let after = session::marked(s, id, visible);
            &&& same_notes(s.0, after.0)
            &&& forall|i: int|
                0 <= i < s.0.notes.len() ==> #[trigger] after.0.notes[i] == (Note {
                    visible: if store::index_of(s.0.notes, id) == Some(i) {
                        visible
                    } else {
                        s.0.notes[i].visible
                    },
                    ..s.0.notes[i]
                })
        }),
{
    laws::lemma_index_of(s.0.notes, id);
}

/// Putting a note away deletes nothing and changes nothing but whether it is
/// on screen, and where.
pub proof fn putting_away_never_deletes(
    s: (StoreView, bool),
    id: Seq<char>,
    found: Option<Placement>,
    i: int,
)
    requires
        0 <= i < s.0.notes.len(),
    ensures
        ({
            let seen = match found {
                Some(p) => session::recorded(s, id, p),
                None => s,
            };
            let after = session::marked(seen, id, false).0;
            let n = after.notes[i];
            &&& same_notes(s.0, after)
            &&& n == (Note { visible: n.visible, geometry: n.geometry, ..s.0.notes[i] })
        }),
{
    laws::lemma_index_of(s.0.notes, id);
    let seen = match found {
        Some(p) => session::recorded(s, id, p),
        None => s,
    };
    lemma_marked(seen, id, false);
    let k = seen.0.notes[i];
    assert(k == (Note { geometry: k.geometry, ..s.0.notes[i] }));
}

/// Recording where a window is changes nothing but that note's geometry, and
/// recording it again changes nothing at all.
pub proof fn recording_is_idempotent(s: (StoreView, bool), id: Seq<char>, p: Placement)
    ensures
        session::recorded(session::recorded(s, id, p), id, p) == session::recorded(s, id, p),
        same_notes(s.0, session::recorded(s, id, p).0),
        s.0.note(id) matches Some(n) ==> session::recorded(s, id, p).0.note(id) matches Some(m)
            && m == (Note { geometry: m.geometry, ..n }) && !session::moved(m.geometry, p),
{
    laws::lemma_index_of(s.0.notes, id);
    if let Some(n) = s.0.note(id) {
        if session::moved(n.geometry, p) {
            let there = Note { geometry: session::geometry_at(p), ..n };
            laws::a_stored_note_is_found(s.0, there);
            assert(session::rewritten(s.0, id, there) == s.0.upserted(there));
        }
    }
}

// ---- what is to be saved ----

/// Is everything that changed from `before` to `after` still to be saved?
pub open spec fn remembered(before: (StoreView, bool), after: (StoreView, bool)) -> bool {
    &&& before.1 ==> after.1
    &&& after.0 != before.0 ==> after.1
}

/// A change to the store is never forgotten: whoever shows, hides or moves
/// notes leaves the session to be saved if anything changed, and never takes
/// back that something is to be saved.
pub proof fn changes_are_never_forgotten(
    s: (StoreView, bool),
    id: Seq<char>,
    visible: bool,
    ids: Seq<Seq<char>>,
    p: Placement,
    windows: Seq<session::OpenWindow>,
    found: Seq<(String, Placement)>,
)
    ensures
        remembered(s, session::marked(s, id, visible)),
        remembered(s, session::all_shown(s, ids)),
        remembered(s, session::recorded(s, id, p)),
        remembered(s, session::all_recorded(s, windows, found, found.len() as int)),
{
    lemma_showing_is_remembered(s, ids);
    lemma_recording_is_remembered(s, windows, found, found.len() as int);
}

proof fn lemma_showing_is_remembered(s: (StoreView, bool), ids: Seq<Seq<char>>)
    ensures
        remembered(s, session::all_shown(s, ids)),
    decreases ids.len(),
{
    if ids.len() > 0 {
        lemma_showing_is_remembered(s, ids.drop_last());
    }
}

proof fn lemma_recording_is_remembered(
    s: (StoreView, bool),
    windows: Seq<session::OpenWindow>,
    found: Seq<(String, Placement)>,
    n: int,
)
    ensures
        remembered(s, session::all_recorded(s, windows, found, n)),
    decreases n,
{
    if n > 0 {
        lemma_recording_is_remembered(s, windows, found, n - 1);
    }
}

// ---- starting ----

/// A start always has something to open, unless there are no notes: and with
/// none on screen it is exactly one note, not all of them.
pub proof fn a_start_opens_something(notes: Seq<Note>)
    ensures
        notes.len() > 0 ==> session::restored_ids(notes).len() > 0,
        notes.len() == 0 ==> session::restored_ids(notes).len() == 0,
        session::visible_ids(notes).len() == 0 && notes.len() > 0 ==> session::restored_ids(
            notes,
        ).len() == 1,
{
    lemma_latest(notes, notes.len() as int);
}

proof fn lemma_latest(notes: Seq<Note>, n: int)
    requires
        0 <= n <= notes.len(),
    ensures
        match session::latest(notes, n) {
            Some(k) => 0 <= k < n && (forall|j: int|
                0 <= j < n ==> (#[trigger] notes[j]).modified <= notes[k].modified) && forall|
                j: int,
            |
                k < j < n ==> (#[trigger] notes[j]).modified < notes[k].modified,
            None => n == 0,
        },
    decreases n,
{
    if n > 0 {
        lemma_latest(notes, n - 1);
    }
}

/// With none on screen, the note that a start opens is the one changed last.
pub proof fn a_start_opens_the_latest_note(notes: Seq<Note>, i: int)
    requires
        session::visible_ids(notes).len() == 0,
        0 <= i < notes.len(),
    ensures
        session::latest(notes, notes.len() as int) matches Some(k) && 0 <= k < notes.len()
            && session::restored_ids(notes) == seq![notes[k].id@] && notes[i].modified
            <= notes[k].modified,
{
    lemma_latest(notes, notes.len() as int);
}

/// The notes that are on screen are exactly those listed.
pub proof fn visible_notes_are_listed(notes: Seq<Note>, i: int)
    requires
        0 <= i < notes.len(),
        notes[i].visible,
    ensures
        session::visible_ids(notes).contains(notes[i].id@),
    decreases notes.len(),
{
    let fewer = notes.drop_last();
    let before = session::visible_ids(fewer);
    if i < fewer.len() {
        visible_notes_are_listed(fewer, i);
        let k = choose|k: int| 0 <= k < before.len() && before[k] == notes[i].id@;
        assert(session::visible_ids(notes)[k] == notes[i].id@);
    } else {
        assert(session::visible_ids(notes)[before.len() as int] == notes[i].id@);
    }
}

proof fn lemma_all_shown(s: (StoreView, bool), ids: Seq<Seq<char>>)
    ensures
        ({
            let after = session::all_shown(s, ids).0;
            &&& same_notes(s.0, after)
            &&& forall|i: int|
                0 <= i < s.0.notes.len() ==> {
                    let n = #[trigger] after.notes[i];
                    n == (Note { visible: n.visible, ..s.0.notes[i] }) && (s.0.notes[i].visible
                        ==> n.visible)
                }
        }),
    decreases ids.len(),
{
    if ids.len() > 0 {
        let before = session::all_shown(s, ids.drop_last());
        lemma_all_shown(s, ids.drop_last());
        lemma_marked(before, ids.last(), true);
        let after = session::all_shown(s, ids).0;
        assert forall|i: int| 0 <= i < s.0.notes.len() implies {
            let n = #[trigger] after.notes[i];
            n == (Note { visible: n.visible, ..s.0.notes[i] }) && (s.0.notes[i].visible
                ==> n.visible)
        } by {
            let m = before.0.notes[i];
            assert(m == (Note { visible: m.visible, ..s.0.notes[i] }));
        }
    }
}

/// Showing notes creates and deletes nothing, takes none off the screen, and
/// changes nothing else about them.
pub proof fn showing_only_shows(s: (StoreView, bool), ids: Seq<Seq<char>>, i: int)
    requires
        0 <= i < s.0.notes.len(),
    ensures
        same_notes(s.0, session::all_shown(s, ids).0),
        ({
            let n = session::all_shown(s, ids).0.notes[i];
            n == (Note { visible: n.visible, ..s.0.notes[i] }) && (s.0.notes[i].visible
                ==> n.visible)
        }),
{
    lemma_all_shown(s, ids);
}

/// A note that is shown is on screen afterwards.
pub proof fn shown_notes_are_on_screen(s: (StoreView, bool), ids: Seq<Seq<char>>, i: int)
    requires
        laws::ids_are_distinct(s.0.notes),
        0 <= i < s.0.notes.len(),
        ids.contains(s.0.notes[i].id@),
    ensures
        session::all_shown(s, ids).0.notes[i].visible,
    decreases ids.len(),
{
    let before = session::all_shown(s, ids.drop_last());
    lemma_all_shown(s, ids.drop_last());
    lemma_marked(before, ids.last(), true);
    let at = choose|k: int| 0 <= k < ids.len() && ids[k] == s.0.notes[i].id@;
    if at < ids.len() - 1 {
        assert(ids.drop_last()[at] == s.0.notes[i].id@);
        shown_notes_are_on_screen(s, ids.drop_last(), i);
        assert(before.0.notes[i].visible);
    } else {
        let id = ids.last();
        laws::lemma_index_of(before.0.notes, id);
        assert(before.0.notes[i].id@ == id);
        let k = store::index_of(before.0.notes, id)->0;
        assert(before.0.notes[k].id@ == id);
        assert(s.0.notes[k].id@ == id);
        if k < i {
            assert(s.0.notes[k].id@ != s.0.notes[i].id@);
        } else if i < k {
            assert(s.0.notes[i].id@ != s.0.notes[k].id@);
        }
        assert(k == i);
    }
}

/// "Show All Notes" leaves every note on screen.
pub proof fn show_all_shows_all(s: (StoreView, bool), i: int)
    requires
        laws::ids_are_distinct(s.0.notes),
        0 <= i < s.0.notes.len(),
    ensures
        session::all_shown(s, session::all_ids(s.0.notes)).0.notes[i].visible,
{
    let ids = session::all_ids(s.0.notes);
    assert(ids[i] == s.0.notes[i].id@);
    shown_notes_are_on_screen(s, ids, i);
}

// ---- new notes ----

/// A copy looks like its source and has its own identifier; it is neither
/// pinned nor in the same place.
pub proof fn a_copy_is_a_new_note(source: Note, id: String, now: i64)
    ensures
        ({
            let copy = session::copied(source, id, now);
            &&& copy.id == id
            &&& copy.body == source.body
            &&& copy.palette == source.palette
            &&& copy.geometry.monitor == source.geometry.monitor
            &&& copy.geometry.x == 0 && copy.geometry.y == 0
            &&& !copy.pinned
            &&& copy.visible
            &&& copy.created == now && copy.modified == now
        }),
{
}

// ---- one note at a time ----

/// Rewriting a note changes the first with its identifier and no other.
pub proof fn one_note_is_rewritten(s: StoreView, id: Seq<char>, note: Note, k: int)
    ensures
        ({
            let after = session::rewritten(s, id, note);
            &&& after.path == s.path && after.read_only == s.read_only
            &&& after.notes.len() == s.notes.len()
            &&& laws::first_with(s.notes, id, k) ==> after.notes[k] == note && forall|i: int|
                0 <= i < s.notes.len() && i != k ==> #[trigger] after.notes[i] == s.notes[i]
            &&& laws::none_with(s.notes, id) ==> after == s
        }),
{
    laws::notes_are_found_by_identifier(s, id, k);
    laws::lemma_index_of(s.notes, id);
}

/// Marking a note as on screen or off it sets just that, on that note alone.
/// It is to be saved if it was otherwise before.
pub proof fn marking_sets_whether_a_note_shows(
    s: (StoreView, bool),
    id: Seq<char>,
    visible: bool,
    k: int,
    i: int,
)
    requires
        laws::first_with(s.0.notes, id, k),
        0 <= i < s.0.notes.len(),
    ensures
        ({
            let after = session::marked(s, id, visible);
            &&& same_notes(s.0, after.0)
            &&& after.0.notes[k] == (Note { visible, ..s.0.notes[k] })
            &&& i != k ==> after.0.notes[i] == s.0.notes[i]
            &&& after.1 == (s.1 || s.0.notes[k].visible != visible)
        }),
{
    laws::notes_are_found_by_identifier(s.0, id, k);
    lemma_marked(s, id, visible);
}

/// Where a window was found is remembered in every respect: the monitor, both
/// coordinates and both sides. Nothing else about the note changes, and no
/// other note does. It is to be saved if any of the five was otherwise before.
pub proof fn places_and_sizes_are_remembered(
    s: (StoreView, bool),
    id: Seq<char>,
    p: Placement,
    k: int,
    i: int,
)
    requires
        laws::first_with(s.0.notes, id, k),
        0 <= i < s.0.notes.len(),
    ensures
        ({
            let after = session::recorded(s, id, p);
            let was = s.0.notes[k].geometry;
            let is = after.0.notes[k].geometry;
            &&& same_notes(s.0, after.0)
            &&& is.monitor is Some && is.monitor->0@ == p.connector@
            &&& is.x == p.x && is.y == p.y
            &&& is.width == p.width && is.height == p.height
            &&& after.0.notes[k] == (Note { geometry: is, ..s.0.notes[k] })
            &&& i != k ==> after.0.notes[i] == s.0.notes[i]
            &&& after.1 == (s.1 || was.monitor is None || was.monitor->0@ != p.connector@ || was.x
                != p.x || was.y != p.y || was.width != p.width || was.height != p.height)
        }),
{
    laws::notes_are_found_by_identifier(s.0, id, k);
}

/// A window or a note that is not there changes nothing.
pub proof fn missing_notes_change_nothing(
    s: (StoreView, bool),
    id: Seq<char>,
    p: Placement,
    visible: bool,
)
    requires
        laws::none_with(s.0.notes, id),
    ensures
        session::recorded(s, id, p) == s,
        session::marked(s, id, visible) == s,
{
    laws::notes_are_found_by_identifier(s.0, id, 0);
}

/// Is `k` the first window known by this path?
pub open spec fn window_at(windows: Seq<session::OpenWindow>, path: Seq<char>, k: int) -> bool {
    &&& 0 <= k < windows.len() && windows[k].path@ == path
    &&& forall|j: int| 0 <= j < k ==> (#[trigger] windows[j]).path@ != path
}

/// What the compositor reports is recorded one window after another, each for
/// the note that the window with that path shows. Windows of others are passed
/// over.
pub proof fn every_reported_window_is_recorded(
    s: (StoreView, bool),
    windows: Seq<session::OpenWindow>,
    found: Seq<(String, Placement)>,
    n: int,
    k: int,
)
    requires
        0 <= n < found.len(),
    ensures
        session::all_recorded(s, windows, found, 0) == s,
        ({
            let before = session::all_recorded(s, windows, found, n);
            let after = session::all_recorded(s, windows, found, n + 1);
            &&& window_at(windows, found[n].0@, k) ==> after == session::recorded(
                before,
                windows[k].note@,
                found[n].1,
            )
            &&& (forall|j: int| 0 <= j < windows.len() ==> (#[trigger] windows[j]).path@
                != found[n].0@) ==> after == before
        }),
{
    let wanted = session::known_by(found[n].0@);
    search::lemma_first_from(windows, wanted, 0);
    if window_at(windows, found[n].0@, k) {
        assert forall|j: int| 0 <= j < k implies !#[trigger] wanted(windows[j]) by {}
        assert(wanted(windows[k]));
        search::lemma_is_first(windows, wanted, k);
    }
    if forall|j: int| 0 <= j < windows.len() ==> (#[trigger] windows[j]).path@ != found[n].0@ {
        if let Some(j) = search::first_where(windows, wanted) {
            assert(wanted(windows[j]));
            assert(windows[j].path@ == found[n].0@);
        }
    }
}

// ---- what a start opens, by the notes themselves ----

/// Are these, in order, the positions of the notes that are on screen?
pub open spec fn on_screen(notes: Seq<Note>, positions: Seq<int>) -> bool {
    &&& forall|j: int, k: int|
        0 <= j < k < positions.len() ==> #[trigger] positions[j] < #[trigger] positions[k]
    &&& forall|i: int| #[trigger]
        positions.contains(i) <==> 0 <= i < notes.len() && notes[i].visible
}

spec fn visible_positions(notes: Seq<Note>, n: int) -> Seq<int>
    decreases n,
{
    if n <= 0 {
        seq![]
    } else if notes[n - 1].visible {
        visible_positions(notes, n - 1).push(n - 1)
    } else {
        visible_positions(notes, n - 1)
    }
}

proof fn lemma_visible_positions(notes: Seq<Note>, n: int)
    requires
        0 <= n <= notes.len(),
    ensures
        ({
            let p = visible_positions(notes, n);
            &&& session::visible_ids(notes.take(n)) == p.map_values(|i: int| notes[i].id@)
            &&& forall|j: int, k: int| 0 <= j < k < p.len() ==> #[trigger] p[j] < #[trigger] p[k]
            &&& forall|i: int| #[trigger] p.contains(i) <==> 0 <= i < n && notes[i].visible
        }),
    decreases n,
{
    let p = visible_positions(notes, n);
    if n > 0 {
        lemma_visible_positions(notes, n - 1);
        let q = visible_positions(notes, n - 1);
        assert(notes.take(n).drop_last() =~= notes.take(n - 1));
        assert forall|j: int| 0 <= j < q.len() implies #[trigger] q[j] < n - 1 by {
            assert(q.contains(q[j]));
        }
        if notes[n - 1].visible {
            assert(p[q.len() as int] == n - 1);
            assert forall|i: int| #[trigger] p.contains(i) <==> 0 <= i < n && notes[i].visible by {
                if p.contains(i) {
                    let k = choose|k: int| 0 <= k < p.len() && p[k] == i;
                    if k < q.len() {
                        assert(q[k] == i);
                        assert(q.contains(i));
                    }
                }
                if 0 <= i < n - 1 && notes[i].visible {
                    assert(q.contains(i));
                    let k = choose|k: int| 0 <= k < q.len() && q[k] == i;
                    assert(p[k] == i);
                }
            }
            assert(q.push(n - 1).map_values(|i: int| notes[i].id@) =~= q.map_values(
                |i: int| notes[i].id@,
            ).push(notes[n - 1].id@));
        }
    } else {
        assert(notes.take(0) =~= seq![]);
        assert(p.map_values(|i: int| notes[i].id@) =~= seq![]);
    }
}

/// A start brings back the notes that are on screen and no other, in their
/// order: as many as there are.
pub proof fn a_start_brings_back_what_is_on_screen(notes: Seq<Note>) -> (positions: Seq<int>)
    ensures
        on_screen(notes, positions),
        session::visible_ids(notes) == positions.map_values(|i: int| notes[i].id@),
        positions.len() > 0 ==> session::restored_ids(notes) == positions.map_values(
            |i: int| notes[i].id@,
        ),
{
    lemma_visible_positions(notes, notes.len() as int);
    assert(notes.take(notes.len() as int) =~= notes);
    visible_positions(notes, notes.len() as int)
}

/// With no note on screen, a start brings back exactly one: the one that was
/// changed last, and the later one of two changed at once. With no note at all
/// it brings back none.
pub proof fn a_start_brings_back_the_latest_note(notes: Seq<Note>, k: int)
    requires
        forall|i: int| 0 <= i < notes.len() ==> !(#[trigger] notes[i]).visible,
    ensures
        0 <= k < notes.len() && (forall|i: int|
            0 <= i < notes.len() ==> (#[trigger] notes[i]).modified <= notes[k].modified && (i > k
                ==> notes[i].modified < notes[k].modified)) ==> session::restored_ids(notes)
            == seq![notes[k].id@],
        notes.len() == 0 ==> session::restored_ids(notes).len() == 0,
        notes.len() > 0 ==> session::restored_ids(notes).len() == 1,
{
    let p = a_start_brings_back_what_is_on_screen(notes);
    if p.len() > 0 {
        assert(p.contains(p[0]));
    }
    assert(session::visible_ids(notes).len() == 0);
    lemma_latest(notes, notes.len() as int);
    if 0 <= k < notes.len() && forall|i: int|
        0 <= i < notes.len() ==> (#[trigger] notes[i]).modified <= notes[k].modified && (i > k
            ==> notes[i].modified < notes[k].modified) {
        let j = session::latest(notes, notes.len() as int)->0;
        assert(notes[j].modified <= notes[k].modified);
        assert(notes[k].modified <= notes[j].modified);
    }
}

/// The list of all notes has each one's identifier, in order.
pub proof fn all_notes_are_listed(notes: Seq<Note>, i: int)
    ensures
        session::all_ids(notes).len() == notes.len(),
        0 <= i < notes.len() ==> session::all_ids(notes)[i] == notes[i].id@,
{
}

/// Showing some notes puts exactly those on screen, and leaves every other as
/// it is. It is to be saved if any of them was off screen.
pub proof fn exactly_the_named_notes_are_shown(s: (StoreView, bool), ids: Seq<Seq<char>>, i: int)
    requires
        0 <= i < s.0.notes.len(),
    ensures
        ({
            let after = session::all_shown(s, ids);
            &&& same_notes(s.0, after.0)
            &&& after.0.notes[i] == (Note {
                visible: s.0.notes[i].visible || (ids.contains(s.0.notes[i].id@)
                    && laws::first_with(s.0.notes, s.0.notes[i].id@, i)),
                ..s.0.notes[i]
            })
            &&& s.1 ==> after.1
            &&& after.0.notes[i] != s.0.notes[i] ==> after.1
        }),
    decreases ids.len(),
{
    let n = s.0.notes[i];
    lemma_all_shown(s, ids);
    lemma_showing_is_remembered(s, ids);
    if ids.len() > 0 {
        let front = ids.drop_last();
        let before = session::all_shown(s, front);
        exactly_the_named_notes_are_shown(s, front, i);
        lemma_all_shown(s, front);
        lemma_marked(before, ids.last(), true);
        laws::lemma_index_of(before.0.notes, ids.last());
        assert(forall|j: int| 0 <= j < s.0.notes.len() ==> (#[trigger] before.0.notes[j]).id@
            == s.0.notes[j].id@);
        assert(ids.contains(n.id@) == (front.contains(n.id@) || ids.last() == n.id@)) by {
            if ids.contains(n.id@) {
                let k = choose|k: int| 0 <= k < ids.len() && ids[k] == n.id@;
                if k < front.len() {
                    assert(front[k] == n.id@);
                }
            }
            if front.contains(n.id@) {
                let k = choose|k: int| 0 <= k < front.len() && front[k] == n.id@;
                assert(ids[k] == n.id@);
            }
            if ids.last() == n.id@ {
                assert(ids[ids.len() - 1] == n.id@);
            }
        }
        if ids.last() == n.id@ {
            assert(before.0.notes[i].id@ == n.id@);
            let k = store::index_of(before.0.notes, n.id@)->0;
            assert(before.0.notes[k].id@ == n.id@);
            if k == i {
                assert forall|j: int| 0 <= j < i implies (#[trigger] s.0.notes[j]).id@
                    != n.id@ by {
                    assert(before.0.notes[j].id@ != n.id@);
                }
                assert(laws::first_with(s.0.notes, n.id@, i));
            } else {
                assert(s.0.notes[k].id@ == n.id@);
                assert(!laws::first_with(s.0.notes, n.id@, i));
            }
        }
    } else {
        assert(session::all_shown(s, ids) == s);
    }
}

/// Nothing is to be saved on account of showing notes that are on screen.
pub proof fn showing_what_shows_changes_nothing(s: (StoreView, bool), ids: Seq<Seq<char>>)
    requires
        forall|i: int|
            0 <= i < s.0.notes.len() && ids.contains((#[trigger] s.0.notes[i]).id@)
                ==> s.0.notes[i].visible,
    ensures
        session::all_shown(s, ids) == s,
    decreases ids.len(),
{
    if ids.len() > 0 {
        let front = ids.drop_last();
        assert forall|i: int|
            0 <= i < s.0.notes.len() && front.contains((#[trigger] s.0.notes[i]).id@) implies
            s.0.notes[i].visible by {
            let k = choose|k: int| 0 <= k < front.len() && front[k] == s.0.notes[i].id@;
            assert(ids[k] == s.0.notes[i].id@);
        }
        showing_what_shows_changes_nothing(s, front);
        laws::lemma_index_of(s.0.notes, ids.last());
        if let Some(k) = store::index_of(s.0.notes, ids.last()) {
            assert(ids[ids.len() - 1] == s.0.notes[k].id@);
            assert(s.0.notes[k].visible);
        }
    }
}

/// A new note comes after the others and changes none of them. It is empty, on
/// screen, not pinned, was never placed, and is to be saved.
pub proof fn a_new_note_joins_the_others(
    before: session::Session,
    after: session::Session,
    id: Seq<char>,
    i: int,
)
    requires
        session::adds_note(before, after, id),
        laws::none_with(before.store@.notes, id),
    ensures
        ({
            let old_notes = before.store@.notes;
            let new_notes = after.store@.notes;
            let fresh = new_notes.last();
            &&& new_notes.len() == old_notes.len() + 1
            &&& 0 <= i < old_notes.len() ==> new_notes[i] == old_notes[i]
            &&& fresh.id@ == id && fresh.body@.len() == 0
            &&& fresh.visible && !fresh.pinned
            &&& fresh.geometry.monitor is None
            &&& fresh.geometry.width == 300 && fresh.geometry.height == 320
            &&& fresh.created == fresh.modified
            &&& forall|p: Palette|
                note::uses(old_notes, fresh.palette) <= #[trigger] note::uses(old_notes, p)
            &&& after.store@.path == before.store@.path
            &&& after.store@.read_only == before.store@.read_only
            &&& after.dirty && after.quitting == before.quitting
            &&& after.monitors == before.monitors
            &&& after.placement_available == before.placement_available
            &&& after.save_error == before.save_error
        }),
{
    let (fresh, at) = choose|fresh: Note, at: SystemTime|
        #![trigger before.store@.upserted(fresh), clock::epoch_nanos(at)]
        {
            &&& fresh.id@ == id
            &&& fresh.body@.len() == 0
            &&& fresh.created == note::timestamp(clock::epoch_nanos(at))
            &&& note::least_used(before.store@.notes, fresh.palette)
            &&& fresh == Note::blank(fresh.id, fresh.body, fresh.palette, fresh.created)
            &&& after.store@ == before.store@.upserted(fresh)
        };
    laws::notes_are_stored_in_their_place(before.store@, fresh, 0, i);
}

/// A copy has the size of a new note.
pub proof fn a_copy_has_the_usual_size(source: Note, id: String, now: i64)
    ensures
        session::copied(source, id, now).geometry.width == 300,
        session::copied(source, id, now).geometry.height == 320,
{
}

// ---- menus, commands and messages ----

/// The tray menu's rows, which of them can be clicked, and what each does.
/// "Show All" can while a note is off screen, "Hide All" while one is on it,
/// and everything else always.
pub proof fn the_menu_offers_what_can_be_done(total: int, on_screen: int)
    ensures
        ({
            let rows = session::menu_rows(total, on_screen);
            let does = |i: int, label: Seq<char>, action: Seq<char>, enabled: bool|
                rows[i] is Item && rows[i]->Item_label == label && rows[i]->Item_action == action
                    && rows[i]->enabled == enabled;
            &&& rows.len() == 9
            &&& does(0, "New Note"@, "app.new-note"@, true)
            &&& rows[1] is Separator
            &&& rows[2] is Info && rows[2]->Info_label == session::count_text(total, on_screen)
            &&& does(3, "Show All Notes"@, "app.show-all"@, on_screen < total)
            &&& does(4, "Hide All Notes"@, "app.hide-all"@, on_screen > 0)
            &&& rows[5] is Separator
            &&& does(6, "Keyboard Shortcuts"@, "app.shortcuts"@, true)
            &&& does(7, "About Stickies"@, "app.about"@, true)
            &&& does(8, "Quit"@, "app.quit"@, true)
        }),
{
}

/// The menu says how many notes there are, and of two or more how many of them
/// are on screen.
pub proof fn the_menu_counts_the_notes(total: int, on_screen: int)
    ensures
        total == 0 ==> session::count_text(total, on_screen) == "No notes"@,
        total == 1 ==> session::count_text(total, on_screen) == "1 note"@,
        total >= 2 && on_screen >= 0 ==> session::count_text(total, on_screen) == text::numeral(
            total,
            10,
        ) + " notes, "@ + text::numeral(on_screen, 10) + " on screen"@,
{
}

/// What the command line asks for is done, and nothing else. A diagnosis is
/// all that is done; asked for nothing, the app comes to the front.
pub proof fn the_command_line_is_obeyed(o: session::Options)
    ensures
        ({
            let c = session::commands(o);
            let asks = |what: session::Command| exists|i: int| 0 <= i < c.len() && c[i] == what;
            &&& asks(session::Command::Diagnose) == o.diagnose
            &&& asks(session::Command::NewNote) == (o.new_note && !o.diagnose)
            &&& asks(session::Command::ShowAll) == (o.show_all && !o.diagnose)
            &&& asks(session::Command::Activate) == (!o.diagnose && !o.new_note && !o.show_all)
            &&& forall|i: int, j: int| 0 <= i < j < c.len() ==> #[trigger] c[i] != #[trigger] c[j]
            &&& c.len() == 2 ==> c[0] == session::Command::NewNote
        }),
{
    let c = session::commands(o);
    assert(c.len() > 0 && c[0] == c[0]);
    if c.len() > 1 {
        assert(c[1] == session::Command::ShowAll);
    }
}

/// The bare name of `app.x` is `x`. A name of another group is left alone.
pub proof fn bare_names_lose_the_group(name: Seq<char>)
    ensures
        session::bare_action("app."@ + name) == name,
        !(name.len() >= 4 && name[0] == 'a' && name[1] == 'p' && name[2] == 'p' && name[3] == '.')
            ==> session::bare_action(name) == name,
{
    reveal_strlit("app.");
    let full = "app."@ + name;
    assert(full.subrange(0, 4) =~= "app."@);
    assert(full.skip(4) =~= name);
    if text::occurs_at(name, 0, "app."@) {
        let front = name.subrange(0, 4);
        assert(front[0] == 'a' && front[1] == 'p' && front[2] == 'p' && front[3] == '.');
    }
}

/// A window that cannot be placed is tried twelve times, 70 milliseconds apart.
/// What changed is saved every two seconds.
pub proof fn placing_is_tried_twelve_times(job: session::PlaceJob)
    ensures
        job.trying() <==> job.failures < 12,
        session::PLACE_ATTEMPTS == 12,
        session::PLACE_RETRY_MS == 70,
        session::TICK_SECONDS == 2,
{
}

/// A warning says what went wrong, and where the file is.
pub proof fn warnings_say_what_went_wrong(message: Seq<char>, kept_at: Seq<char>)
    ensures
        session::save_warning(message) == "could not save notes: "@ + message,
        session::unread_text(message, kept_at) == "could not read notes ("@ + message
            + "); previous file kept at "@ + kept_at,
{
}

/// Notes that could be read, or that are yet to be written, are no reason for a
/// warning; a file that could not be used is, with the reason and its place.
pub proof fn only_lost_files_are_warned_about(outcome: LoadOutcome)
    ensures
        match outcome {
            LoadOutcome::Recovered { backup, reason } => session::load_warning_text(outcome)
                == Some(
                session::unread_text(reason@, paths::shown(paths::path_bytes(backup))),
            ),
            _ => session::load_warning_text(outcome) is None,
        },
{
}

} // verus!
