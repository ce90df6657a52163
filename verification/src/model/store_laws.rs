//! What holds of the store as a whole.

use crate::model::note::Note;
use crate::model::store;
use crate::model::store::{
    Contents, Opened, SavePlan, SaveStep, Step, StoreError, StoreView, SCHEMA_VERSION,
};
use crate::paths;
use crate::search;
use crate::text;
use vstd::prelude::*;
use vstd::utf8::encode_utf8;

verus! {

// ---- notes by identifier ----

/// Is every identifier the name of one note?
pub open spec fn ids_are_distinct(notes: Seq<Note>) -> bool {
    forall|i: int, j: int|
        0 <= i < j < notes.len() ==> (#[trigger] notes[i]).id@ != (#[trigger] notes[j]).id@
}

/// The index of a note, said without recursion.
pub proof fn lemma_index_of(notes: Seq<Note>, id: Seq<char>)
    ensures
        match store::index_of(notes, id) {
            Some(k) => 0 <= k < notes.len() && notes[k].id@ == id && forall|j: int|
                0 <= j < k ==> (#[trigger] notes[j]).id@ != id,
            None => forall|j: int| 0 <= j < notes.len() ==> (#[trigger] notes[j]).id@ != id,
        },
{
    let wanted = store::with_id(id);
    search::lemma_first_from(notes, wanted, 0);
    assert forall|j: int| 0 <= j < notes.len() implies wanted(#[trigger] notes[j]) == (notes[j].id@
        == id) by {}
    match store::index_of(notes, id) {
        Some(k) => {
            assert forall|j: int| 0 <= j < k implies (#[trigger] notes[j]).id@ != id by {
                assert(!wanted(notes[j]));
            }
        },
        None => {
            assert forall|j: int| 0 <= j < notes.len() implies (#[trigger] notes[j]).id@ != id by {
                assert(!wanted(notes[j]));
            }
        },
    }
}

/// With distinct identifiers, a note is where it is.
proof fn lemma_found(notes: Seq<Note>, k: int)
    requires
        ids_are_distinct(notes),
        0 <= k < notes.len(),
    ensures
        store::index_of(notes, notes[k].id@) == Some(k),
{
    lemma_index_of(notes, notes[k].id@);
}

/// What was stored is what is found.
pub proof fn a_stored_note_is_found(s: StoreView, note: Note)
    ensures
        s.upserted(note).note(note.id@) == Some(note),
{
    lemma_index_of(s.notes, note.id@);
    lemma_index_of(s.upserted(note).notes, note.id@);
    let k = match store::index_of(s.notes, note.id@) {
        Some(k) => k,
        None => s.notes.len() as int,
    };
    assert(s.upserted(note).notes[k] == note);
    assert forall|j: int| 0 <= j < k implies (#[trigger] s.upserted(note).notes[j]).id@
        != note.id@ by {
        assert(s.upserted(note).notes[j] == s.notes[j]);
    }
}

/// Storing a note leaves every other note alone.
pub proof fn storing_leaves_other_notes_alone(s: StoreView, note: Note, id: Seq<char>)
    requires
        id != note.id@,
    ensures
        s.upserted(note).note(id) == s.note(id),
        s.upserted(note).path == s.path,
        s.upserted(note).read_only == s.read_only,
{
    let after = s.upserted(note);
    lemma_index_of(s.notes, note.id@);
    lemma_index_of(s.notes, id);
    lemma_index_of(after.notes, id);
    assert forall|j: int| 0 <= j < s.notes.len() && (#[trigger] s.notes[j]).id@ == id implies
        after.notes[j] == s.notes[j] by {}
    assert forall|j: int| 0 <= j < after.notes.len() && (#[trigger] after.notes[j]).id@ == id implies
        j < s.notes.len() && s.notes[j] == after.notes[j] by {}
    match store::index_of(s.notes, id) {
        Some(k) => {
            assert(after.notes[k] == s.notes[k]);
            let found = store::index_of(after.notes, id)->0;
            assert(after.notes[found].id@ == id);
            assert(found == k);
        },
        None => {
            if let Some(found) = store::index_of(after.notes, id) {
                assert(after.notes[found].id@ == id);
            }
        },
    }
}

/// Storing replaces rather than duplicates: identifiers stay distinct, and
/// the store grows only by a note it did not have.
pub proof fn storing_never_duplicates(s: StoreView, note: Note)
    requires
        ids_are_distinct(s.notes),
    ensures
        ids_are_distinct(s.upserted(note).notes),
        s.upserted(note).notes.len() == s.notes.len() + if s.note(note.id@) is None {
            1int
        } else {
            0
        },
{
    lemma_index_of(s.notes, note.id@);
    let after = s.upserted(note).notes;
    assert forall|i: int, j: int| 0 <= i < j < after.len() implies (#[trigger] after[i]).id@ != (
    #[trigger] after[j]).id@ by {
        if i < s.notes.len() && j < s.notes.len() {
            assert(s.notes[i].id@ != s.notes[j].id@);
        }
    }
}

/// A removed note is gone, and every other note is left alone.
pub proof fn a_removed_note_is_gone(s: StoreView, id: Seq<char>, other: Seq<char>)
    requires
        ids_are_distinct(s.notes),
        other != id,
    ensures
        s.removed(id).note(id) is None,
        s.removed(id).note(other) == s.note(other),
        ids_are_distinct(s.removed(id).notes),
        s.removed(id).path == s.path,
        s.removed(id).read_only == s.read_only,
{
    lemma_index_of(s.notes, id);
    let after = s.removed(id).notes;
    if let Some(k) = store::index_of(s.notes, id) {
        assert forall|j: int| 0 <= j < after.len() implies #[trigger] after[j] == s.notes[if j < k {
            j
        } else {
            j + 1
        }] by {}
        assert forall|i: int, j: int| 0 <= i < j < after.len() implies (#[trigger] after[i]).id@
            != (#[trigger] after[j]).id@ by {}
        assert forall|j: int| 0 <= j < after.len() implies (#[trigger] after[j]).id@ != id by {
            let from = if j < k {
                j
            } else {
                j + 1
            };
            assert(after[j] == s.notes[from]);
            if from < k {
                assert(s.notes[from].id@ != s.notes[k].id@);
            } else {
                assert(s.notes[k].id@ != s.notes[from].id@);
            }
        }
        lemma_index_of(after, id);
        lemma_index_of(after, other);
        lemma_index_of(s.notes, other);
        match store::index_of(s.notes, other) {
            Some(n) => {
                let at = if n < k {
                    n
                } else {
                    n - 1
                };
                assert(after[at] == s.notes[n]);
                lemma_found(after, at);
            },
            None => {
                if let Some(at) = store::index_of(after, other) {
                    assert(s.notes[if at < k {
                        at
                    } else {
                        at + 1
                    }].id@ == other);
                }
            },
        }
    }
}

/// Putting a removed note back undoes the removal: every note is found again,
/// and there are as many as before.
pub proof fn removal_can_be_undone(s: StoreView, note: Note, id: Seq<char>)
    requires
        ids_are_distinct(s.notes),
        s.note(note.id@) == Some(note),
    ensures
        s.removed(note.id@).upserted(note).note(id) == s.note(id),
        s.removed(note.id@).upserted(note).notes.len() == s.notes.len(),
{
    let gone = s.removed(note.id@);
    lemma_index_of(s.notes, note.id@);
    if id == note.id@ {
        a_stored_note_is_found(gone, note);
        lemma_other_id(note.id@);
        a_removed_note_is_gone(s, note.id@, note.id@.push('-'));
    } else {
        a_removed_note_is_gone(s, note.id@, id);
        storing_leaves_other_notes_alone(gone, note, id);
    }
    storing_never_duplicates(gone, note);
}

proof fn lemma_other_id(id: Seq<char>)
    ensures
        id.push('-') != id,
{
    assert(id.push('-').len() != id.len());
}

/// Is `k` the first note with this identifier?
pub open spec fn first_with(notes: Seq<Note>, id: Seq<char>, k: int) -> bool {
    &&& 0 <= k < notes.len() && notes[k].id@ == id
    &&& forall|j: int| 0 <= j < k ==> (#[trigger] notes[j]).id@ != id
}

/// Is there no note with this identifier?
pub open spec fn none_with(notes: Seq<Note>, id: Seq<char>) -> bool {
    forall|j: int| 0 <= j < notes.len() ==> (#[trigger] notes[j]).id@ != id
}

/// A note is found by its identifier, and nothing else is.
pub proof fn notes_are_found_by_identifier(s: StoreView, id: Seq<char>, k: int)
    ensures
        first_with(s.notes, id, k) ==> s.note(id) == Some(s.notes[k]) && store::index_of(
            s.notes,
            id,
        ) == Some(k),
        none_with(s.notes, id) ==> s.note(id) is None && store::index_of(s.notes, id) is None,
        first_with(s.notes, id, k) ==> !none_with(s.notes, id),
{
    lemma_index_of(s.notes, id);
    if first_with(s.notes, id, k) {
        assert(s.notes[k].id@ == id);
    }
}

/// Storing a note puts it in the place of the one with its identifier, and at
/// the end if there is none. Every other note stays where it is.
pub proof fn notes_are_stored_in_their_place(s: StoreView, note: Note, k: int, i: int)
    ensures
        ({
            let after = s.upserted(note);
            &&& after.path == s.path && after.read_only == s.read_only
            &&& first_with(s.notes, note.id@, k) ==> {
                &&& after.notes.len() == s.notes.len()
                &&& after.notes[k] == note
                &&& 0 <= i < s.notes.len() && i != k ==> after.notes[i] == s.notes[i]
            }
            &&& none_with(s.notes, note.id@) ==> {
                &&& after.notes.len() == s.notes.len() + 1
                &&& after.notes.last() == note
                &&& 0 <= i < s.notes.len() ==> after.notes[i] == s.notes[i]
            }
        }),
{
    notes_are_found_by_identifier(s, note.id@, k);
}

/// Removing a note takes out the one with this identifier. Every other note
/// stays, in its order.
pub proof fn one_note_is_removed(s: StoreView, id: Seq<char>, k: int, i: int)
    ensures
        ({
            let after = s.removed(id);
            &&& after.path == s.path && after.read_only == s.read_only
            &&& first_with(s.notes, id, k) ==> {
                &&& after.notes.len() == s.notes.len() - 1
                &&& 0 <= i < k ==> after.notes[i] == s.notes[i]
                &&& k < i < s.notes.len() ==> after.notes[i - 1] == s.notes[i]
            }
            &&& none_with(s.notes, id) ==> after == s
        }),
{
    notes_are_found_by_identifier(s, id, k);
}

/// A store is seen as it is held.
pub proof fn a_fresh_store_is_empty(path: Seq<u8>)
    ensures
        StoreView::empty(path).path == path,
        StoreView::empty(path).notes.len() == 0,
        !StoreView::empty(path).read_only,
{
}

// ---- files ----

/// What was saved is what is loaded: opening the document of a save gives the
/// store back.
pub proof fn notes_survive_a_save_and_reload(s: StoreView, plan: SavePlan, r: Opened, stamp: int)
    requires
        store::saves_as(plan, s),
        store::opens_as(r, s.path, Contents::Document(plan.document), stamp),
    ensures
        r.store@ == s,
        r.outcome == store::LoadOutcome::Loaded,
{
}

/// A file that cannot be read, or that is newer than this build, is never
/// overwritten or moved: the store it opens as refuses to be saved, and the file
/// stays in its place. The notes of a newer file are all there.
pub proof fn unreadable_files_are_left_alone(path: Seq<u8>, contents: Contents, r: Opened, stamp: int)
    requires
        store::opens_as(r, path, contents, stamp),
        match contents {
            Contents::Unreadable(_) => true,
            Contents::Document(doc) => doc.version > SCHEMA_VERSION,
            _ => false,
        },
    ensures
        r.store@.read_only,
        r.store@.notes == (match contents {
            Contents::Document(doc) => doc.notes@,
            _ => seq![],
        }),
        r.set_aside is None,
{
}

/// Opening never fails: whatever is found, there is a store for this path, and
/// it can be saved unless the file is one to leave alone.
pub proof fn the_app_always_starts(path: Seq<u8>, contents: Contents, r: Opened, stamp: int)
    requires
        store::opens_as(r, path, contents, stamp),
    ensures
        r.store@.path == path,
        r.store@.read_only == (match contents {
            Contents::Unreadable(_) => true,
            Contents::Document(doc) => doc.version > SCHEMA_VERSION,
            _ => false,
        }),
        r.set_aside is Some == contents is Malformed,
{
}

/// What each sort of file opens as: the notes that are in it, whether it may be
/// written, and what is said of it. Only a file that is no document is moved
/// out of the way.
pub proof fn what_each_file_opens_as(path: Seq<u8>, contents: Contents, r: Opened, stamp: int)
    requires
        store::opens_as(r, path, contents, stamp),
    ensures
        r.store@.path == path,
        match contents {
            Contents::Missing => {
                &&& r.store@.notes.len() == 0 && !r.store@.read_only
                &&& r.outcome is Fresh && r.set_aside is None
            },
            Contents::Unreadable(why) => {
                &&& r.store@.notes.len() == 0 && r.store@.read_only
                &&& r.outcome is Recovered && r.outcome->reason@ == why@
                &&& paths::path_bytes(r.outcome->backup) == path && r.set_aside is None
            },
            Contents::Malformed(why) => {
                &&& r.store@.notes.len() == 0 && !r.store@.read_only
                &&& r.outcome is Recovered && r.outcome->reason@ == why@
                &&& r.set_aside is Some
                &&& paths::path_bytes(r.outcome->backup) == paths::path_bytes(r.set_aside->0)
                &&& paths::path_bytes(r.set_aside->0) == store::backup_bytes(path, stamp)
            },
            Contents::Document(doc) => {
                &&& r.store@.notes == doc.notes@
                &&& r.store@.read_only == (doc.version > 1)
                &&& r.set_aside is None
                &&& doc.version <= 1 ==> r.outcome is Loaded
                &&& doc.version > 1 ==> r.outcome is Recovered && paths::path_bytes(
                    r.outcome->backup,
                ) == path
            },
        },
{
}

/// A file that is set aside stays beside itself, under its own name with the
/// second behind it.
pub proof fn backups_stay_beside_the_file(path: Seq<u8>, stamp: int)
    requires
        0 <= stamp,
    ensures
        paths::final_component(path) is Some ==> store::backup_bytes(path, stamp) == paths::beside(
            path,
            paths::final_component(path)->0 + encode_utf8(
                ".corrupt-"@ + text::numeral(stamp, 10),
            ),
        ),
        paths::final_component(path) is None ==> store::backup_bytes(path, stamp) == paths::beside(
            path,
            encode_utf8(".corrupt-"@ + text::numeral(stamp, 10)),
        ),
{
    let suffix = encode_utf8(".corrupt-"@ + text::numeral(stamp, 10));
    assert(Seq::<u8>::empty() + suffix =~= suffix);
}

/// Where the notes are: in the data directory if one is named and absolute,
/// else in the usual one below the home directory, else in the current one;
/// and there always in a directory of their own, under the same name.
pub proof fn the_notes_are_in_the_data_directory(
    data_home: Option<Seq<u8>>,
    home: Option<Seq<u8>>,
    base: Seq<u8>,
)
    requires
        if data_home is Some && data_home->0.len() > 0 && data_home->0[0] == 0x2f {
            base == data_home->0
        } else if home is Some {
            base == paths::below(home->0, encode_utf8(".local/share"@))
        } else {
            base == encode_utf8("."@)
        },
    ensures
        store::default_bytes(data_home, home) == paths::below(
            paths::below(base, encode_utf8("stickies"@)),
            encode_utf8("notes.json"@),
        ),
{
}

/// A part is put below a path with one separator between them. An absolute
/// part replaces the path.
pub proof fn parts_are_put_below(base: Seq<u8>, part: Seq<u8>)
    ensures
        part.len() > 0 && part[0] == 0x2f ==> paths::below(base, part) == part,
        !(part.len() > 0 && part[0] == 0x2f) && base.len() > 0 && base.last() != 0x2f
            ==> paths::below(base, part) == base + seq![0x2fu8] + part,
        !(part.len() > 0 && part[0] == 0x2f) && (base.len() == 0 || base.last() == 0x2f)
            ==> paths::below(base, part) == base + part,
{
    assert(base.push(0x2f) =~= base + seq![0x2fu8]);
}

/// A save makes the directory if there is one to make, writes the whole
/// document to another file beside the notes, and then puts that in their
/// place. Nothing else is written.
pub proof fn a_save_goes_by_way_of_another_file(s: StoreView, plan: SavePlan)
    requires
        store::saves_as(plan, s),
    ensures
        plan.document.version == 1,
        plan.document.notes@ == s.notes,
        ({
            let other = paths::extended(s.path, encode_utf8("json.tmp"@));
            let steps = plan.planned();
            let n = steps.len() as int;
            &&& n == plan.steps@.len()
            &&& n == if paths::enclosing(s.path) is Some {
                3int
            } else {
                2
            }
            &&& n == 3 ==> steps[0] == Step::CreateDirectory(paths::enclosing(s.path)->0)
            &&& steps[n - 2] == Step::WriteTemporary(other)
            &&& steps[n - 1] == Step::Replace(other, s.path)
        }),
{
}

/// What a step says is what it holds.
pub proof fn steps_are_handed_out_as_planned(step: SaveStep)
    ensures
        match step {
            SaveStep::CreateDirectory(dir) => step@ == Step::CreateDirectory(
                paths::path_bytes(dir),
            ),
            SaveStep::WriteTemporary(file) => step@ == Step::WriteTemporary(
                paths::path_bytes(file),
            ),
            SaveStep::Replace(from, to) => step@ == Step::Replace(
                paths::path_bytes(from),
                paths::path_bytes(to),
            ),
        },
{
}

/// An error says what the file system said, or which version it met.
pub proof fn errors_say_what_went_wrong(err: StoreError)
    ensures
        match err {
            StoreError::Io(said) => err.message() == said@,
            StoreError::UnsupportedVersion(v) => err.message() == store::unsupported_message(
                v as int,
            ),
        },
{
}

/// What is said of a file of a newer version names both versions.
pub proof fn newer_versions_are_named(v: int)
    requires
        0 <= v,
    ensures
        store::unsupported_message(v) == "notes file uses format version "@ + text::numeral(v, 10)
            + ", but this build understands at most "@ + seq!['1']
            + "; upgrade Stickies to open it"@,
{
    assert(text::numeral(1, 10) =~= seq!['1']);
    assert(store::unsupported_message(v) =~= "notes file uses format version "@ + text::numeral(
        v,
        10,
    ) + ", but this build understands at most "@ + seq!['1'] + "; upgrade Stickies to open it"@);
}

// ---- crashes ----

/// What is on disk: the contents of each file.
pub type Files = Map<Seq<u8>, Seq<u8>>;

/// The disk after a step of a save that writes `bytes`.
pub open spec fn after_step(files: Files, step: Step, bytes: Seq<u8>) -> Files {
    match step {
        Step::CreateDirectory(_) => files,
        Step::WriteTemporary(file) => files.insert(file, bytes),
        Step::Replace(from, to) => files.insert(to, files[from]).remove(from),
    }
}

/// The disk after every one of `steps`.
pub open spec fn after_steps(files: Files, steps: Seq<Step>, bytes: Seq<u8>) -> Files
    decreases steps.len(),
{
    if steps.len() == 0 {
        files
    } else {
        after_step(after_steps(files, steps.drop_last(), bytes), steps.last(), bytes)
    }
}

/// Can a crash in the middle of `step` leave the disk like this? A write may
/// stop anywhere; a replacement happens or does not.
pub open spec fn crash_leaves(files: Files, step: Step, bytes: Seq<u8>, after: Files) -> bool {
    match step {
        Step::CreateDirectory(_) => after == files,
        Step::WriteTemporary(file) => after == files || exists|written: Seq<u8>|
            after == #[trigger] files.insert(file, written),
        Step::Replace(_, _) => after == files || after == after_step(files, step, bytes),
    }
}

/// Is the file at `path` the same on both disks, or missing on both?
pub open spec fn same_file(a: Files, b: Files, path: Seq<u8>) -> bool {
    &&& a.dom().contains(path) == b.dom().contains(path)
    &&& a.dom().contains(path) ==> a[path] == b[path]
}

/// Whatever the step, a save that is cut short leaves the file as it was or as
/// it was to be.
pub proof fn a_crash_never_tears_the_file(
    files: Files,
    s: StoreView,
    plan: SavePlan,
    bytes: Seq<u8>,
    done: int,
    after: Files,
)
    requires
        store::saves_as(plan, s),
        paths::final_component(s.path) is Some,
        0 <= done < plan.planned().len(),
        crash_leaves(
            after_steps(files, plan.planned().take(done), bytes),
            plan.planned()[done],
            bytes,
            after,
        ),
    ensures
        same_file(after, files, s.path) || (after.dom().contains(s.path) && after[s.path]
            == bytes),
{
    let path = s.path;
    reveal_with_fuel(after_steps, 4);
    let steps = store::save_steps(path);
    let n = steps.len();
    assert(steps[n - 1] == Step::Replace(store::temporary_bytes(path), path));
    assert(steps[n - 2] == Step::WriteTemporary(store::temporary_bytes(path)));
    let before = after_steps(files, steps.take(done), bytes);
    lemma_before(files, path, bytes, done);
    if steps[done] is WriteTemporary && after != before {
        let written = choose|written: Seq<u8>|
            after == #[trigger] before.insert(store::temporary_bytes(path), written);
        assert(same_file(after, before, path));
    }
}

proof fn lemma_before(files: Files, path: Seq<u8>, bytes: Seq<u8>, done: int)
    requires
        store::temporary_bytes(path) != path,
        0 <= done < store::save_steps(path).len(),
    ensures
        ({
            let before = after_steps(files, store::save_steps(path).take(done), bytes);
            let n = store::save_steps(path).len();
            &&& same_file(before, files, path)
            &&& done == n - 1 ==> before == files.insert(store::temporary_bytes(path), bytes)
            &&& done < n - 1 ==> before == files
        }),
{
    reveal_with_fuel(after_steps, 4);
    let steps = store::save_steps(path);
    if done > 0 {
        assert(steps.take(done).drop_last() =~= steps.take(done - 1));
        assert(steps.take(done).last() == steps[done - 1]);
        if done > 1 {
            assert(steps.take(done - 1).drop_last() =~= steps.take(done - 2));
            assert(steps.take(done - 1).last() == steps[done - 2]);
        }
    }
}

/// A save that runs through leaves the file written and no temporary file
/// behind, and touches nothing else.
pub proof fn a_save_replaces_the_file(
    files: Files,
    s: StoreView,
    plan: SavePlan,
    bytes: Seq<u8>,
    other: Seq<u8>,
)
    requires
        store::saves_as(plan, s),
        paths::final_component(s.path) is Some,
        other != s.path,
        other != store::temporary_bytes(s.path),
    ensures
        ({
            let after = after_steps(files, plan.planned(), bytes);
            &&& after.dom().contains(s.path)
            &&& after[s.path] == bytes
            &&& !after.dom().contains(store::temporary_bytes(s.path))
            &&& same_file(after, files, other)
        }),
{
    let path = s.path;
    let steps = store::save_steps(path);
    let n = steps.len() as int;
    lemma_before(files, path, bytes, n - 1);
    assert(steps.drop_last() =~= steps.take(n - 1));
    assert(steps.last() == Step::Replace(store::temporary_bytes(path), path));
}

} // verus!
