//! What holds of every answer of the shell extension, and of what it is sent.

use crate::model::geometry::{Monitor, Placed, Placement, Screen};
use crate::placement;
use crate::placement::{Asked, FailureLog, Outcome, Request, Shell};
use crate::search;
use crate::text;
use crate::wire;
use crate::wire::{Value, Wire};
use crate::APP_OBJECT_PATH;
use vstd::prelude::*;

verus! {

// ---- values ----

/// A value on the bus is seen as it is held, of every sort and at every depth.
pub proof fn values_are_seen_as_held(v: Value)
    ensures
        match v {
            Value::Bool(b) => v@ == Wire::Bool(b),
            Value::Int32(n) => v@ == Wire::Int32(n as int),
            Value::Uint32(n) => v@ == Wire::Uint32(n as int),
            Value::Str(s) => v@ == Wire::Str(s@),
            Value::ObjectPath(s) => v@ == Wire::ObjectPath(s@),
            Value::Signature(s) => v@ == Wire::Signature(s@),
            Value::Boxed(inner) => v@ == Wire::Boxed(Box::new(inner@)),
            Value::Array(element, items) => {
                &&& v@ is Array && v@->Array_0 == element@
                &&& v@->Array_1.len() == items@.len()
                &&& forall|i: int| 0 <= i < items@.len() ==> #[trigger] v@->Array_1[i] == items@[i]@
            },
            Value::Tuple(items) => {
                &&& v@ is Tuple && v@->Tuple_0.len() == items@.len()
                &&& forall|i: int| 0 <= i < items@.len() ==> #[trigger] v@->Tuple_0[i] == items@[i]@
            },
            Value::Entry(k, x) => v@ == Wire::Entry(Box::new(k@), Box::new(x@)),
            Value::Other(s) => v@ == Wire::Other(s@),
        },
{
    match v {
        Value::Array(element, items) => wire::lemma_models(items@),
        Value::Tuple(items) => wire::lemma_models(items@),
        _ => {},
    }
}

/// What is in a container is found by its place, and nothing is found in a
/// value that holds nothing.
pub proof fn parts_are_found_by_place(w: Wire, i: int)
    ensures
        match w {
            Wire::Tuple(items) => w.child(i) == if 0 <= i < items.len() {
                Some(items[i])
            } else {
                None
            },
            Wire::Array(_, items) => w.child(i) == if 0 <= i < items.len() {
                Some(items[i])
            } else {
                None
            },
            Wire::Boxed(inner) => w.child(i) == if i == 0 {
                Some(*inner)
            } else {
                None
            },
            Wire::Entry(k, v) => w.child(i) == if i == 0 {
                Some(*k)
            } else if i == 1 {
                Some(*v)
            } else {
                None
            },
            _ => w.child(i) is None,
        },
{
}

/// In a dictionary the first entry for a key decides, and a key without an entry
/// has no value.
pub proof fn keys_are_looked_up(entries: Seq<Wire>, key: Seq<char>, k: int)
    ensures
        0 <= k < entries.len() && entries[k] is Entry && *entries[k]->Entry_0 == Wire::Str(key)
            && *entries[k]->Entry_1 is Boxed && (forall|j: int|
            0 <= j < k ==> (#[trigger] entries[j]) is Entry && *entries[j]->Entry_0 != Wire::Str(
                key,
            )) ==> wire::lookup_from(entries, key, 0) == Some(
            *(*entries[k]->Entry_1)->Boxed_0,
        ),
        (forall|j: int|
            0 <= j < entries.len() ==> (#[trigger] entries[j]) is Entry && *entries[j]->Entry_0
                != Wire::Str(key)) ==> wire::lookup_from(entries, key, 0) is None,
{
    lemma_lookup(entries, key, 0, k);
}

proof fn lemma_lookup(entries: Seq<Wire>, key: Seq<char>, from: int, k: int)
    requires
        0 <= from,
    ensures
        from <= k < entries.len() && entries[k] is Entry && *entries[k]->Entry_0 == Wire::Str(key)
            && *entries[k]->Entry_1 is Boxed && (forall|j: int|
            from <= j < k ==> (#[trigger] entries[j]) is Entry && *entries[j]->Entry_0 != Wire::Str(
                key,
            )) ==> wire::lookup_from(entries, key, from) == Some(
            *(*entries[k]->Entry_1)->Boxed_0,
        ),
        (forall|j: int|
            from <= j < entries.len() ==> (#[trigger] entries[j]) is Entry && *entries[j]->Entry_0
                != Wire::Str(key)) ==> wire::lookup_from(entries, key, from) is None,
    decreases entries.len() - from,
{
    if from < entries.len() {
        lemma_lookup(entries, key, from + 1, k);
        assert(entries[from] == entries[from]);
    }
}

/// A value is read as what it is, and as nothing else.
pub proof fn values_are_read_as_what_they_are(w: Wire)
    ensures
        w.as_bool() == (if w is Bool {
            Some(w->Bool_0)
        } else {
            None
        }),
        w.as_int32() == (if w is Int32 {
            Some(w->Int32_0)
        } else {
            None
        }),
        w.as_uint32() == (if w is Uint32 {
            Some(w->Uint32_0)
        } else {
            None
        }),
        w.as_text() == (if w is Str {
            Some(w->Str_0)
        } else if w is ObjectPath {
            Some(w->ObjectPath_0)
        } else if w is Signature {
            Some(w->Signature_0)
        } else {
            None
        }),
        w.unboxed() == (if w is Boxed {
            Some(*w->Boxed_0)
        } else {
            None
        }),
{
}

/// The type of a value is spelled out from the types of what it holds.
pub proof fn types_are_spelled_out(w: Wire, items: Seq<Wire>, element: Seq<char>)
    ensures
        w is Bool ==> w.kind() == seq!['b'],
        w is Int32 ==> w.kind() == seq!['i'],
        w is Uint32 ==> w.kind() == seq!['u'],
        w is Str ==> w.kind() == seq!['s'],
        w is ObjectPath ==> w.kind() == seq!['o'],
        w is Signature ==> w.kind() == seq!['g'],
        w is Boxed ==> w.kind() == seq!['v'],
        Wire::Array(element, items).kind() == seq!['a'] + element,
        w is Entry ==> w.kind() == seq!['{'] + w->Entry_0.kind() + w->Entry_1.kind() + seq!['}'],
        Wire::Tuple(seq![]).kind() == seq!['(', ')'],
        Wire::Tuple(items.push(w)).kind() == Wire::Tuple(items).kind().drop_last() + w.kind()
            + seq![')'],
{
    let none = Seq::<Wire>::empty();
    assert(wire::kinds(none) =~= seq![]);
    assert(Wire::Tuple(none).kind() =~= seq!['(', ')']);
    assert(items.push(w).drop_last() =~= items);
    assert(wire::kinds(items.push(w)) == wire::kinds(items) + w.kind());
    assert(Wire::Tuple(items).kind().drop_last() =~= seq!['('] + wire::kinds(items));
    assert(Wire::Tuple(items.push(w)).kind() =~= Wire::Tuple(items).kind().drop_last() + w.kind()
        + seq![')']);
}

// ---- answers ----

/// Is this that text, in any of the three sorts that hold text?
pub open spec fn is_text(w: Wire, s: Seq<char>) -> bool {
    w == Wire::Str(s) || w == Wire::ObjectPath(s) || w == Wire::Signature(s)
}

/// Does this row list that monitor? It has a name, a label, whether it is the
/// primary one, a place, and an area that is not empty, in this order.
pub open spec fn lists_monitor(row: Wire, m: Screen) -> bool {
    &&& row is Tuple && row->Tuple_0.len() >= 7
    &&& is_text(row->Tuple_0[0], m.connector)
    &&& is_text(row->Tuple_0[1], m.display_name)
    &&& row->Tuple_0[2] == Wire::Bool(m.primary)
    &&& row->Tuple_0[3] == Wire::Int32(m.x)
    &&& row->Tuple_0[4] == Wire::Int32(m.y)
    &&& row->Tuple_0[5] == Wire::Int32(m.width) && m.width > 0
    &&& row->Tuple_0[6] == Wire::Int32(m.height) && m.height > 0
}

/// The monitors listed are those of the rows that list one, in order. A row
/// that lists none costs that row and no other.
pub proof fn listed_monitors_are_read(rows: Seq<Wire>, row: Wire, m: Screen)
    ensures
        placement::decoded_monitors(seq![]).len() == 0,
        lists_monitor(row, m) ==> placement::decoded_monitors(rows.push(row))
            == placement::decoded_monitors(rows).push(m),
        (forall|any: Screen| !lists_monitor(row, any)) ==> placement::decoded_monitors(
            rows.push(row),
        ) == placement::decoded_monitors(rows),
{
    assert(rows.push(row).drop_last() =~= rows);
    if let Some(found) = placement::decoded_monitor(row) {
        assert(lists_monitor(row, found));
    }
}

/// Are these five parts of a row, from `at` on, that place? It has a monitor, a
/// position on it, and an area that is not empty, in this order.
pub open spec fn says_place(row: Wire, at: int, p: Placed) -> bool {
    &&& row is Tuple && row->Tuple_0.len() >= at + 5
    &&& is_text(row->Tuple_0[at], p.connector)
    &&& row->Tuple_0[at + 1] == Wire::Int32(p.rect.x)
    &&& row->Tuple_0[at + 2] == Wire::Int32(p.rect.y)
    &&& row->Tuple_0[at + 3] == Wire::Int32(p.rect.width) && p.rect.width > 0
    &&& row->Tuple_0[at + 4] == Wire::Int32(p.rect.height) && p.rect.height > 0
}

/// The windows listed are those of the rows that list one, in order, each with
/// its own path and its own place.
pub proof fn listed_windows_are_read(rows: Seq<Wire>, row: Wire, path: Seq<char>, p: Placed)
    ensures
        placement::decoded_windows(seq![]).len() == 0,
        says_place(row, 1, p) && is_text(row->Tuple_0[0], path) ==> placement::decoded_windows(
            rows.push(row),
        ) == placement::decoded_windows(rows).push((path, p)),
        (forall|any: Placed, name: Seq<char>|
            !(#[trigger] says_place(row, 1, any) && #[trigger] is_text(row->Tuple_0[0], name)))
            ==> placement::decoded_windows(rows.push(row)) == placement::decoded_windows(rows),
{
    assert(rows.push(row).drop_last() =~= rows);
    if let Some(found) = placement::decoded_window(row) {
        assert(says_place(row, 1, found.1));
        assert(is_text(row->Tuple_0[0], found.0));
    }
}

/// A window is where the answer says, if the answer says that it was found and
/// that it has an area; else nothing is known of it.
pub proof fn one_window_is_read(reply: Wire, p: Placed)
    ensures
        says_place(reply, 1, p) && reply->Tuple_0[0] == Wire::Bool(true)
            ==> placement::decoded_placement(reply) == Some(p),
        (forall|any: Placed| !says_place(reply, 1, any)) ==> placement::decoded_placement(
            reply,
        ) is None,
        reply is Tuple && reply->Tuple_0.len() > 0 && reply->Tuple_0[0] != Wire::Bool(true)
            ==> placement::decoded_placement(reply) is None,
{
    if let Some(found) = placement::decoded_placement(reply) {
        assert(says_place(reply, 1, found));
    }
}

/// The rows of an answer are what its first part holds.
pub proof fn rows_are_in_the_first_part(parts: Seq<Wire>, element: Seq<char>, rows: Seq<Wire>)
    ensures
        parts.len() > 0 && parts[0] == Wire::Array(element, rows) ==> placement::reply_rows(
            Wire::Tuple(parts),
        ) == rows,
        parts.len() == 0 ==> placement::reply_rows(Wire::Tuple(parts)).len() == 0,
{
}

/// The version is the number that is boxed in the first part of the answer. The
/// answer to a request is its first part, if that is a truth value. Without an
/// answer there is neither.
pub proof fn versions_and_answers_are_read(parts: Seq<Wire>, n: int, yes: bool)
    ensures
        parts.len() > 0 && parts[0] == Wire::Boxed(Box::new(Wire::Uint32(n)))
            ==> placement::answered_version(Some(Wire::Tuple(parts))) == Some(n),
        parts.len() > 0 && parts[0] == Wire::Bool(yes) ==> placement::answered_yes(
            Some(Wire::Tuple(parts)),
        ) == yes,
        parts.len() == 0 || !(parts[0] is Bool) ==> !placement::answered_yes(
            Some(Wire::Tuple(parts)),
        ),
        parts.len() == 0 || !(parts[0] is Boxed) ==> placement::answered_version(
            Some(Wire::Tuple(parts)),
        ) is None,
        placement::answered_version(None) is None,
        !placement::answered_yes(None),
{
}

/// Only a call that was answered has an answer, and it is that one.
pub proof fn only_replies_answer(outcome: Outcome)
    ensures
        match outcome {
            Outcome::Reply(v) => outcome.answer() == Some(v@),
            _ => outcome.answer() is None,
        },
{
}

// ---- requests ----

/// Who is called, and how: the extension, in version 1 of the protocol, which
/// has two seconds to answer.
pub proof fn the_extension_is_called()
    ensures
        placement::BUS_NAME@ == "us.hagreli.Stickies.Shell"@,
        placement::OBJECT_PATH@ == "/us/hagreli/Stickies/Shell"@,
        placement::INTERFACE@ == "us.hagreli.Stickies.Shell"@,
        placement::PROTOCOL_VERSION == 1,
        placement::TIMEOUT_MS == 2000,
        APP_OBJECT_PATH@ == "/us/hagreli/Stickies"@,
{
}

/// With a bus the call is made, as it was asked for; without one none is.
pub proof fn calls_are_made_over_a_bus(shell: Shell, r: Option<Request>, asked: Asked)
    requires
        shell.asks(r, asked),
    ensures
        shell.connected ==> r is Some && r->0@ == asked,
        !shell.connected ==> r is None,
{
}

/// A window is asked to be put exactly where its placement says.
pub proof fn windows_are_sent_to_their_place(window: Seq<char>, p: Placed)
    ensures
        ({
            let sent = placement::place_args(window, p);
            &&& sent is Tuple && sent->Tuple_0.len() == 6
            &&& sent->Tuple_0[0] == Wire::Str(window)
            &&& says_place(sent, 1, p) || p.rect.width <= 0 || p.rect.height <= 0
            &&& sent->Tuple_0[1] == Wire::Str(p.connector)
        }),
{
}

/// A window that is put somewhere is found there: what is sent to place a
/// window reads back, as a row of a list of windows, as that window and that
/// place.
pub proof fn what_is_placed_reads_back(window: Seq<char>, p: Placed)
    requires
        p.rect.width > 0,
        p.rect.height > 0,
    ensures
        placement::decoded_windows(seq![placement::place_args(window, p)]) == seq![(window, p)],
{
    let row = placement::place_args(window, p);
    let none = Seq::<Wire>::empty();
    listed_windows_are_read(none, row, window, p);
    assert(none.push(row) =~= seq![row]);
    assert(placement::decoded_windows(none) =~= seq![]);
    assert(placement::decoded_windows(seq![row]) =~= seq![(window, p)]);
}

/// A window's path is the application's, with the window's number behind it.
pub proof fn windows_have_numbered_paths(window: int)
    requires
        0 <= window,
    ensures
        placement::object_path(window) == APP_OBJECT_PATH@ + "/window/"@ + text::numeral(window, 10),
{
}

/// Requests, monitors and windows are handed out as they are.
pub proof fn requests_are_handed_out_as_they_are(
    request: Request,
    monitors: Seq<Monitor>,
    found: Seq<(String, Placement)>,
    i: int,
)
    ensures
        request@.interface == request.interface@ && request@.method == request.method@,
        request@.reply_type == request.reply_type@,
        request@.args is None == request.args is None,
        request.args is Some ==> request@.args == Some(request.args->0@),
        placement::screens(monitors).len() == monitors.len(),
        0 <= i < monitors.len() ==> placement::screens(monitors)[i] == monitors[i]@,
        placement::windows(found).len() == found.len(),
        0 <= i < found.len() ==> placement::windows(found)[i].0 == found[i].0@
            && placement::windows(found)[i].1 == found[i].1@,
{
}

// ---- failures ----

/// The log knows the failure of a method that it holds, the first if there are
/// several, and none of a method that it holds nothing of.
pub proof fn the_log_knows_what_it_holds(log: FailureLog, k: int, method: Seq<char>)
    ensures
        0 <= k < log.seen@.len() && log.seen@[k].method@ == method && (forall|j: int|
            0 <= j < k ==> (#[trigger] log.seen@[j]).method@ != method) ==> log@.contains_pair(
            method,
            log.seen@[k].message@,
        ),
        (forall|j: int| 0 <= j < log.seen@.len() ==> (#[trigger] log.seen@[j]).method@ != method)
            ==> !log@.dom().contains(method),
{
    let wanted = placement::of_method(method);
    search::lemma_first_from(log.seen@, wanted, 0);
    if 0 <= k < log.seen@.len() && log.seen@[k].method@ == method && forall|j: int|
        0 <= j < k ==> (#[trigger] log.seen@[j]).method@ != method {
        assert(wanted(log.seen@[k]));
        assert forall|j: int| 0 <= j < k implies !#[trigger] wanted(log.seen@[j]) by {}
        search::lemma_is_first(log.seen@, wanted, k);
    }
    if let Some(j) = search::first_where(log.seen@, wanted) {
        assert(wanted(log.seen@[j]));
        assert(log.seen@[j].method@ == method);
    }
}

/// What is written of a failed call names the method and says why.
pub proof fn failures_are_spelled_out(method: Seq<char>, message: Seq<char>)
    ensures
        placement::absent_text(method) == method + ": shell extension not running"@,
        placement::failed_text(method, message) == "shell extension call "@ + method + " failed: "@
            + message,
{
}

} // verus!
