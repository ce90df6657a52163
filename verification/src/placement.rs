//! What is said to the companion extension of the shell, and what it answers.
//!
//! On a Wayland desktop a client can neither position its windows nor read back
//! where the compositor put them. The extension runs inside the compositor and
//! does both on our behalf, over the message bus. It knows our windows by the
//! object path that the toolkit publishes for each.
//!
//! Every call is best effort. Without the extension, or without a bus, the app
//! carries on: notes keep their content and colour, and open wherever the
//! compositor decides.

use crate::model::geometry::{Monitor, Placed, Placement, Rect, Screen};
use crate::search;
use crate::text;
use crate::wire;
use crate::wire::{Value, Wire};
use crate::APP_OBJECT_PATH;
use vstd::prelude::*;
use vstd::string::StringExecFns;

verus! {

/// Name, object path and interface that the extension exports.
pub const BUS_NAME: &'static str = "us.hagreli.Stickies.Shell";

pub const OBJECT_PATH: &'static str = "/us/hagreli/Stickies/Shell";

pub const INTERFACE: &'static str = "us.hagreli.Stickies.Shell";

/// The protocol version this client speaks. The extension reports its own; a
/// mismatch means that the two were installed from different releases, and
/// should not talk to each other.
pub const PROTOCOL_VERSION: u32 = 1;

/// How long a call may take, in milliseconds. A stalled placement must not hold
/// up presenting the note.
pub const TIMEOUT_MS: i32 = 2000;

// ---- decoding ----

/// A row of the monitor list. `None` of a row of the wrong shape, and of a
/// monitor without an area: that would make every later clamp degenerate.
pub open spec fn decoded_monitor(row: Wire) -> Option<Screen> {
    match row {
        Wire::Tuple(f) => if f.len() < 7 {
            None
        } else {
            match (
                f[0].as_text(),
                f[1].as_text(),
                f[2].as_bool(),
                f[3].as_int32(),
                f[4].as_int32(),
                f[5].as_int32(),
                f[6].as_int32(),
            ) {
                (
                    Some(connector),
                    Some(display_name),
                    Some(primary),
                    Some(x),
                    Some(y),
                    Some(width),
                    Some(height),
                ) if width > 0 && height > 0 => Some(
                    Screen { connector, display_name, primary, x, y, width, height },
                ),
                _ => None,
            }
        },
        _ => None,
    }
}

/// Every monitor that could be decoded, in order.
pub open spec fn decoded_monitors(rows: Seq<Wire>) -> Seq<Screen>
    decreases rows.len(),
{
    if rows.len() == 0 {
        seq![]
    } else {
        let before = decoded_monitors(rows.drop_last());
        match decoded_monitor(rows.last()) {
            Some(screen) => before.push(screen),
            None => before,
        }
    }
}

/// The rows of a reply: what its first part holds.
pub open spec fn reply_rows(reply: Wire) -> Seq<Wire> {
    match reply.child(0) {
        Some(array) => match array.children() {
            Some(rows) => rows,
            None => seq![],
        },
        None => seq![],
    }
}

/// A placement of these parts, unless it has no area.
pub open spec fn placed(
    connector: Option<Seq<char>>,
    x: Option<int>,
    y: Option<int>,
    width: Option<int>,
    height: Option<int>,
) -> Option<Placed> {
    match (connector, x, y, width, height) {
        (Some(connector), Some(x), Some(y), Some(width), Some(height)) if width > 0 && height > 0 =>
        Some(Placed { connector, rect: Rect { x, y, width, height } }),
        _ => None,
    }
}

/// The answer to a query for one window, when the window was found.
pub open spec fn decoded_placement(reply: Wire) -> Option<Placed> {
    match reply {
        Wire::Tuple(f) => if f.len() >= 6 && f[0].as_bool() == Some(true) {
            placed(
                f[1].as_text(),
                f[2].as_int32(),
                f[3].as_int32(),
                f[4].as_int32(),
                f[5].as_int32(),
            )
        } else {
            None
        },
        _ => None,
    }
}

/// A row of the answer to a query for all windows.
pub open spec fn decoded_window(row: Wire) -> Option<(Seq<char>, Placed)> {
    match row {
        Wire::Tuple(f) => if f.len() < 6 {
            None
        } else {
            match (
                f[0].as_text(),
                placed(
                    f[1].as_text(),
                    f[2].as_int32(),
                    f[3].as_int32(),
                    f[4].as_int32(),
                    f[5].as_int32(),
                ),
            ) {
                (Some(path), Some(at)) => Some((path, at)),
                _ => None,
            }
        },
        _ => None,
    }
}

/// Every window that could be decoded, in order.
pub open spec fn decoded_windows(rows: Seq<Wire>) -> Seq<(Seq<char>, Placed)>
    decreases rows.len(),
{
    if rows.len() == 0 {
        seq![]
    } else {
        let before = decoded_windows(rows.drop_last());
        match decoded_window(rows.last()) {
            Some(window) => before.push(window),
            None => before,
        }
    }
}

/// Monitors as mathematical values.
pub open spec fn screens(monitors: Seq<Monitor>) -> Seq<Screen> {
    monitors.map_values(|m: Monitor| m@)
}

/// Windows as mathematical values.
pub open spec fn windows(found: Seq<(String, Placement)>) -> Seq<(Seq<char>, Placed)> {
    found.map_values(|w: (String, Placement)| (w.0@, w.1@))
}

fn string_at(row: &Value, i: usize) -> (r: Option<String>)
    ensures
        match (r, row@.child(i as int)) {
            (Some(s), Some(w)) => w.as_text() == Some(s@),
            (Some(_), None) => false,
            (None, Some(w)) => w.as_text() is None,
            (None, None) => true,
        },
{
    match row.child(i) {
        Some(v) => match v.get_str() {
            Some(s) => Some(s.to_owned()),
            None => None,
        },
        None => None,
    }
}

fn int_at(row: &Value, i: usize) -> (r: Option<i32>)
    ensures
        match (r, row@.child(i as int)) {
            (Some(n), Some(w)) => w.as_int32() == Some(n as int),
            (Some(_), None) => false,
            (None, Some(w)) => w.as_int32() is None,
            (None, None) => true,
        },
{
    match row.child(i) {
        Some(v) => v.get_i32(),
        None => None,
    }
}

fn bool_at(row: &Value, i: usize) -> (r: Option<bool>)
    ensures
        r == (match row@.child(i as int) {
            Some(w) => w.as_bool(),
            None => None,
        }),
{
    match row.child(i) {
        Some(v) => v.get_bool(),
        None => None,
    }
}

fn decode_monitor(row: &Value) -> (r: Option<Monitor>)
    ensures
        match r {
            Some(m) => decoded_monitor(row@) == Some(m@),
            None => decoded_monitor(row@) is None,
        },
{
    if let Value::Tuple(fields) = row {
        proof {
            wire::lemma_models(fields@);
        }
        match (
            string_at(row, 0),
            string_at(row, 1),
            bool_at(row, 2),
            int_at(row, 3),
            int_at(row, 4),
            int_at(row, 5),
            int_at(row, 6),
        ) {
            (
                Some(connector),
                Some(display_name),
                Some(primary),
                Some(x),
                Some(y),
                Some(width),
                Some(height),
            ) => {
                if width > 0 && height > 0 {
                    Some(Monitor { connector, display_name, primary, x, y, width, height })
                } else {
                    None
                }
            },
            _ => None,
        }
    } else {
        None
    }
}

/// Decode a placement whose connector is part `at` of a row.
fn decode_at(row: &Value, at: usize) -> (r: Option<Placement>)
    requires
        at <= 1,
    ensures
        row@ matches Wire::Tuple(f) ==> match r {
            Some(p) => at + 4 < f.len() && placed(
                f[at as int].as_text(),
                f[at + 1].as_int32(),
                f[at + 2].as_int32(),
                f[at + 3].as_int32(),
                f[at + 4].as_int32(),
            ) == Some(p@),
            None => at + 4 < f.len() ==> placed(
                f[at as int].as_text(),
                f[at + 1].as_int32(),
                f[at + 2].as_int32(),
                f[at + 3].as_int32(),
                f[at + 4].as_int32(),
            ) is None,
        },
{
    match (
        string_at(row, at),
        int_at(row, at + 1),
        int_at(row, at + 2),
        int_at(row, at + 3),
        int_at(row, at + 4),
    ) {
        (Some(connector), Some(x), Some(y), Some(width), Some(height)) => {
            if width > 0 && height > 0 {
                Some(Placement { connector, x, y, width, height })
            } else {
                None
            }
        },
        _ => None,
    }
}

fn decode_window(row: &Value) -> (r: Option<(String, Placement)>)
    ensures
        match r {
            Some(w) => decoded_window(row@) == Some((w.0@, w.1@)),
            None => decoded_window(row@) is None,
        },
{
    if let Value::Tuple(fields) = row {
        proof {
            wire::lemma_models(fields@);
        }
        match (string_at(row, 0), decode_at(row, 1)) {
            (Some(path), Some(placement)) => Some((path, placement)),
            _ => None,
        }
    } else {
        None
    }
}

/// Decode the `(a(ssbiiii))` reply of `ListMonitors`.
///
/// A row that cannot be decoded is skipped: it should cost us that monitor, not
/// every monitor. A reply of the wrong shape holds no monitors.
pub fn parse_monitors(reply: &Value) -> (r: Vec<Monitor>)
    ensures
        screens(r@) == decoded_monitors(reply_rows(reply@)),
{
    let mut out: Vec<Monitor> = Vec::new();
    if let Some(array) = reply.child(0) {
        let n: usize = array.n_children();
        let ghost rows = reply_rows(reply@);
        let mut i: usize = 0;
        assert(screens(out@) =~= seq![]);
        assert(rows.take(0) =~= seq![]);
        while i < n
            invariant
                i <= n == rows.len(),
                reply@.child(0) == Some(array@),
                rows == reply_rows(reply@),
                screens(out@) == decoded_monitors(rows.take(i as int)),
            decreases n - i,
        {
            assert(rows.take(i + 1).drop_last() =~= rows.take(i as int));
            if let Some(row) = array.child(i) {
                assert(row@ == rows[i as int]);
                let ghost before = out@;
                if let Some(monitor) = decode_monitor(row) {
                    out.push(monitor);
                    assert(screens(out@) =~= screens(before).push(monitor@));
                }
            }
            i += 1;
        }
        assert(rows.take(i as int) =~= rows);
    } else {
        assert(screens(out@) =~= seq![]);
    }
    out
}

/// Decode the `(bsiiii)` reply of `Query`. The first part says whether the
/// window was found. A window without an area is not on screen yet, and taking
/// its size for real would shrink the note to nothing.
pub fn parse_placement(reply: &Value) -> (r: Option<Placement>)
    ensures
        match r {
            Some(p) => decoded_placement(reply@) == Some(p@),
            None => decoded_placement(reply@) is None,
        },
{
    if let Value::Tuple(fields) = reply {
        proof {
            wire::lemma_models(fields@);
        }
        match (bool_at(reply, 0), decode_at(reply, 1)) {
            (Some(true), Some(placement)) => Some(placement),
            _ => None,
        }
    } else {
        None
    }
}

/// Decode the `(a(ssiiii))` reply of `QueryAll` into object paths and
/// placements. Rows that cannot be decoded are skipped, as in
/// [`parse_monitors`].
pub fn parse_query_all(reply: &Value) -> (r: Vec<(String, Placement)>)
    ensures
        windows(r@) == decoded_windows(reply_rows(reply@)),
{
    let mut out: Vec<(String, Placement)> = Vec::new();
    if let Some(array) = reply.child(0) {
        let n: usize = array.n_children();
        let ghost rows = reply_rows(reply@);
        let mut i: usize = 0;
        assert(windows(out@) =~= seq![]);
        assert(rows.take(0) =~= seq![]);
        while i < n
            invariant
                i <= n == rows.len(),
                reply@.child(0) == Some(array@),
                rows == reply_rows(reply@),
                windows(out@) == decoded_windows(rows.take(i as int)),
            decreases n - i,
        {
            assert(rows.take(i + 1).drop_last() =~= rows.take(i as int));
            if let Some(row) = array.child(i) {
                assert(row@ == rows[i as int]);
                let ghost before = out@;
                if let Some(window) = decode_window(row) {
                    out.push(window);
                    assert(windows(out@) =~= windows(before).push((window.0@, window.1@)));
                }
            }
            i += 1;
        }
        assert(rows.take(i as int) =~= rows);
    } else {
        assert(windows(out@) =~= seq![]);
    }
    out
}

/// Every decoded monitor has an area.
pub proof fn decoded_monitors_have_an_area(rows: Seq<Wire>, i: int)
    requires
        0 <= i < decoded_monitors(rows).len(),
    ensures
        decoded_monitors(rows)[i].width > 0,
        decoded_monitors(rows)[i].height > 0,
    decreases rows.len(),
{
    let before = decoded_monitors(rows.drop_last());
    if i < before.len() {
        decoded_monitors_have_an_area(rows.drop_last(), i);
    }
}

/// Every decoded window has an area.
pub proof fn decoded_windows_have_an_area(rows: Seq<Wire>, i: int)
    requires
        0 <= i < decoded_windows(rows).len(),
    ensures
        decoded_windows(rows)[i].1.rect.width > 0,
        decoded_windows(rows)[i].1.rect.height > 0,
    decreases rows.len(),
{
    let before = decoded_windows(rows.drop_last());
    if i < before.len() {
        decoded_windows_have_an_area(rows.drop_last(), i);
    }
}

/// The row that lists a monitor.
pub open spec fn monitor_row(m: Screen) -> Wire {
    Wire::Tuple(
        seq![
            Wire::Str(m.connector),
            Wire::Str(m.display_name),
            Wire::Bool(m.primary),
            Wire::Int32(m.x),
            Wire::Int32(m.y),
            Wire::Int32(m.width),
            Wire::Int32(m.height),
        ],
    )
}

/// A list of monitors that all have an area is decoded as it was sent.
pub proof fn monitors_survive_the_wire(sent: Seq<Screen>)
    requires
        forall|i: int|
            0 <= i < sent.len() ==> (#[trigger] sent[i]).width > 0 && sent[i].height > 0,
    ensures
        decoded_monitors(sent.map_values(|m: Screen| monitor_row(m))) == sent,
    decreases sent.len(),
{
    let rows = sent.map_values(|m: Screen| monitor_row(m));
    if sent.len() > 0 {
        let fewer = sent.drop_last();
        monitors_survive_the_wire(fewer);
        assert(rows.drop_last() =~= fewer.map_values(|m: Screen| monitor_row(m)));
        assert(rows.last() == monitor_row(sent.last()));
        assert(fewer.push(sent.last()) =~= sent);
    } else {
        assert(decoded_monitors(rows) =~= sent);
    }
}

// ---- windows ----

/// The object path of the window with this number.
pub open spec fn object_path(window: int) -> Seq<char> {
    APP_OBJECT_PATH@ + "/window/"@ + text::decimal(window)
}

/// The object path that the toolkit exports for a window, which is how the
/// extension knows it: the application's path and the window's number.
pub fn window_object_path(window_id: u32) -> (r: String)
    ensures
        r@ == object_path(window_id as int),
{
    let mut out = APP_OBJECT_PATH.to_owned();
    out.append("/window/");
    out.append(text::decimal_u64(window_id as u64).as_str());
    out
}

/// No two windows share an object path.
pub proof fn object_paths_are_distinct(a: int, b: int)
    requires
        0 <= a,
        0 <= b,
        object_path(a) == object_path(b),
    ensures
        a == b,
{
    let base = APP_OBJECT_PATH@ + "/window/"@;
    let n = base.len() as int;
    assert(object_path(a).skip(n) =~= text::decimal(a));
    assert(object_path(b).skip(n) =~= text::decimal(b));
    text::lemma_numeral_injective(a, b, 10);
}

// ---- calls ----

/// A call to the extension.
#[derive(Debug, PartialEq, Eq)]
pub struct Request {
    pub interface: &'static str,
    pub method: &'static str,
    pub args: Option<Value>,
    /// The type the reply must have.
    pub reply_type: &'static str,
}

/// A call, as a mathematical value.
pub struct Asked {
    pub interface: Seq<char>,
    pub method: Seq<char>,
    pub args: Option<Wire>,
    pub reply_type: Seq<char>,
}

impl View for Request {
    type V = Asked;

    open spec fn view(&self) -> Asked {
        Asked {
            interface: self.interface@,
            method: self.method@,
            args: match self.args {
                Some(v) => Some(v@),
                None => None,
            },
            reply_type: self.reply_type@,
        }
    }
}

/// Why a call failed.
#[derive(Debug, PartialEq, Eq)]
pub struct CallError {
    /// Nobody owns the extension's name: it is not running.
    pub absent: bool,
    pub message: String,
}

/// What became of a call.
#[derive(Debug, PartialEq, Eq)]
pub enum Outcome {
    /// There is no bus, so nothing was called.
    NoBus,
    /// The call was made and failed.
    Failed(CallError),
    /// The extension answered.
    Reply(Value),
}

impl Outcome {
    /// The answer, if there is one.
    pub open spec fn answer(self) -> Option<Wire> {
        match self {
            Outcome::Reply(v) => Some(v@),
            _ => None,
        }
    }
}

/// The arguments of `Place`.
pub open spec fn place_args(window: Seq<char>, p: Placed) -> Wire {
    Wire::Tuple(
        seq![
            Wire::Str(window),
            Wire::Str(p.connector),
            Wire::Int32(p.rect.x),
            Wire::Int32(p.rect.y),
            Wire::Int32(p.rect.width),
            Wire::Int32(p.rect.height),
        ],
    )
}

/// The version in an answer.
pub open spec fn answered_version(answer: Option<Wire>) -> Option<int> {
    match answer {
        Some(w) => match w.child(0) {
            Some(v) => match v.unboxed() {
                Some(inner) => inner.as_uint32(),
                None => None,
            },
            None => None,
        },
        None => None,
    }
}

/// The truth value in an answer; false without one.
pub open spec fn answered_yes(answer: Option<Wire>) -> bool {
    match answer {
        Some(w) => match w.child(0) {
            Some(v) => v.as_bool() == Some(true),
            None => false,
        },
        None => false,
    }
}

/// Client of the shell extension.
///
/// A client without a bus calls nothing, and every question it is asked has the
/// answer of an extension that is not there.
#[derive(Debug, Clone, Copy, PartialEq, Eq)]
pub struct Shell {
    pub connected: bool,
}

impl Shell {
    /// A client of the session bus, if there is one.
    pub fn session(connected: bool) -> (r: Shell)
        ensures
            r.connected == connected,
    {
        Shell { connected }
    }

    /// A client that never talks to anything.
    pub fn disconnected() -> (r: Shell)
        ensures
            !r.connected,
    {
        Shell { connected: false }
    }

    fn request(
        &self,
        interface: &'static str,
        method: &'static str,
        args: Option<Value>,
        reply_type: &'static str,
    ) -> (r: Option<Request>)
        ensures
            match r {
                Some(request) => self.connected && request == (Request {
                    interface,
                    method,
                    args,
                    reply_type,
                }),
                None => !self.connected,
            },
    {
        if self.connected {
            Some(Request { interface, method, args, reply_type })
        } else {
            None
        }
    }

    /// Is this the call that `r` makes, or no call without a bus?
    pub open spec fn asks(self, r: Option<Request>, asked: Asked) -> bool {
        match r {
            Some(request) => self.connected && request@ == asked,
            None => !self.connected,
        }
    }

    /// Ask for the extension's protocol version.
    pub fn version(&self) -> (r: Option<Request>)
        ensures
            self.asks(
                r,
                (Asked {
                    interface: "org.freedesktop.DBus.Properties"@,
                    method: "Get"@,
                    args: Some(Wire::Tuple(seq![Wire::Str(INTERFACE@), Wire::Str("Version"@)])),
                    reply_type: "(v)"@,
                }),
            ),
    {
        let mut args: Vec<Value> = Vec::new();
        args.push(Value::Str(INTERFACE.to_owned()));
        args.push(Value::Str("Version".to_owned()));
        proof {
            wire::lemma_models(args@);
            assert(wire::models(args@) =~= seq![Wire::Str(INTERFACE@), Wire::Str("Version"@)]);
        }
        self.request("org.freedesktop.DBus.Properties", "Get", Some(Value::Tuple(args)), "(v)")
    }

    /// The extension's protocol version, or `None` if it is not running.
    pub fn version_from(outcome: &Outcome) -> (r: Option<u32>)
        ensures
            match r {
                Some(v) => answered_version(outcome.answer()) == Some(v as int),
                None => answered_version(outcome.answer()) is None,
            },
    {
        if let Outcome::Reply(reply) = outcome {
            if let Some(Value::Boxed(inner)) = reply.child(0) {
                return inner.get_u32();
            }
        }
        None
    }

    /// Is the extension there, and does it speak our protocol?
    pub fn is_available(version: Option<u32>) -> (r: bool)
        ensures
            r == (version == Some(PROTOCOL_VERSION)),
    {
        match version {
            Some(v) => v == PROTOCOL_VERSION,
            None => false,
        }
    }

    /// Ask for every attached monitor.
    pub fn list_monitors(&self) -> (r: Option<Request>)
        ensures
            self.asks(
                r,
                (Asked {
                    interface: INTERFACE@,
                    method: "ListMonitors"@,
                    args: None,
                    reply_type: "(a(ssbiiii))"@,
                }),
            ),
    {
        self.request(INTERFACE, "ListMonitors", None, "(a(ssbiiii))")
    }

    /// Every attached monitor. None when the extension did not answer, which is
    /// then read as "cannot place".
    pub fn monitors_from(outcome: &Outcome) -> (r: Vec<Monitor>)
        ensures
            screens(r@) == (match outcome.answer() {
                Some(reply) => decoded_monitors(reply_rows(reply)),
                None => seq![],
            }),
    {
        match outcome {
            Outcome::Reply(reply) => parse_monitors(reply),
            _ => {
                let none: Vec<Monitor> = Vec::new();
                assert(screens(none@) =~= seq![]);
                none
            },
        }
    }

    /// Ask to move and resize a window. The coordinates are relative to the
    /// monitor; the extension converts them against the live work area, so that
    /// a stale layout on our side cannot fling a note off screen.
    pub fn place(&self, object_path: &str, placement: &Placement) -> (r: Option<Request>)
        ensures
            self.asks(
                r,
                (Asked {
                    interface: INTERFACE@,
                    method: "Place"@,
                    args: Some(place_args(object_path@, placement@)),
                    reply_type: "(b)"@,
                }),
            ),
    {
        let mut args: Vec<Value> = Vec::new();
        args.push(Value::Str(object_path.to_owned()));
        args.push(Value::Str(placement.connector.clone()));
        args.push(Value::Int32(placement.x));
        args.push(Value::Int32(placement.y));
        args.push(Value::Int32(placement.width));
        args.push(Value::Int32(placement.height));
        proof {
            wire::lemma_models(args@);
            assert(Wire::Tuple(wire::models(args@)) == place_args(object_path@, placement@)) by {
                assert(wire::models(args@) =~= place_args(object_path@, placement@)->Tuple_0);
            }
        }
        self.request(INTERFACE, "Place", Some(Value::Tuple(args)), "(b)")
    }

    /// Ask to keep a window above others, or to stop doing so.
    pub fn set_pinned(&self, object_path: &str, pinned: bool) -> (r: Option<Request>)
        ensures
            self.asks(
                r,
                (Asked {
                    interface: INTERFACE@,
                    method: "SetPinned"@,
                    args: Some(Wire::Tuple(seq![Wire::Str(object_path@), Wire::Bool(pinned)])),
                    reply_type: "(b)"@,
                }),
            ),
    {
        let mut args: Vec<Value> = Vec::new();
        args.push(Value::Str(object_path.to_owned()));
        args.push(Value::Bool(pinned));
        proof {
            wire::lemma_models(args@);
            assert(wire::models(args@) =~= seq![Wire::Str(object_path@), Wire::Bool(pinned)]);
        }
        self.request(INTERFACE, "SetPinned", Some(Value::Tuple(args)), "(b)")
    }

    /// Did the extension do as it was asked?
    pub fn done_from(outcome: &Outcome) -> (r: bool)
        ensures
            r == answered_yes(outcome.answer()),
    {
        if let Outcome::Reply(reply) = outcome {
            match bool_at(reply, 0) {
                Some(done) => done,
                None => false,
            }
        } else {
            false
        }
    }

    /// Ask where the compositor has a window.
    pub fn query(&self, object_path: &str) -> (r: Option<Request>)
        ensures
            self.asks(
                r,
                (Asked {
                    interface: INTERFACE@,
                    method: "Query"@,
                    args: Some(Wire::Tuple(seq![Wire::Str(object_path@)])),
                    reply_type: "(bsiiii)"@,
                }),
            ),
    {
        let mut args: Vec<Value> = Vec::new();
        args.push(Value::Str(object_path.to_owned()));
        proof {
            wire::lemma_models(args@);
            assert(wire::models(args@) =~= seq![Wire::Str(object_path@)]);
        }
        self.request(INTERFACE, "Query", Some(Value::Tuple(args)), "(bsiiii)")
    }

    /// Where the compositor has a window, relative to its monitor. `None` when
    /// the window is not on screen yet, or the extension did not answer.
    pub fn placement_from(outcome: &Outcome) -> (r: Option<Placement>)
        ensures
            match (r, outcome.answer()) {
                (Some(p), Some(reply)) => decoded_placement(reply) == Some(p@),
                (None, Some(reply)) => decoded_placement(reply) is None,
                (r, None) => r is None,
            },
    {
        match outcome {
            Outcome::Reply(reply) => parse_placement(reply),
            _ => None,
        }
    }

    /// Ask where the compositor has every note window, in one round trip.
    pub fn query_all(&self) -> (r: Option<Request>)
        ensures
            self.asks(
                r,
                (Asked {
                    interface: INTERFACE@,
                    method: "QueryAll"@,
                    args: None,
                    reply_type: "(a(ssiiii))"@,
                }),
            ),
    {
        self.request(INTERFACE, "QueryAll", None, "(a(ssiiii))")
    }

    /// Where the compositor has every note window, by object path.
    pub fn windows_from(outcome: &Outcome) -> (r: Vec<(String, Placement)>)
        ensures
            windows(r@) == (match outcome.answer() {
                Some(reply) => decoded_windows(reply_rows(reply)),
                None => seq![],
            }),
    {
        match outcome {
            Outcome::Reply(reply) => parse_query_all(reply),
            _ => {
                let none: Vec<(String, Placement)> = Vec::new();
                assert(windows(none@) =~= seq![]);
                none
            },
        }
    }
}

/// What is sent to place a window has the type that the extension declares.
pub proof fn placing_has_the_declared_type(window: Seq<char>, p: Placed)
    ensures
        place_args(window, p).kind() == "(ssiiii)"@,
        place_args(window, p).sound(),
{
    reveal_strlit("(ssiiii)");
    let items = place_args(window, p)->Tuple_0;
    wire::lemma_kinds_take(items, 0);
    wire::lemma_kinds_take(items, 1);
    wire::lemma_kinds_take(items, 2);
    wire::lemma_kinds_take(items, 3);
    wire::lemma_kinds_take(items, 4);
    wire::lemma_kinds_take(items, 5);
    assert(items.take(6) =~= items);
    assert(wire::kinds(items) =~= seq!['s', 's', 'i', 'i', 'i', 'i']);
    assert(place_args(window, p).kind() =~= "(ssiiii)"@);
    assert(wire::all_sound(items)) by {
        assert forall|i: int| 0 <= i < items.len() implies (#[trigger] items[i]).sound() by {}
    }
}

/// The other questions have the types that the extension declares, too.
pub proof fn questions_have_the_declared_types(window: Seq<char>, name: Seq<char>, pinned: bool)
    ensures
        Wire::Tuple(seq![Wire::Str(window)]).kind() == "(s)"@,
        Wire::Tuple(seq![Wire::Str(window), Wire::Bool(pinned)]).kind() == "(sb)"@,
        Wire::Tuple(seq![Wire::Str(window), Wire::Str(name)]).kind() == "(ss)"@,
{
    reveal_strlit("(s)");
    reveal_strlit("(sb)");
    reveal_strlit("(ss)");
    let one = seq![Wire::Str(window)];
    let flag = seq![Wire::Str(window), Wire::Bool(pinned)];
    let two = seq![Wire::Str(window), Wire::Str(name)];
    wire::lemma_kinds_take(one, 0);
    wire::lemma_kinds_take(flag, 0);
    wire::lemma_kinds_take(flag, 1);
    wire::lemma_kinds_take(two, 0);
    wire::lemma_kinds_take(two, 1);
    assert(one.take(1) =~= one && flag.take(2) =~= flag && two.take(2) =~= two);
    assert(wire::kinds(one) =~= seq!['s']);
    assert(wire::kinds(flag) =~= seq!['s', 'b']);
    assert(wire::kinds(two) =~= seq!['s', 's']);
    assert(Wire::Tuple(one).kind() =~= "(s)"@);
    assert(Wire::Tuple(flag).kind() =~= "(sb)"@);
    assert(Wire::Tuple(two).kind() =~= "(ss)"@);
}

// ---- failures ----

/// The last failure of one method.
#[derive(Debug)]
pub struct Failure {
    pub method: String,
    pub message: String,
}

/// The failures that were reported, the last one of each method.
///
/// The windows are asked about every two seconds, so an extension that is
/// broken for good would otherwise write the same line to the journal all day
/// and bury everything else. What carries information is the first failure,
/// and any change.
#[derive(Debug)]
pub struct FailureLog {
    pub seen: Vec<Failure>,
}

/// Failures of this method.
pub open spec fn of_method(method: Seq<char>) -> spec_fn(Failure) -> bool {
    |f: Failure| f.method@ == method
}

impl View for FailureLog {
    type V = Map<Seq<char>, Seq<char>>;

    open spec fn view(&self) -> Map<Seq<char>, Seq<char>> {
        Map::new(
            |method: Seq<char>| search::first_where(self.seen@, of_method(method)) is Some,
            |method: Seq<char>|
                self.seen@[search::first_where(self.seen@, of_method(method))->0].message@,
        )
    }
}

/// What to write about a failed call.
#[derive(Debug, PartialEq, Eq)]
pub enum LogLine {
    Nothing,
    /// For those who look for it.
    Debug(String),
    /// For everyone.
    Warning(String),
}

/// What is written when the extension is not running.
pub open spec fn absent_text(method: Seq<char>) -> Seq<char> {
    method + ": shell extension not running"@
}

/// What is written when the extension misbehaves.
pub open spec fn failed_text(method: Seq<char>, message: Seq<char>) -> Seq<char> {
    "shell extension call "@ + method + " failed: "@ + message
}

impl FailureLog {
    pub fn new() -> (r: FailureLog)
        ensures
            r@ == Map::<Seq<char>, Seq<char>>::empty(),
    {
        let r = FailureLog { seen: Vec::new() };
        assert(r@ =~= Map::<Seq<char>, Seq<char>>::empty());
        r
    }

    /// Is this failure of this method news? Remembers it either way.
    pub fn first_time_seeing(&mut self, method: &str, message: &str) -> (r: bool)
        ensures
            r == !old(self)@.contains_pair(method@, message@),
            final(self)@ == old(self)@.insert(method@, message@),
    {
        let mut i: usize = 0;
        let ghost wanted = of_method(method@);
        while i < self.seen.len()
            invariant
                i <= self.seen@.len(),
                wanted == of_method(method@),
                self.seen@ == old(self).seen@,
                search::first_where(self.seen@, wanted) == search::first_from(
                    self.seen@,
                    wanted,
                    i as int,
                ),
            decreases self.seen@.len() - i,
        {
            if *self.seen[i].method.as_str() == *method {
                if *self.seen[i].message.as_str() == *message {
                    assert(self@ =~= old(self)@.insert(method@, message@));
                    return false;
                }
                let entry = Failure { method: method.to_owned(), message: message.to_owned() };
                self.seen.set(i, entry);
                proof {
                    lemma_replaced(old(self).seen@, i as int, entry);
                    assert(self@ =~= old(self)@.insert(method@, message@)) by {
                        lemma_view_replaced(*old(self), *self, i as int, entry);
                    }
                }
                return true;
            }
            i += 1;
        }
        let entry = Failure { method: method.to_owned(), message: message.to_owned() };
        self.seen.push(entry);
        proof {
            lemma_view_pushed(*old(self), *self, entry);
        }
        true
    }

    /// What to write about a failed call.
    ///
    /// An extension that is not installed is an expected state, and must not
    /// warn. Anything else means that it is there and misbehaves.
    pub fn log_call_failure(&mut self, method: &str, error: &CallError) -> (r: LogLine)
        ensures
            if error.absent {
                &&& r matches LogLine::Debug(line) && line@ == absent_text(method@)
                &&& final(self)@ == old(self)@
            } else {
                &&& final(self)@ == old(self)@.insert(method@, error.message@)
                &&& if old(self)@.contains_pair(method@, error.message@) {
                    r == LogLine::Nothing
                } else {
                    r matches LogLine::Warning(line) && line@ == failed_text(
                        method@,
                        error.message@,
                    )
                }
            },
    {
        if error.absent {
            let mut line = method.to_owned();
            line.append(": shell extension not running");
            return LogLine::Debug(line);
        }
        if !self.first_time_seeing(method, error.message.as_str()) {
            return LogLine::Nothing;
        }
        let mut line = "shell extension call ".to_owned();
        line.append(method);
        line.append(" failed: ");
        line.append(error.message.as_str());
        LogLine::Warning(line)
    }
}

/// Replacing an entry by one for the same method changes no search.
proof fn lemma_replaced(seen: Seq<Failure>, k: int, entry: Failure)
    requires
        0 <= k < seen.len(),
        entry.method@ == seen[k].method@,
    ensures
        forall|method: Seq<char>|
            #[trigger] search::first_where(seen.update(k, entry), of_method(method))
                == search::first_where(seen, of_method(method)),
{
    assert forall|method: Seq<char>|
        #[trigger] search::first_where(seen.update(k, entry), of_method(method))
            == search::first_where(seen, of_method(method)) by {
        lemma_same_search(seen, seen.update(k, entry), of_method(method), 0);
    }
}

proof fn lemma_same_search(
    a: Seq<Failure>,
    b: Seq<Failure>,
    wanted: spec_fn(Failure) -> bool,
    from: int,
)
    requires
        a.len() == b.len(),
        0 <= from,
        forall|i: int| 0 <= i < a.len() ==> wanted(#[trigger] a[i]) == wanted(b[i]),
    ensures
        search::first_from(a, wanted, from) == search::first_from(b, wanted, from),
    decreases a.len() - from,
{
    if from < a.len() {
        assert(wanted(a[from]) == wanted(b[from]));
        lemma_same_search(a, b, wanted, from + 1);
    }
}

proof fn lemma_view_replaced(before: FailureLog, after: FailureLog, k: int, entry: Failure)
    requires
        0 <= k < before.seen@.len(),
        search::first_where(before.seen@, of_method(entry.method@)) == Some(k),
        after.seen@ == before.seen@.update(k, entry),
    ensures
        after@ =~= before@.insert(entry.method@, entry.message@),
{
    search::lemma_first_from(before.seen@, of_method(entry.method@), 0);
    lemma_replaced(before.seen@, k, entry);
    assert forall|method: Seq<char>| #[trigger] after@.dom().contains(method) implies after@[method]
        == before@.insert(entry.method@, entry.message@)[method] by {
        search::lemma_first_from(before.seen@, of_method(method), 0);
    }
}

proof fn lemma_view_pushed(before: FailureLog, after: FailureLog, entry: Failure)
    requires
        search::first_where(before.seen@, of_method(entry.method@)) is None,
        after.seen@ == before.seen@.push(entry),
    ensures
        after@ =~= before@.insert(entry.method@, entry.message@),
{
    let n = before.seen@.len() as int;
    assert forall|method: Seq<char>|
        #[trigger] search::first_where(after.seen@, of_method(method)) == (
        match search::first_where(before.seen@, of_method(method)) {
            Some(k) => Some(k),
            None => if method == entry.method@ {
                Some(n)
            } else {
                None
            },
        }) by {
        let wanted = of_method(method);
        search::lemma_first_from(before.seen@, wanted, 0);
        search::lemma_first_from(after.seen@, wanted, 0);
        assert(after.seen@[n] == entry);
        assert forall|i: int| 0 <= i < n implies wanted(#[trigger] after.seen@[i]) == wanted(
            before.seen@[i],
        ) by {}
        match search::first_where(before.seen@, wanted) {
            Some(k) => {
                assert(wanted(after.seen@[k]));
                assert forall|j: int| 0 <= j < k implies !#[trigger] wanted(after.seen@[j]) by {
                    assert(!wanted(before.seen@[j]));
                }
                search::lemma_is_first(after.seen@, wanted, k);
            },
            None => {
                assert forall|j: int| 0 <= j < n implies !#[trigger] wanted(after.seen@[j]) by {
                    assert(!wanted(before.seen@[j]));
                }
                if method == entry.method@ {
                    search::lemma_is_first(after.seen@, wanted, n);
                }
            },
        }
    }
    assert forall|method: Seq<char>| #[trigger] after@.dom().contains(method) implies after@[method]
        == before@.insert(entry.method@, entry.message@)[method] by {
        search::lemma_first_from(before.seen@, of_method(method), 0);
    }
}

/// A failure is news once: straight after it is seen it is not, a different
/// failure of the method is, and other methods are not affected.
pub proof fn failures_are_reported_once(
    seen: Map<Seq<char>, Seq<char>>,
    method: Seq<char>,
    message: Seq<char>,
    other_message: Seq<char>,
    other_method: Seq<char>,
)
    requires
        other_message != message,
        other_method != method,
    ensures
        seen.insert(method, message).contains_pair(method, message),
        !seen.insert(method, message).contains_pair(method, other_message),
        seen.insert(method, message).contains_pair(other_method, other_message)
            == seen.contains_pair(other_method, other_message),
{
}

} // verus!
