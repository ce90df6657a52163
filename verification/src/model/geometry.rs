//! Multi-monitor placement arithmetic.
//!
//! Notes remember a monitor connector plus monitor-relative coordinates. This
//! module turns that back into a placement on the monitors attached right now,
//! whether the monitor is gone, the monitor shrank, the layout moved, or the
//! note was never placed at all.

use crate::model::note::{NoteGeometry, MIN_HEIGHT, MIN_WIDTH};
use crate::search;
use vstd::prelude::*;

verus! {

/// A monitor as the shell extension reports it.
///
/// The rectangle is the **work area** in absolute coordinates, panels and docks
/// already subtracted, so a note inside it never hides under the top bar.
#[derive(Debug, PartialEq, Eq)]
pub struct Monitor {
    /// Connector name, such as `"DP-1"`. Stable across reboots for a port.
    pub connector: String,
    /// Human-readable name, for display only.
    pub display_name: String,
    pub primary: bool,
    pub x: i32,
    pub y: i32,
    pub width: i32,
    pub height: i32,
}

impl Clone for Monitor {
    fn clone(&self) -> (r: Self)
        ensures
            r == *self,
    {
        Monitor {
            connector: self.connector.clone(),
            display_name: self.display_name.clone(),
            primary: self.primary,
            x: self.x,
            y: self.y,
            width: self.width,
            height: self.height,
        }
    }
}

/// A monitor, as a mathematical value.
pub struct Screen {
    pub connector: Seq<char>,
    pub display_name: Seq<char>,
    pub primary: bool,
    pub x: int,
    pub y: int,
    pub width: int,
    pub height: int,
}

impl View for Monitor {
    type V = Screen;

    open spec fn view(&self) -> Screen {
        Screen {
            connector: self.connector@,
            display_name: self.display_name@,
            primary: self.primary,
            x: self.x as int,
            y: self.y as int,
            width: self.width as int,
            height: self.height as int,
        }
    }
}

/// A resolved placement: which monitor, and monitor-relative position and size.
#[derive(Debug, PartialEq, Eq)]
pub struct Placement {
    pub connector: String,
    pub x: i32,
    pub y: i32,
    pub width: i32,
    pub height: i32,
}

impl Clone for Placement {
    fn clone(&self) -> (r: Self)
        ensures
            r == *self,
    {
        Placement {
            connector: self.connector.clone(),
            x: self.x,
            y: self.y,
            width: self.width,
            height: self.height,
        }
    }
}

impl Monitor {
    /// Is the absolute point inside the work area?
    pub open spec fn holds(self, x: int, y: int) -> bool {
        &&& self.x <= x < self.x + self.width
        &&& self.y <= y < self.y + self.height
    }

    /// Is a rectangle, relative to the work area, wholly inside it?
    pub open spec fn encloses(self, x: int, y: int, width: int, height: int) -> bool {
        &&& 0 <= x
        &&& x + width <= self.width
        &&& 0 <= y
        &&& y + height <= self.height
    }

    /// A point relative to the work area, in absolute coordinates.
    pub open spec fn absolute(self, x: int, y: int) -> (int, int) {
        (self.x + x, self.y + y)
    }

    /// An absolute point, relative to the work area.
    pub open spec fn relative(self, x: int, y: int) -> (int, int) {
        (x - self.x, y - self.y)
    }

    /// Translate a monitor-relative point into absolute coordinates.
    pub fn to_absolute(&self, x: i32, y: i32) -> (r: (i32, i32))
        requires
            i32::MIN <= self.x + x <= i32::MAX,
            i32::MIN <= self.y + y <= i32::MAX,
        ensures
            (r.0 as int, r.1 as int) == self.absolute(x as int, y as int),
    {
        (self.x + x, self.y + y)
    }

    /// Translate an absolute point into monitor-relative coordinates.
    pub fn to_relative(&self, x: i32, y: i32) -> (r: (i32, i32))
        requires
            i32::MIN <= x - self.x <= i32::MAX,
            i32::MIN <= y - self.y <= i32::MAX,
        ensures
            (r.0 as int, r.1 as int) == self.relative(x as int, y as int),
    {
        (x - self.x, y - self.y)
    }

    /// Does this absolute point fall inside the work area?
    pub fn contains(&self, x: i32, y: i32) -> (r: bool)
        ensures
            r == self.holds(x as int, y as int),
    {
        x >= self.x && y >= self.y && (x as i64) < self.x as i64 + self.width as i64 && (y as i64)
            < self.y as i64 + self.height as i64
    }
}

// ---- choosing a monitor ----

/// Monitors on this connector.
pub open spec fn on_connector(connector: Seq<char>) -> spec_fn(Monitor) -> bool {
    |m: Monitor| m.connector@ == connector
}

/// Primary monitors.
pub open spec fn is_primary() -> spec_fn(Monitor) -> bool {
    |m: Monitor| m.primary
}

/// Index of the first primary monitor, else of the first monitor.
pub open spec fn fallback_index(monitors: Seq<Monitor>) -> Option<int> {
    if let Some(k) = search::first_where(monitors, is_primary()) {
        Some(k)
    } else if monitors.len() > 0 {
        Some(0)
    } else {
        None
    }
}

/// Index of the monitor a note should appear on: the first on the remembered
/// connector, else the first primary one, else the first one.
pub open spec fn picked_index(connector: Option<Seq<char>>, monitors: Seq<Monitor>) -> Option<int> {
    if let Some(wanted) = connector {
        if let Some(k) = search::first_where(monitors, on_connector(wanted)) {
            Some(k)
        } else {
            fallback_index(monitors)
        }
    } else {
        fallback_index(monitors)
    }
}

/// The connector a note remembers, as text.
pub open spec fn remembered(monitor: Option<String>) -> Option<Seq<char>> {
    match monitor {
        Some(connector) => Some(connector@),
        None => None,
    }
}

/// An optional connector, as text.
pub open spec fn wanted_connector(connector: Option<&str>) -> Option<Seq<char>> {
    match connector {
        Some(c) => Some(c@),
        None => None,
    }
}

fn find_connector(monitors: &[Monitor], wanted: &str) -> (r: Option<usize>)
    ensures
        match search::first_where(monitors@, on_connector(wanted@)) {
            Some(k) => r matches Some(i) && i == k && i < monitors@.len(),
            None => r is None,
        },
{
    let mut i: usize = 0;
    while i < monitors.len()
        invariant
            i <= monitors@.len(),
            search::first_where(monitors@, on_connector(wanted@)) == search::first_from(
                monitors@,
                on_connector(wanted@),
                i as int,
            ),
        decreases monitors@.len() - i,
    {
        if *monitors[i].connector.as_str() == *wanted {
            return Some(i);
        }
        i += 1;
    }
    None
}

fn find_primary(monitors: &[Monitor]) -> (r: Option<usize>)
    ensures
        match search::first_where(monitors@, is_primary()) {
            Some(k) => r matches Some(i) && i == k && i < monitors@.len(),
            None => r is None,
        },
{
    let mut i: usize = 0;
    while i < monitors.len()
        invariant
            i <= monitors@.len(),
            search::first_where(monitors@, is_primary()) == search::first_from(
                monitors@,
                is_primary(),
                i as int,
            ),
        decreases monitors@.len() - i,
    {
        if monitors[i].primary {
            return Some(i);
        }
        i += 1;
    }
    None
}

/// Choose the monitor a note should appear on.
///
/// The remembered connector comes first, then the primary monitor, then
/// whatever is first. `None` only when no monitor is attached, which the caller
/// takes for "the shell is not answering, skip placement".
pub fn pick_monitor<'a>(connector: Option<&str>, monitors: &'a [Monitor]) -> (r: Option<
    &'a Monitor,
>)
    ensures
        match picked_index(wanted_connector(connector), monitors@) {
            Some(k) => r == Some(&monitors@[k]),
            None => r is None,
        },
{
    if let Some(wanted) = connector {
        if let Some(i) = find_connector(monitors, wanted) {
            return Some(&monitors[i]);
        }
    }
    if let Some(i) = find_primary(monitors) {
        Some(&monitors[i])
    } else if monitors.len() > 0 {
        Some(&monitors[0])
    } else {
        None
    }
}

// ---- resolving a stored geometry ----

/// A position and a size.
pub struct Rect {
    pub x: int,
    pub y: int,
    pub width: int,
    pub height: int,
}

/// `v` held between `low` and `high`.
pub open spec fn clamped(v: int, low: int, high: int) -> int {
    if v < low {
        low
    } else if v > high {
        high
    } else {
        v
    }
}

/// The smaller of two numbers.
pub open spec fn smaller(a: int, b: int) -> int {
    if a < b {
        a
    } else {
        b
    }
}

/// Where a note with this geometry goes on `m`. Its size is capped at the work
/// area, and grown to the minimum where the work area allows it; then the
/// position is pulled in so that no edge hangs off.
pub open spec fn settled(g: NoteGeometry, m: Monitor) -> Rect {
    let width = clamped(
        g.grown().width as int,
        smaller(MIN_WIDTH as int, m.width as int),
        m.width as int,
    );
    let height = clamped(
        g.grown().height as int,
        smaller(MIN_HEIGHT as int, m.height as int),
        m.height as int,
    );
    Rect {
        x: clamped(g.x as int, 0, m.width - width),
        y: clamped(g.y as int, 0, m.height - height),
        width,
        height,
    }
}

/// A placement, as a mathematical value.
pub struct Placed {
    pub connector: Seq<char>,
    pub rect: Rect,
}

impl View for Placement {
    type V = Placed;

    open spec fn view(&self) -> Placed {
        Placed {
            connector: self.connector@,
            rect: Rect {
                x: self.x as int,
                y: self.y as int,
                width: self.width as int,
                height: self.height as int,
            },
        }
    }
}

/// Where a note with this geometry goes on the monitors attached now.
pub open spec fn resolved(g: NoteGeometry, monitors: Seq<Monitor>) -> Option<Placed> {
    if let Some(k) = picked_index(remembered(g.monitor), monitors) {
        Some(Placed { connector: monitors[k].connector@, rect: settled(g, monitors[k]) })
    } else {
        None
    }
}

fn clamp(v: i32, low: i32, high: i32) -> (r: i32)
    ensures
        r == clamped(v as int, low as int, high as int),
{
    if v < low {
        low
    } else if v > high {
        high
    } else {
        v
    }
}

fn min(a: i32, b: i32) -> (r: i32)
    ensures
        r == smaller(a as int, b as int),
{
    if a < b {
        a
    } else {
        b
    }
}

/// Resolve stored geometry into a placement on the current monitors.
///
/// The result is always wholly inside the work area. A note whose monitor was
/// unplugged reappears on the primary monitor at the same relative spot, pulled
/// in if that monitor is smaller.
pub fn resolve(geometry: &NoteGeometry, monitors: &[Monitor]) -> (r: Option<Placement>)
    ensures
        match r {
            Some(p) => resolved(*geometry, monitors@) == Some(p@),
            None => resolved(*geometry, monitors@) is None,
        },
{
    let geometry = geometry.normalized();
    let connector = match &geometry.monitor {
        Some(name) => Some(name.as_str()),
        None => None,
    };
    match pick_monitor(connector, monitors) {
        Some(monitor) => {
            // The size first: a position clamped against a size that does not
            // fit would have a negative range.
            let width: i32 = clamp(geometry.width, min(MIN_WIDTH, monitor.width), monitor.width);
            let height: i32 = clamp(geometry.height, min(MIN_HEIGHT, monitor.height), monitor.height);
            Some(
                Placement {
                    connector: monitor.connector.clone(),
                    x: clamp(geometry.x, 0, monitor.width - width),
                    y: clamp(geometry.y, 0, monitor.height - height),
                    width,
                    height,
                },
            )
        },
        None => None,
    }
}

// ---- cascading new notes ----

/// Distance between successive cascaded notes, in logical pixels.
pub const CASCADE_STEP: i32 = 34;

/// Two notes are stacked if both axes are within this many pixels.
pub const CASCADE_TOLERANCE: i32 = 16;

/// Most notes in one cascade.
pub const CASCADE_SLOTS: i32 = 32;

/// Division that drops the fraction.
pub open spec fn truncated_div(a: int, b: int) -> int {
    if a >= 0 {
        a / b
    } else {
        -((-a) / b)
    }
}

/// How far from the edge of a work area `extent` long a note `size` long can
/// start.
pub open spec fn slack(extent: int, size: int) -> int {
    let room = extent - smaller(size, extent);
    if room > 0 {
        room
    } else {
        0
    }
}

/// Where the cascade starts on one axis: a little in from the corner.
pub open spec fn cascade_base(extent: int, size: int) -> int {
    smaller(truncated_div(extent, 20), slack(extent, size))
}

/// How many slots fit before the cascade runs off the work area.
pub open spec fn slots_within(span_x: int, span_y: int) -> int {
    clamped(
        truncated_div(smaller(span_x, span_y), CASCADE_STEP as int),
        1,
        CASCADE_SLOTS as int,
    )
}

/// How many slots a note of this size has on `m`.
pub open spec fn cascade_len(m: Monitor, width: int, height: int) -> int {
    slots_within(
        slack(m.width as int, width) - cascade_base(m.width as int, width),
        slack(m.height as int, height) - cascade_base(m.height as int, height),
    )
}

/// The slot after `step` steps.
pub open spec fn cascade_slot(m: Monitor, width: int, height: int, step: int) -> (int, int) {
    (
        smaller(cascade_base(m.width as int, width) + step * CASCADE_STEP, slack(m.width as int, width)),
        smaller(
            cascade_base(m.height as int, height) + step * CASCADE_STEP,
            slack(m.height as int, height),
        ),
    )
}

/// Would a note at `a` be stacked on one at `b`?
pub open spec fn stacked(a: (int, int), b: (int, int)) -> bool {
    &&& -CASCADE_TOLERANCE <= a.0 - b.0 <= CASCADE_TOLERANCE
    &&& -CASCADE_TOLERANCE <= a.1 - b.1 <= CASCADE_TOLERANCE
}

/// Is a note already at `slot`?
pub open spec fn slot_taken(occupied: Seq<(i32, i32)>, slot: (int, int)) -> bool {
    exists|i: int|
        0 <= i < occupied.len() && stacked(
            ((#[trigger] occupied[i]).0 as int, occupied[i].1 as int),
            slot,
        )
}

/// The first slot at or after `step` that is free; the first slot of all when
/// every one is taken.
pub open spec fn cascade_from(
    m: Monitor,
    occupied: Seq<(i32, i32)>,
    width: int,
    height: int,
    step: int,
) -> (int, int)
    decreases cascade_len(m, width, height) - step,
{
    if step >= cascade_len(m, width, height) {
        cascade_slot(m, width, height, 0)
    } else if !slot_taken(occupied, cascade_slot(m, width, height, step)) {
        cascade_slot(m, width, height, step)
    } else {
        cascade_from(m, occupied, width, height, step + 1)
    }
}

/// How many distinct slots fit before running off the work area.
fn slot_count(span_x: i64, span_y: i64) -> (r: i64)
    requires
        -0x1_0000_0000_0000 < span_x < 0x1_0000_0000_0000,
        -0x1_0000_0000_0000 < span_y < 0x1_0000_0000_0000,
    ensures
        r == slots_within(span_x as int, span_y as int),
{
    let span: i64 = if span_x < span_y {
        span_x
    } else {
        span_y
    };
    if span < CASCADE_STEP as i64 {
        1
    } else if span / CASCADE_STEP as i64 > CASCADE_SLOTS as i64 {
        CASCADE_SLOTS as i64
    } else {
        span / CASCADE_STEP as i64
    }
}

/// One axis of the cascade: where it starts, and where it must stop.
fn cascade_axis(extent: i32, size: i32) -> (r: (i64, i64))
    ensures
        r.0 == cascade_base(extent as int, size as int),
        r.1 == slack(extent as int, size as int),
        -0x1_0000_0000 < r.0 <= r.1 < 0x2_0000_0000,
        r.0 <= i32::MAX / 20,
        r.0 >= i32::MIN / 20 - 1,
{
    let room: i64 = extent as i64 - min(size, extent) as i64;
    let most: i64 = if room > 0 {
        room
    } else {
        0
    };
    let inset: i64 = if extent >= 0 {
        extent as i64 / 20
    } else {
        -(-(extent as i64) / 20)
    };
    if inset < most {
        (inset, most)
    } else {
        (most, most)
    }
}

/// Pick an opening position for a note that was never placed.
///
/// Notes cascade down and right from the top left of the work area, skipping
/// slots already occupied, so that several new notes in a row do not end up in
/// one pile. When every slot is taken the cascade starts over: by then there
/// are so many notes on screen that the exact place no longer matters.
pub fn cascade(monitor: &Monitor, occupied: &[(i32, i32)], width: i32, height: i32) -> (r: (
    i32,
    i32,
))
    ensures
        (r.0 as int, r.1 as int) == cascade_from(
            *monitor,
            occupied@,
            width as int,
            height as int,
            0,
        ),
{
    let (base_x, max_x) = cascade_axis(monitor.width, width);
    let (base_y, max_y) = cascade_axis(monitor.height, height);
    let slots: i64 = slot_count(max_x - base_x, max_y - base_y);
    let mut step: i64 = 0;
    while step < slots
        invariant
            0 <= step <= slots <= CASCADE_SLOTS,
            base_x == cascade_base(monitor.width as int, width as int),
            base_y == cascade_base(monitor.height as int, height as int),
            max_x == slack(monitor.width as int, width as int),
            max_y == slack(monitor.height as int, height as int),
            slots == cascade_len(*monitor, width as int, height as int),
            i32::MIN / 20 - 1 <= base_x <= i32::MAX / 20,
            i32::MIN / 20 - 1 <= base_y <= i32::MAX / 20,
            base_x <= max_x < 0x2_0000_0000,
            base_y <= max_y < 0x2_0000_0000,
            cascade_from(*monitor, occupied@, width as int, height as int, 0) == cascade_from(
                *monitor,
                occupied@,
                width as int,
                height as int,
                step as int,
            ),
        decreases slots - step,
    {
        let along: i64 = step * CASCADE_STEP as i64;
        let x: i64 = if base_x + along < max_x {
            base_x + along
        } else {
            max_x
        };
        let y: i64 = if base_y + along < max_y {
            base_y + along
        } else {
            max_y
        };
        let ghost slot = cascade_slot(*monitor, width as int, height as int, step as int);
        assert(slot == (x as int, y as int));
        let mut taken = false;
        let mut i: usize = 0;
        while i < occupied.len()
            invariant
                i <= occupied@.len(),
                -0x1_0000_0000 < x < 0x2_0000_0000,
                -0x1_0000_0000 < y < 0x2_0000_0000,
                slot == (x as int, y as int),
                taken == exists|j: int|
                    0 <= j < i && stacked(
                        ((#[trigger] occupied@[j]).0 as int, occupied@[j].1 as int),
                        slot,
                    ),
            decreases occupied@.len() - i,
        {
            let dx: i64 = occupied[i].0 as i64 - x;
            let dy: i64 = occupied[i].1 as i64 - y;
            let tolerance: i64 = CASCADE_TOLERANCE as i64;
            let near = -tolerance <= dx && dx <= tolerance && -tolerance <= dy && dy <= tolerance;
            assert(near == stacked((occupied@[i as int].0 as int, occupied@[i as int].1 as int), slot));
            taken = taken || near;
            i += 1;
        }
        if !taken {
            return (x as i32, y as i32);
        }
        step += 1;
    }
    (base_x as i32, base_y as i32)
}

} // verus!
