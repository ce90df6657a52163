//! What holds of placement as a whole.

use crate::model::geometry;
use crate::model::geometry::{Monitor, CASCADE_STEP};
use crate::model::note::{NoteGeometry, MIN_HEIGHT, MIN_WIDTH};
use crate::search;
use vstd::prelude::*;

verus! {

/// Going to absolute coordinates and back is going nowhere.
pub proof fn translation_round_trips(m: Monitor, x: int, y: int)
    ensures
        m.relative(m.absolute(x, y).0, m.absolute(x, y).1) == (x, y),
        m.absolute(m.relative(x, y).0, m.relative(x, y).1) == (x, y),
{
}

/// The absolute points inside a work area are those whose relative
/// coordinates lie within its size.
pub proof fn containment_is_relative(m: Monitor, x: int, y: int)
    ensures
        m.holds(m.absolute(x, y).0, m.absolute(x, y).1) == (0 <= x < m.width && 0 <= y
            < m.height),
{
}

// ---- choosing a monitor ----

/// A monitor is picked exactly when one is attached.
pub proof fn some_monitor_is_picked(connector: Option<Seq<char>>, monitors: Seq<Monitor>)
    ensures
        match geometry::picked_index(connector, monitors) {
            Some(k) => 0 <= k < monitors.len(),
            None => monitors.len() == 0,
        },
{
    search::lemma_first_from(monitors, geometry::is_primary(), 0);
    if let Some(wanted) = connector {
        search::lemma_first_from(monitors, geometry::on_connector(wanted), 0);
    }
}

/// The remembered monitor is picked whenever it is attached.
pub proof fn the_remembered_monitor_wins(wanted: Seq<char>, monitors: Seq<Monitor>, i: int)
    requires
        0 <= i < monitors.len(),
        monitors[i].connector@ == wanted,
    ensures
        geometry::picked_index(Some(wanted), monitors) matches Some(k) && 0 <= k <= i
            && monitors[k].connector@ == wanted,
{
    let on = geometry::on_connector(wanted);
    search::lemma_first_from(monitors, on, 0);
    assert(on(monitors[i]));
}

/// When the remembered monitor is gone, or none is remembered, a primary
/// monitor takes over, and the first monitor when none is primary.
pub proof fn the_primary_monitor_takes_over(connector: Option<Seq<char>>, monitors: Seq<Monitor>)
    requires
        monitors.len() > 0,
        connector matches Some(wanted) ==> forall|i: int|
            0 <= i < monitors.len() ==> (#[trigger] monitors[i]).connector@ != wanted,
    ensures
        geometry::picked_index(connector, monitors) matches Some(k) && {
            ||| monitors[k].primary
            ||| k == 0 && forall|i: int| 0 <= i < monitors.len() ==> !(#[trigger] monitors[i]).primary
        },
{
    let primary = geometry::is_primary();
    search::lemma_first_from(monitors, primary, 0);
    if let Some(wanted) = connector {
        search::lemma_first_from(monitors, geometry::on_connector(wanted), 0);
    }
    if search::first_where(monitors, primary) is None {
        assert forall|i: int| 0 <= i < monitors.len() implies !(#[trigger] monitors[i]).primary by {
            assert(!primary(monitors[i]));
        }
    }
}

// ---- resolving ----

/// A placement is always wholly inside the work area, and never smaller than
/// a note may be unless the work area is.
pub proof fn placements_stay_inside(g: NoteGeometry, m: Monitor)
    ensures
        ({
            let r = geometry::settled(g, m);
            &&& m.encloses(r.x, r.y, r.width, r.height)
            &&& r.width >= geometry::smaller(MIN_WIDTH as int, m.width as int)
            &&& r.height >= geometry::smaller(MIN_HEIGHT as int, m.height as int)
        }),
{
}

/// A note that already fits is left alone.
pub proof fn fitting_notes_are_left_alone(g: NoteGeometry, m: Monitor)
    requires
        g.width >= MIN_WIDTH,
        g.height >= MIN_HEIGHT,
        m.encloses(g.x as int, g.y as int, g.width as int, g.height as int),
    ensures
        geometry::settled(g, m) == (geometry::Rect {
            x: g.x as int,
            y: g.y as int,
            width: g.width as int,
            height: g.height as int,
        }),
{
}

/// Is every connector the name of one monitor?
pub open spec fn connectors_are_distinct(monitors: Seq<Monitor>) -> bool {
    forall|i: int, j: int|
        0 <= i < j < monitors.len() ==> (#[trigger] monitors[i]).connector@ != (
        #[trigger] monitors[j]).connector@
}

/// Resolving what was resolved changes nothing.
pub proof fn resolution_is_idempotent(g: NoteGeometry, again: NoteGeometry, monitors: Seq<Monitor>)
    requires
        connectors_are_distinct(monitors),
        geometry::resolved(g, monitors) matches Some(p) && {
            &&& geometry::remembered(again.monitor) == Some(p.connector)
            &&& again.x == p.rect.x
            &&& again.y == p.rect.y
            &&& again.width == p.rect.width
            &&& again.height == p.rect.height
        },
    ensures
        geometry::resolved(again, monitors) == geometry::resolved(g, monitors),
{
    some_monitor_is_picked(geometry::remembered(g.monitor), monitors);
    let k = geometry::picked_index(geometry::remembered(g.monitor), monitors)->0;
    let on = geometry::on_connector(monitors[k].connector@);
    assert(search::first_where(monitors, on) == Some(k)) by {
        search::lemma_is_first(monitors, on, k);
    }
}

/// A note returns to where it was when its monitor is back: whatever happened
/// in between, what is stored and the monitors attached now decide.
pub proof fn notes_return_to_their_monitor(g: NoteGeometry, monitors: Seq<Monitor>, i: int)
    requires
        connectors_are_distinct(monitors),
        0 <= i < monitors.len(),
        geometry::remembered(g.monitor) == Some(monitors[i].connector@),
        g.width >= MIN_WIDTH,
        g.height >= MIN_HEIGHT,
        monitors[i].encloses(g.x as int, g.y as int, g.width as int, g.height as int),
    ensures
        geometry::resolved(g, monitors) == Some(
            geometry::Placed {
                connector: monitors[i].connector@,
                rect: geometry::Rect {
                    x: g.x as int,
                    y: g.y as int,
                    width: g.width as int,
                    height: g.height as int,
                },
            },
        ),
{
    let on = geometry::on_connector(monitors[i].connector@);
    search::lemma_is_first(monitors, on, i);
}

/// A note keeps its place on its monitor when the monitor moves in the
/// layout, and moves on the desktop exactly as far as the monitor does.
pub proof fn notes_follow_their_monitor(g: NoteGeometry, before: Monitor, after: Monitor)
    requires
        before.width == after.width,
        before.height == after.height,
    ensures
        geometry::settled(g, after) == geometry::settled(g, before),
        ({
            let r = geometry::settled(g, before);
            &&& after.absolute(r.x, r.y).0 - before.absolute(r.x, r.y).0 == after.x - before.x
            &&& after.absolute(r.x, r.y).1 - before.absolute(r.x, r.y).1 == after.y - before.y
        }),
{
}

// ---- cascading ----

/// Where the slots are: one step apart on both axes.
pub proof fn slots_are_a_step_apart(m: Monitor, width: int, height: int, step: int)
    requires
        0 <= step < geometry::cascade_len(m, width, height),
    ensures
        geometry::cascade_slot(m, width, height, step) == (
            geometry::cascade_base(m.width as int, width) + step * CASCADE_STEP,
            geometry::cascade_base(m.height as int, height) + step * CASCADE_STEP,
        ),
{
}

/// A slot leaves the note wholly inside the work area, as far as it fits.
pub proof fn slots_stay_inside(m: Monitor, width: int, height: int, step: int)
    requires
        0 <= m.width,
        0 <= m.height,
        0 <= step,
    ensures
        ({
            let slot = geometry::cascade_slot(m, width, height, step);
            m.encloses(
                slot.0,
                slot.1,
                geometry::smaller(width, m.width as int),
                geometry::smaller(height, m.height as int),
            )
        }),
{
}

/// The cascade always lands on one of its slots.
pub proof fn the_cascade_lands_on_a_slot(
    m: Monitor,
    occupied: Seq<(i32, i32)>,
    width: int,
    height: int,
    from: int,
) -> (step: int)
    requires
        0 <= from,
    ensures
        0 <= step,
        step < geometry::cascade_len(m, width, height),
        geometry::cascade_from(m, occupied, width, height, from) == geometry::cascade_slot(
            m,
            width,
            height,
            step,
        ),
    decreases geometry::cascade_len(m, width, height) - from,
{
    if from >= geometry::cascade_len(m, width, height) {
        0
    } else if !geometry::slot_taken(occupied, geometry::cascade_slot(m, width, height, from)) {
        from
    } else {
        the_cascade_lands_on_a_slot(m, occupied, width, height, from + 1)
    }
}

/// A new note always opens inside the work area.
pub proof fn new_notes_open_inside(
    m: Monitor,
    occupied: Seq<(i32, i32)>,
    width: int,
    height: int,
)
    requires
        0 <= m.width,
        0 <= m.height,
    ensures
        ({
            let at = geometry::cascade_from(m, occupied, width, height, 0);
            m.encloses(
                at.0,
                at.1,
                geometry::smaller(width, m.width as int),
                geometry::smaller(height, m.height as int),
            )
        }),
{
    let step = the_cascade_lands_on_a_slot(m, occupied, width, height, 0);
    slots_stay_inside(m, width, height, step);
}

/// The first free slot is the one taken, so a slot freed by closing a note is
/// used again.
pub proof fn the_first_free_slot_is_taken(
    m: Monitor,
    occupied: Seq<(i32, i32)>,
    width: int,
    height: int,
    from: int,
    step: int,
)
    requires
        0 <= from <= step < geometry::cascade_len(m, width, height),
        !geometry::slot_taken(occupied, geometry::cascade_slot(m, width, height, step)),
        forall|j: int|
            from <= j < step ==> geometry::slot_taken(
                occupied,
                #[trigger] geometry::cascade_slot(m, width, height, j),
            ),
    ensures
        geometry::cascade_from(m, occupied, width, height, from) == geometry::cascade_slot(
            m,
            width,
            height,
            step,
        ),
    decreases step - from,
{
    if from < step {
        assert(geometry::slot_taken(occupied, geometry::cascade_slot(m, width, height, from)));
        the_first_free_slot_is_taken(m, occupied, width, height, from + 1, step);
    }
}

/// When every slot is taken the cascade starts over.
pub proof fn a_full_cascade_starts_over(
    m: Monitor,
    occupied: Seq<(i32, i32)>,
    width: int,
    height: int,
    from: int,
)
    requires
        0 <= from,
        forall|j: int|
            from <= j < geometry::cascade_len(m, width, height) ==> geometry::slot_taken(
                occupied,
                #[trigger] geometry::cascade_slot(m, width, height, j),
            ),
    ensures
        geometry::cascade_from(m, occupied, width, height, from) == geometry::cascade_slot(
            m,
            width,
            height,
            0,
        ),
    decreases geometry::cascade_len(m, width, height) - from,
{
    if from < geometry::cascade_len(m, width, height) {
        assert(geometry::slot_taken(occupied, geometry::cascade_slot(m, width, height, from)));
        a_full_cascade_starts_over(m, occupied, width, height, from + 1);
    }
}

/// Notes created in a row take the slots in a row: with the first `n` slots
/// occupied, the next note opens in the next slot, on top of none of them.
pub proof fn notes_in_a_row_cascade(
    m: Monitor,
    occupied: Seq<(i32, i32)>,
    width: int,
    height: int,
)
    requires
        occupied.len() < geometry::cascade_len(m, width, height),
        forall|i: int|
            0 <= i < occupied.len() ==> ((#[trigger] occupied[i]).0 as int, occupied[i].1 as int)
                == geometry::cascade_slot(m, width, height, i),
    ensures
        geometry::cascade_from(m, occupied, width, height, 0) == geometry::cascade_slot(
            m,
            width,
            height,
            occupied.len() as int,
        ),
{
    let n = occupied.len() as int;
    slots_are_a_step_apart(m, width, height, n);
    let next = geometry::cascade_slot(m, width, height, n);
    assert forall|i: int| 0 <= i < n implies !geometry::stacked(
        ((#[trigger] occupied[i]).0 as int, occupied[i].1 as int),
        next,
    ) by {
        slots_are_a_step_apart(m, width, height, i);
    }
    assert forall|j: int| 0 <= j < n implies geometry::slot_taken(
        occupied,
        #[trigger] geometry::cascade_slot(m, width, height, j),
    ) by {
        assert((occupied[j].0 as int, occupied[j].1 as int) == geometry::cascade_slot(
            m,
            width,
            height,
            j,
        ));
    }
    the_first_free_slot_is_taken(m, occupied, width, height, 0, n);
}

// ---- said of each axis, and of each monitor ----

/// Is `k` the monitor for a note that remembers `connector`? The first on that
/// connector; without one the first primary monitor; without one the first.
pub open spec fn right_monitor(
    connector: Option<Seq<char>>,
    monitors: Seq<Monitor>,
    k: int,
) -> bool {
    let named = |i: int|
        0 <= i < monitors.len() && connector == Some(monitors[i].connector@);
    let primary = |i: int| 0 <= i < monitors.len() && monitors[i].primary;
    &&& 0 <= k < monitors.len()
    &&& if exists|i: int| #[trigger] named(i) {
        named(k) && forall|i: int| #[trigger] named(i) ==> k <= i
    } else if exists|i: int| #[trigger] primary(i) {
        primary(k) && forall|i: int| #[trigger] primary(i) ==> k <= i
    } else {
        k == 0
    }
}

/// The monitor picked is the right one, and there is one exactly when any is
/// attached.
pub proof fn the_right_monitor_is_picked(connector: Option<Seq<char>>, monitors: Seq<Monitor>)
    ensures
        match geometry::picked_index(connector, monitors) {
            Some(k) => right_monitor(connector, monitors, k),
            None => monitors.len() == 0,
        },
{
    let named = |i: int|
        0 <= i < monitors.len() && connector == Some(monitors[i].connector@);
    let primary = |i: int| 0 <= i < monitors.len() && monitors[i].primary;
    let is_primary = geometry::is_primary();
    search::lemma_first_from(monitors, is_primary, 0);
    assert forall|i: int| #[trigger] primary(i) implies is_primary(monitors[i]) by {}
    if let Some(wanted) = connector {
        let on = geometry::on_connector(wanted);
        search::lemma_first_from(monitors, on, 0);
        assert forall|i: int| #[trigger] named(i) implies on(monitors[i]) by {}
        if let Some(k) = search::first_where(monitors, on) {
            assert(on(monitors[k]));
            assert(named(k));
        }
    }
    if let Some(k) = search::first_where(monitors, is_primary) {
        assert(is_primary(monitors[k]));
        assert(primary(k));
    }
}

/// On one axis: is `at..at + size` where a note that wants `wanted_at` and
/// `wanted_size` belongs on a work area of `extent`? It is as large as it
/// wants, but no smaller than `least` and no larger than the work area. It is
/// moved no further than it must be: not at all if it fits, to the near edge
/// if it starts before it, and flush with the far edge if it ends behind it.
pub open spec fn axis_settled(
    at: int,
    size: int,
    wanted_at: int,
    wanted_size: int,
    least: int,
    extent: int,
) -> bool {
    &&& least <= wanted_size <= extent ==> size == wanted_size
    &&& wanted_size < least <= extent ==> size == least
    &&& extent < wanted_size || extent < least ==> size == extent
    &&& 0 <= wanted_at && wanted_at + size <= extent ==> at == wanted_at
    &&& wanted_at < 0 ==> at == 0
    &&& 0 <= wanted_at && wanted_at + size > extent ==> at + size == extent
}

/// Where a note goes: on the right monitor, and on each axis where it wants to
/// be, as far as the work area lets it, whatever happens on the other axis.
pub proof fn notes_are_moved_no_further_than_they_must(
    g: NoteGeometry,
    monitors: Seq<Monitor>,
    k: int,
)
    requires
        right_monitor(
            match g.monitor {
                Some(name) => Some(name@),
                None => None,
            },
            monitors,
            k,
        ),
    ensures
        geometry::resolved(g, monitors) matches Some(p) && {
            &&& p.connector == monitors[k].connector@
            &&& axis_settled(
                p.rect.x,
                p.rect.width,
                g.x as int,
                g.width as int,
                180,
                monitors[k].width as int,
            )
            &&& axis_settled(
                p.rect.y,
                p.rect.height,
                g.y as int,
                g.height as int,
                140,
                monitors[k].height as int,
            )
        },
{
    let connector = geometry::remembered(g.monitor);
    the_right_monitor_is_picked(connector, monitors);
    let j = geometry::picked_index(connector, monitors)->0;
    lemma_one_right_monitor(connector, monitors, j, k);
}

/// Without a monitor a note has no place; with one it always has.
pub proof fn notes_are_placed_while_there_is_a_monitor(g: NoteGeometry, monitors: Seq<Monitor>)
    ensures
        geometry::resolved(g, monitors) is Some == (monitors.len() > 0),
{
    some_monitor_is_picked(geometry::remembered(g.monitor), monitors);
}

proof fn lemma_one_right_monitor(
    connector: Option<Seq<char>>,
    monitors: Seq<Monitor>,
    j: int,
    k: int,
)
    requires
        right_monitor(connector, monitors, j),
        right_monitor(connector, monitors, k),
    ensures
        j == k,
{
    let named = |i: int|
        0 <= i < monitors.len() && connector == Some(monitors[i].connector@);
    let primary = |i: int| 0 <= i < monitors.len() && monitors[i].primary;
    assert(named(j) == named(j) && named(k) == named(k));
    assert(primary(j) == primary(j) && primary(k) == primary(k));
}

/// A note that was placed is handed out with every number in its own place.
pub proof fn placements_are_handed_out_as_found(p: geometry::Placement, m: Monitor)
    ensures
        p@.connector == p.connector@,
        p@.rect.x == p.x && p@.rect.y == p.y,
        p@.rect.width == p.width && p@.rect.height == p.height,
        m@.connector == m.connector@ && m@.display_name == m.display_name@,
        m@.primary == m.primary,
        m@.x == m.x && m@.y == m.y && m@.width == m.width && m@.height == m.height,
{
}

/// A point is inside a work area when it is right of the left edge and left of
/// the right one, below the upper edge and above the lower one. Relative
/// coordinates count from the upper left corner.
pub proof fn work_areas_are_rectangles(m: Monitor, x: int, y: int)
    ensures
        m.holds(x, y) <==> x >= m.x && x - m.x < m.width && y >= m.y && y - m.y < m.height,
        m.absolute(x, y).0 - m.x == x && m.absolute(x, y).1 - m.y == y,
        m.relative(x, y).0 + m.x == x && m.relative(x, y).1 + m.y == y,
{
}

/// Do two notes lie within 16 pixels of each other on both axes?
pub open spec fn in_one_pile(a: (i32, i32), x: int, y: int) -> bool {
    &&& a.0 - x <= 16 && x - a.0 <= 16
    &&& a.1 - y <= 16 && y - a.1 <= 16
}

/// The place `step` steps of 34 pixels down and right from the first one, which
/// is a twentieth of the work area in from the corner.
pub open spec fn step_along(m: Monitor, step: int) -> (int, int) {
    (m.width as int / 20 + 34 * step, m.height as int / 20 + 34 * step)
}

/// A new note opens at the first place along the cascade where it would not lie
/// on another note. The places are a twentieth of the work area in from the
/// corner, and 34 pixels apart; there are as many as fit, but no more than 32.
/// With a note on every one, it opens at the first.
pub proof fn new_notes_open_at_the_first_free_place(
    m: Monitor,
    occupied: Seq<(i32, i32)>,
    width: int,
    height: int,
    places: int,
) -> (step: int)
    requires
        0 < width && 0 < height,
        0 <= m.width && 0 <= m.height,
        1 <= places <= 32,
        // As many places as there is room for.
        m.width as int / 20 + 34 * places <= m.width - width,
        m.height as int / 20 + 34 * places <= m.height - height,
        places == 32 || m.width as int / 20 + 34 * (places + 1) > m.width - width || m.height as int
            / 20 + 34 * (places + 1) > m.height - height,
    ensures
        ({
            let at = geometry::cascade_from(m, occupied, width, height, 0);
            let free = |j: int|
                forall|i: int|
                    0 <= i < occupied.len() ==> !in_one_pile(
                        #[trigger] occupied[i],
                        step_along(m, j).0,
                        step_along(m, j).1,
                    );
            &&& 0 <= step < places
            &&& at == step_along(m, step)
            &&& free(step) ==> forall|j: int| 0 <= j < step ==> !#[trigger] free(j)
            &&& !free(step) ==> step == 0 && forall|j: int| 0 <= j < places ==> !#[trigger] free(j)
        }),
{
    let free = |j: int|
        forall|i: int|
            0 <= i < occupied.len() ==> !in_one_pile(
                #[trigger] occupied[i],
                step_along(m, j).0,
                step_along(m, j).1,
            );
    let n = geometry::cascade_len(m, width, height);
    lemma_room(m, width, height, places);
    assert forall|j: int| 0 <= j < n implies geometry::slot_taken(
        occupied,
        #[trigger] geometry::cascade_slot(m, width, height, j),
    ) == !free(j) by {
        let slot = geometry::cascade_slot(m, width, height, j);
        assert(slot == step_along(m, j));
        if geometry::slot_taken(occupied, slot) {
            let i = choose|i: int|
                0 <= i < occupied.len() && geometry::stacked(
                    ((#[trigger] occupied[i]).0 as int, occupied[i].1 as int),
                    slot,
                );
            assert(in_one_pile(occupied[i], slot.0, slot.1));
        }
        if !free(j) {
            let i = choose|i: int|
                0 <= i < occupied.len() && in_one_pile(
                    #[trigger] occupied[i],
                    step_along(m, j).0,
                    step_along(m, j).1,
                );
            assert(geometry::stacked((occupied[i].0 as int, occupied[i].1 as int), slot));
        }
    }
    let step = lemma_first_free(m, occupied, width, height, 0);
    assert(geometry::cascade_slot(m, width, height, step) == step_along(m, step));
    assert forall|j: int| 0 <= j < step && free(step) implies !#[trigger] free(j) by {
        assert(geometry::slot_taken(occupied, geometry::cascade_slot(m, width, height, j)));
    }
    assert forall|j: int| 0 <= j < places && !free(step) implies !#[trigger] free(j) by {
        assert(geometry::slot_taken(occupied, geometry::cascade_slot(m, width, height, j)));
    }
    step
}

/// How many places there are, and where.
proof fn lemma_room(m: Monitor, width: int, height: int, places: int)
    requires
        0 < width && 0 < height,
        0 <= m.width && 0 <= m.height,
        1 <= places <= 32,
        m.width as int / 20 + 34 * places <= m.width - width,
        m.height as int / 20 + 34 * places <= m.height - height,
        places == 32 || m.width as int / 20 + 34 * (places + 1) > m.width - width || m.height as int
            / 20 + 34 * (places + 1) > m.height - height,
    ensures
        geometry::cascade_len(m, width, height) == places,
        forall|j: int|
            0 <= j < places ==> #[trigger] geometry::cascade_slot(m, width, height, j)
                == step_along(m, j),
{
}

proof fn lemma_first_free(
    m: Monitor,
    occupied: Seq<(i32, i32)>,
    width: int,
    height: int,
    from: int,
) -> (step: int)
    requires
        0 <= from,
    ensures
        ({
            let n = geometry::cascade_len(m, width, height);
            &&& 0 <= step < n
            &&& geometry::cascade_from(m, occupied, width, height, from) == geometry::cascade_slot(
                m,
                width,
                height,
                step,
            )
            &&& (from <= step && !geometry::slot_taken(
                occupied,
                geometry::cascade_slot(m, width, height, step),
            ) && forall|j: int|
                from <= j < step ==> geometry::slot_taken(
                    occupied,
                    #[trigger] geometry::cascade_slot(m, width, height, j),
                )) || (step == 0 && forall|j: int|
                from <= j < n ==> geometry::slot_taken(
                    occupied,
                    #[trigger] geometry::cascade_slot(m, width, height, j),
                ))
        }),
    decreases geometry::cascade_len(m, width, height) - from,
{
    if from >= geometry::cascade_len(m, width, height) {
        0
    } else if !geometry::slot_taken(occupied, geometry::cascade_slot(m, width, height, from)) {
        from
    } else {
        lemma_first_free(m, occupied, width, height, from + 1)
    }
}

/// Where there is no room for a second place, a new note opens at the first:
/// a twentieth of the work area in, or as far in as the note leaves room for.
pub proof fn a_cramped_work_area_has_one_place(
    m: Monitor,
    occupied: Seq<(i32, i32)>,
    width: int,
    height: int,
)
    requires
        0 < width && 0 < height,
        0 <= m.width && 0 <= m.height,
        m.width as int / 20 + 34 > m.width - width || m.height as int / 20 + 34 > m.height - height,
    ensures
        ({
            let at = geometry::cascade_from(m, occupied, width, height, 0);
            &&& m.width as int / 20 + width <= m.width ==> at.0 == m.width as int / 20
            &&& m.width as int / 20 + width > m.width >= width ==> at.0 + width == m.width
            &&& width > m.width ==> at.0 == 0
            &&& m.height as int / 20 + height <= m.height ==> at.1 == m.height as int / 20
            &&& m.height as int / 20 + height > m.height >= height ==> at.1 + height == m.height
            &&& height > m.height ==> at.1 == 0
        }),
{
    assert(geometry::cascade_len(m, width, height) == 1) by {
        lemma_cramped(m, width, height);
    }
    reveal_with_fuel(geometry::cascade_from, 2);
    assert(geometry::cascade_from(m, occupied, width, height, 0) == geometry::cascade_slot(
        m,
        width,
        height,
        0,
    ));
}

proof fn lemma_cramped(m: Monitor, width: int, height: int)
    requires
        0 < width && 0 < height,
        0 <= m.width && 0 <= m.height,
        m.width as int / 20 + 34 > m.width - width || m.height as int / 20 + 34 > m.height - height,
    ensures
        geometry::cascade_len(m, width, height) == 1,
{
}

} // verus!
