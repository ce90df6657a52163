use stickies::model::geometry::{cascade, pick_monitor, resolve, Monitor, Placement, CASCADE_STEP};
use stickies::model::note::{NoteGeometry, MIN_HEIGHT, MIN_WIDTH};

fn ultrawide() -> Monitor {
    // The machine this was built on: one 5120x1440 ultrawide, minus the
    // GNOME top bar and the Ubuntu dock on the left.
    Monitor {
        connector: "DP-1".into(),
        display_name: "Dell U4924DW".into(),
        primary: true,
        x: 72,
        y: 37,
        width: 5048,
        height: 1403,
    }
}

fn laptop() -> Monitor {
    Monitor {
        connector: "eDP-1".into(),
        display_name: "Built-in display".into(),
        primary: false,
        x: 0,
        y: 1440,
        width: 1920,
        height: 1043,
    }
}

fn geom(monitor: Option<&str>, x: i32, y: i32, w: i32, h: i32) -> NoteGeometry {
    NoteGeometry {
        monitor: monitor.map(str::to_string),
        x,
        y,
        width: w,
        height: h,
    }
}

#[test]
fn coordinate_translation_round_trips() {
    let m = ultrawide();
    let absolute = m.to_absolute(100, 200);
    assert_eq!(absolute, (172, 237));
    assert_eq!(m.to_relative(absolute.0, absolute.1), (100, 200));
}

#[test]
fn contains_respects_the_work_area_origin() {
    let m = ultrawide();
    assert!(m.contains(72, 37));
    assert!(m.contains(5119, 1439));
    assert!(!m.contains(71, 37), "left of the dock is off the work area");
    assert!(
        !m.contains(72, 36),
        "under the top bar is off the work area"
    );
    assert!(!m.contains(5120, 1439));
}

#[test]
fn picks_the_remembered_monitor() {
    let monitors = [ultrawide(), laptop()];
    let picked = pick_monitor(Some("eDP-1"), &monitors).unwrap();
    assert_eq!(picked.connector, "eDP-1");
}

#[test]
fn falls_back_to_primary_when_the_monitor_is_unplugged() {
    let monitors = [ultrawide(), laptop()];
    let picked = pick_monitor(Some("HDMI-2"), &monitors).unwrap();
    assert_eq!(picked.connector, "DP-1", "primary monitor takes over");
}

#[test]
fn falls_back_to_the_first_monitor_when_none_is_primary() {
    let mut monitors = [ultrawide(), laptop()];
    monitors[0].primary = false;
    let picked = pick_monitor(None, &monitors).unwrap();
    assert_eq!(picked.connector, "DP-1");
}

#[test]
fn no_monitors_means_no_placement() {
    assert!(pick_monitor(Some("DP-1"), &[]).is_none());
    assert!(resolve(&geom(Some("DP-1"), 0, 0, 300, 320), &[]).is_none());
}

#[test]
fn a_note_that_already_fits_is_left_alone() {
    let monitors = [ultrawide()];
    let placement = resolve(&geom(Some("DP-1"), 4000, 900, 300, 320), &monitors).unwrap();
    assert_eq!(
        placement,
        Placement {
            connector: "DP-1".into(),
            x: 4000,
            y: 900,
            width: 300,
            height: 320,
        }
    );
}

#[test]
fn a_note_hanging_off_the_right_edge_is_pulled_back_on() {
    let monitors = [ultrawide()];
    let placement = resolve(&geom(Some("DP-1"), 5000, 1390, 300, 320), &monitors).unwrap();
    assert_eq!(placement.x, 5048 - 300);
    assert_eq!(placement.y, 1403 - 320);
}

#[test]
fn negative_coordinates_are_pulled_back_on() {
    let monitors = [ultrawide()];
    let placement = resolve(&geom(Some("DP-1"), -500, -40, 300, 320), &monitors).unwrap();
    assert_eq!((placement.x, placement.y), (0, 0));
}

#[test]
fn a_note_from_a_wide_monitor_is_clamped_onto_a_narrow_one() {
    // Note lived at x=4000 on the ultrawide; that monitor is now gone and
    // only the 1920px laptop panel remains.
    let monitors = [laptop()];
    let placement = resolve(&geom(Some("DP-1"), 4000, 900, 300, 320), &monitors).unwrap();
    assert_eq!(placement.connector, "eDP-1");
    assert_eq!(placement.x, 1920 - 300);
    assert_eq!(placement.y, 1043 - 320);
}

#[test]
fn an_oversized_note_is_capped_to_the_work_area() {
    let monitors = [laptop()];
    let placement = resolve(&geom(Some("eDP-1"), 0, 0, 9000, 9000), &monitors).unwrap();
    assert_eq!((placement.width, placement.height), (1920, 1043));
    assert_eq!((placement.x, placement.y), (0, 0));
}

#[test]
fn an_undersized_note_is_grown_to_the_minimum() {
    let monitors = [ultrawide()];
    let placement = resolve(&geom(Some("DP-1"), 10, 10, 1, 1), &monitors).unwrap();
    assert_eq!((placement.width, placement.height), (MIN_WIDTH, MIN_HEIGHT));
}

#[test]
fn a_monitor_smaller_than_the_minimum_note_still_resolves() {
    // Degenerate but must not panic or produce an inverted clamp range.
    let tiny = Monitor {
        connector: "VIRTUAL-1".into(),
        display_name: "Tiny".into(),
        primary: true,
        x: 0,
        y: 0,
        width: 100,
        height: 90,
    };
    let placement = resolve(&geom(None, 0, 0, 300, 320), &[tiny]).unwrap();
    assert_eq!((placement.width, placement.height), (100, 90));
    assert_eq!((placement.x, placement.y), (0, 0));
}

#[test]
fn resolution_is_idempotent() {
    let monitors = [ultrawide()];
    let first = resolve(&geom(Some("DP-1"), 9999, 9999, 300, 320), &monitors).unwrap();
    let second = resolve(
        &geom(
            Some(&first.connector),
            first.x,
            first.y,
            first.width,
            first.height,
        ),
        &monitors,
    )
    .unwrap();
    assert_eq!(first, second);
}

#[test]
fn relative_coordinates_survive_a_layout_shift() {
    // Same physical monitor, moved in the layout (a second screen was added
    // to its left). A note at relative (400, 300) must stay visually put.
    let before = ultrawide();
    let mut after = ultrawide();
    after.x += 1920;

    let g = geom(Some("DP-1"), 400, 300, 300, 320);
    let a = resolve(&g, std::slice::from_ref(&before)).unwrap();
    let b = resolve(&g, std::slice::from_ref(&after)).unwrap();
    assert_eq!((a.x, a.y), (b.x, b.y), "relative position is unchanged");
    assert_eq!(
        before.to_absolute(a.x, a.y).0 + 1920,
        after.to_absolute(b.x, b.y).0,
        "absolute position tracks the monitor"
    );
}

#[test]
fn cascade_offsets_successive_notes() {
    let m = ultrawide();
    let first = cascade(&m, &[], 300, 320);
    let second = cascade(&m, &[first], 300, 320);
    let third = cascade(&m, &[first, second], 300, 320);

    assert_ne!(first, second);
    assert_ne!(second, third);
    assert_eq!(second.0 - first.0, CASCADE_STEP);
    assert_eq!(second.1 - first.1, CASCADE_STEP);
}

#[test]
fn cascade_reuses_a_freed_slot() {
    let m = ultrawide();
    let first = cascade(&m, &[], 300, 320);
    let second = cascade(&m, &[first], 300, 320);
    // Close the first note; the next one should reclaim its slot.
    assert_eq!(cascade(&m, &[second], 300, 320), first);
}

#[test]
fn cascade_always_lands_inside_the_work_area() {
    let m = ultrawide();
    let mut occupied = Vec::new();
    for _ in 0..64 {
        let slot = cascade(&m, &occupied, 300, 320);
        assert!(slot.0 >= 0 && slot.0 + 300 <= m.width, "x={}", slot.0);
        assert!(slot.1 >= 0 && slot.1 + 320 <= m.height, "y={}", slot.1);
        occupied.push(slot);
    }
}

#[test]
fn cascade_survives_a_monitor_smaller_than_the_note() {
    let tiny = Monitor {
        connector: "VIRTUAL-1".into(),
        display_name: "Tiny".into(),
        primary: true,
        x: 0,
        y: 0,
        width: 100,
        height: 90,
    };
    assert_eq!(cascade(&tiny, &[], 300, 320), (0, 0));
}

#[test]
fn containment_does_not_overflow_at_the_edge_of_the_desktop() {
    let mut m = ultrawide();
    m.x = i32::MAX - 10;
    m.width = 5000;
    assert!(m.contains(i32::MAX, 37));
    assert!(!m.contains(i32::MIN, 37));
}

#[test]
fn the_first_of_several_primary_monitors_takes_over() {
    let mut second = laptop();
    second.primary = true;
    let mut third = ultrawide();
    third.connector = "DP-3".into();
    third.primary = false;
    let monitors = [third, second, ultrawide()];
    assert_eq!(
        pick_monitor(Some("HDMI-9"), &monitors).unwrap().connector,
        "eDP-1"
    );
    assert_eq!(pick_monitor(None, &monitors).unwrap().connector, "eDP-1");
    assert_eq!(
        pick_monitor(Some("DP-3"), &monitors).unwrap().connector,
        "DP-3"
    );
}

#[test]
fn a_monitor_without_an_area_still_resolves() {
    let mut m = laptop();
    m.width = -20;
    m.height = 0;
    let placement = resolve(&geom(None, 50, 50, 300, 320), &[m]).unwrap();
    assert_eq!((placement.width, placement.height), (-20, 0));
    assert_eq!((placement.x, placement.y), (0, 0));
}

#[test]
fn the_cascade_starts_in_from_the_corner_and_goes_down_and_right() {
    let m = ultrawide();
    // 5048 / 20 and 1403 / 20.
    assert_eq!(cascade(&m, &[], 300, 320), (252, 70));
    assert_eq!(cascade(&m, &[(252, 70)], 300, 320), (286, 104));
    // Within the tolerance counts as taken, beyond it does not.
    assert_eq!(cascade(&m, &[(268, 86)], 300, 320), (286, 104));
    assert_eq!(cascade(&m, &[(269, 86)], 300, 320), (252, 70));
}

#[test]
fn a_full_cascade_starts_over() {
    let m = ultrawide();
    let mut occupied = Vec::new();
    let mut seen = std::collections::HashSet::new();
    loop {
        let slot = cascade(&m, &occupied, 300, 320);
        if !seen.insert(slot) {
            assert_eq!(slot, (252, 70));
            break;
        }
        occupied.push(slot);
    }
    // (1403 - 320 - 70) / 34 slots fit.
    assert_eq!(seen.len(), 29);
}

#[test]
fn a_wide_open_desktop_has_no_more_than_thirty_two_slots() {
    let mut m = ultrawide();
    m.width = 100_000;
    m.height = 100_000;
    let mut occupied = Vec::new();
    for _ in 0..40 {
        occupied.push(cascade(&m, &occupied, 300, 320));
    }
    let distinct: std::collections::HashSet<_> = occupied.iter().collect();
    assert_eq!(distinct.len(), 32);
    assert_eq!(occupied[0], occupied[32], "and then it starts over");
}
