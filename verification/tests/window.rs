use stickies::model::markdown::Style;
use stickies::model::note::{IdSource, Note, NoteGeometry, Palette, MIN_HEIGHT, MIN_WIDTH};
use stickies::window::{
    enter_edit, handles_enter, markdown_tags, renumber_steps, restyle, tag_for, tag_name, Deletion,
    Edit, EnterEdit, ListEnter, NoteWindow, PaletteChoice, TagRun, TextEdit,
};

fn note(body: &str, palette: Palette) -> Note {
    let mut note = Note::new(palette, &mut IdSource::new());
    note.body = body.to_string();
    note
}

fn run(name: &str, start: usize, end: usize, from_line_start: bool) -> TagRun {
    TagRun {
        name: name.into(),
        start,
        end,
        from_line_start,
    }
}

#[test]
fn markdown_is_styled_and_its_syntax_marked() {
    // "# Shopping\n\n- **oat** milk"
    let runs = restyle("# Shopping\n\n- **oat** milk");
    assert_eq!(
        runs,
        vec![
            run("md-h1", 2, 10, true),
            run("md-list0", 14, 26, true),
            run("md-bold", 16, 19, false),
            run("md-marker", 0, 2, false),
            run("md-marker", 14, 16, false),
            run("md-marker", 19, 21, false),
        ]
    );
    assert!(restyle("plain").is_empty());
}

#[test]
fn every_tag_that_can_be_called_for_is_made() {
    let tags = markdown_tags();
    let names: Vec<&str> = tags.iter().map(|t| t.name.as_str()).collect();
    assert_eq!(
        names,
        [
            "md-h1",
            "md-h2",
            "md-h3",
            "md-h4",
            "md-h5",
            "md-h6",
            "md-bold",
            "md-italic",
            "md-strike",
            "md-code",
            "md-codeblock",
            "md-quote",
            "md-list0",
            "md-list1",
            "md-list2",
            "md-list3",
            "md-list4",
            "md-link",
            "md-marker",
        ]
    );
    let source = "# h\n- a\n  - b\n    - c\n> q\n```\nx\n```\n**b** *i* ~~s~~ `c` [l](u)";
    for run in restyle(source) {
        assert!(names.contains(&run.name.as_str()), "{run:?}");
    }
    let scales: Vec<u32> = tags[..6].iter().map(|t| t.scale.unwrap()).collect();
    assert_eq!(scales, [160, 140, 125, 115, 105, 105]);
    assert!(tags[18].invisible);
    assert!(tags[..18].iter().all(|t| !t.invisible));
    let list = tag_for(Style::ListItem(4));
    assert_eq!((list.left_margin, list.indent), (Some(132), Some(-18)));
    assert_eq!(tag_for(Style::ListItem(0)).left_margin, Some(36));
    assert_eq!(tag_name(Style::Heading(3)), "md-h3");
}

#[test]
fn renumbering_goes_from_back_to_front() {
    // "1. a\n3. b\n12. c" should count 1, 2, 3.
    let mut text: String = "1. a\n3. b\n12. c".into();
    let steps = renumber_steps(&[
        Edit { start: 5, end: 6, number: 2 },
        Edit { start: 10, end: 12, number: 3 },
    ]);
    assert_eq!(
        steps,
        vec![
            TextEdit { start: 10, end: 12, text: "3".into() },
            TextEdit { start: 5, end: 6, text: "2".into() },
        ]
    );
    for step in steps {
        text.replace_range(step.start..step.end, &step.text);
    }
    assert_eq!(text, "1. a\n2. b\n3. c");
    assert!(renumber_steps(&[]).is_empty());
}

#[test]
fn enter_carries_a_list_on() {
    assert_eq!(
        enter_edit(Some(ListEnter::Continue("  - ".into()))),
        EnterEdit::Insert("\n  - ".into())
    );
    assert_eq!(enter_edit(Some(ListEnter::EndList)), EnterEdit::ClearLine);
    assert_eq!(enter_edit(None), EnterEdit::Proceed);
    assert!(handles_enter(true, false, false, true));
    assert!(!handles_enter(false, false, false, true));
    assert!(!handles_enter(true, true, false, true));
    assert!(!handles_enter(true, false, true, true));
    assert!(!handles_enter(true, false, false, false));
}

#[test]
fn binding_replaces_what_was_shown() {
    let mut window = NoteWindow::new();
    assert_eq!(window.note_id(), "");
    let first = note("first", Palette::Blue);
    window.bind(&first);
    assert_eq!(window.note_id(), first.id);
    assert_eq!(window.palette(), Palette::Blue);
    assert!(!window.is_pinned());
    let mut second = note("second", Palette::Pink);
    second.pinned = true;
    window.bind(&second);
    assert_eq!(window.note_id(), second.id);
    assert_eq!(window.palette(), Palette::Pink);
    assert!(window.is_pinned());
    window.loading = true;
    window.renumber_queued = true;
    window.bind(&first);
    assert!(window.reports_edits(), "once the note is shown, edits are the user's");
    assert!(window.renumber_queued, "a renumbering that waits still runs");
}

#[test]
fn stored_size_is_applied_and_clamped_to_the_minimum() {
    let mut window = NoteWindow::new();
    let mut sized = note("hello", Palette::Yellow);
    sized.geometry = NoteGeometry {
        monitor: Some("DP-1".into()),
        x: 400,
        y: 300,
        width: 480,
        height: 500,
    };
    assert_eq!(window.bind(&sized), (480, 500));
    sized.geometry.width = 10;
    sized.geometry.height = 10;
    assert_eq!(window.bind(&sized), (MIN_WIDTH, MIN_HEIGHT));
}

#[test]
fn choosing_a_colour_is_reported_when_it_changes() {
    let mut window = NoteWindow::new();
    window.bind(&note("hello", Palette::Orange));
    assert_eq!(window.choose_palette("orange"), PaletteChoice::Unchanged);
    assert_eq!(window.choose_palette("chartreuse"), PaletteChoice::Unknown);
    assert_eq!(
        window.choose_palette("purple"),
        PaletteChoice::Changed(Palette::Purple)
    );
    assert_eq!(window.palette(), Palette::Purple);
    window.loading = true;
    assert_eq!(window.choose_palette("blue"), PaletteChoice::Unchanged);
    assert_eq!(window.palette(), Palette::Purple);
}

#[test]
fn exactly_one_swatch_is_active() {
    let mut window = NoteWindow::new();
    for palette in Palette::ALL {
        window.apply_palette(palette);
        let active: Vec<Palette> = Palette::ALL
            .into_iter()
            .filter(|p| window.swatch_active(Some(p.id())))
            .collect();
        assert_eq!(active, vec![palette]);
    }
    assert!(!window.swatch_active(None));
}

#[test]
fn the_pin_toggles_and_reports() {
    let mut window = NoteWindow::new();
    window.bind(&note("hello", Palette::Yellow));
    assert_eq!(window.toggle_pin(), Some(true));
    assert!(window.is_pinned());
    assert_eq!(window.toggle_pin(), Some(false));
    assert!(!window.is_pinned());
    window.loading = true;
    assert_eq!(window.toggle_pin(), None, "restoring state is not a user action");
    assert!(!window.reports_edits(), "loading must not look like typing");
}

#[test]
fn the_pin_button_says_why_it_is_disabled() {
    let mut window = NoteWindow::new();
    window.set_placement_available(false);
    assert!(!window.placement_available());
    assert_eq!(
        window.pin_tooltip(),
        "Keep on Top needs the Stickies GNOME Shell extension — Wayland does not let apps raise \
         their own windows"
    );
    window.set_placement_available(true);
    assert_eq!(window.pin_tooltip(), "Keep on Top");
    window.set_pinned(true);
    assert_eq!(window.pin_tooltip(), "Stop Keeping on Top");
}

#[test]
fn one_renumbering_settles_several_deletions() {
    let mut window = NoteWindow::new();
    assert!(window.text_deleted());
    assert!(!window.text_deleted());
    window.renumbering();
    assert!(window.text_deleted());
    let mut window = NoteWindow::new();
    window.loading = true;
    assert!(!window.text_deleted());
    assert!(!window.renumber_queued);
}

#[test]
fn deleting_a_note_with_something_on_it_asks_first() {
    assert_eq!(NoteWindow::confirm_delete("   \n \t"), Deletion::Now);
    assert_eq!(NoteWindow::confirm_delete(""), Deletion::Now);
    assert_eq!(NoteWindow::confirm_delete("important"), Deletion::Ask);
    assert!(NoteWindow::confirms("delete"));
    assert!(!NoteWindow::confirms("cancel"));
}

#[test]
fn a_window_has_an_object_path_once_it_has_a_number() {
    assert_eq!(NoteWindow::object_path(0), None);
    assert_eq!(
        NoteWindow::object_path(3).as_deref(),
        Some("/us/hagreli/Stickies/window/3")
    );
}

#[test]
fn the_title_shows_the_note_not_its_markup() {
    for (body, expected) in [
        ("# Heading Goes Here\n\nbody", "Heading Goes Here"),
        ("- **oat** milk", "oat milk"),
        ("> `remember` this", "remember this"),
        ("plain note", "plain note"),
        ("", "Empty Note"),
    ] {
        assert_eq!(NoteWindow::refresh_title(body), expected, "title for {body:?}");
    }
}

#[test]
fn a_save_failure_raises_a_banner_and_clears_when_fixed() {
    assert_eq!(NoteWindow::save_banner(None), None);
    assert_eq!(
        NoteWindow::save_banner(Some("Permission denied (os error 13)")).as_deref(),
        Some("Notes are not being saved — Permission denied (os error 13)")
    );
}
