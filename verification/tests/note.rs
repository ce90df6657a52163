use std::time::Duration;
use stickies::clock;
use stickies::model::note::{
    least_used_palette, stamp, IdSource, Note, NoteGeometry, Palette, DEFAULT_HEIGHT,
    DEFAULT_WIDTH, MIN_HEIGHT, MIN_WIDTH,
};

fn fresh(palette: Palette) -> Note {
    Note::new(palette, &mut IdSource::new())
}

#[test]
fn generated_ids_are_unique() {
    let mut source = IdSource::new();
    let ids: std::collections::HashSet<_> = (0..1000).map(|_| source.generate_id()).collect();
    assert_eq!(ids.len(), 1000);
}

#[test]
fn title_strips_markdown_syntax() {
    // Reported: a note starting "# Heading Goes Here" put the hash in the
    // title bar, advertising the file format rather than the note.
    let mut note = fresh(Palette::Yellow);
    note.body = "# Heading Goes Here\n\nbody text".into();
    assert_eq!(note.title(), "Heading Goes Here");

    note.body = "- **oat** milk".into();
    assert_eq!(note.title(), "oat milk");

    note.body = "> `remember` this".into();
    assert_eq!(note.title(), "remember this");
}

#[test]
fn title_still_truncates_after_stripping() {
    // The limit applies to what is shown, not to the raw markup, or a
    // heavily formatted line would be cut far too short.
    let mut note = fresh(Palette::Yellow);
    // No trailing space inside the emphasis: "** ... **" is deliberately
    // not bold, so it would not be stripped.
    note.body = format!("# **{}**", "word ".repeat(20).trim_end());
    let title = note.title();
    assert!(title.chars().count() <= 41, "{title:?}");
    assert!(!title.starts_with('#') && !title.starts_with('*'));
}

#[test]
fn title_uses_first_non_empty_line() {
    let mut note = fresh(Palette::Yellow);
    note.body = "\n\n  Buy oat milk  \nand bread".into();
    assert_eq!(note.title(), "Buy oat milk");
}

#[test]
fn title_of_blank_note_is_a_placeholder() {
    let note = fresh(Palette::Yellow);
    assert_eq!(note.title(), "Empty Note");

    let mut whitespace = fresh(Palette::Yellow);
    whitespace.body = "   \n\t\n".into();
    assert_eq!(whitespace.title(), "Empty Note");
}

#[test]
fn title_truncates_on_a_word_boundary() {
    let mut note = fresh(Palette::Yellow);
    note.body = "Remember to renew the passport before the trip to Lisbon".into();
    let title = note.title();
    assert!(title.ends_with('…'));
    assert!(title.chars().count() <= 41);
    // Broke at a space, so no partial word survives before the ellipsis.
    assert!(!title.trim_end_matches('…').ends_with(' '));
    assert!(note.body.starts_with(title.trim_end_matches('…')));
}

#[test]
fn title_truncates_mid_word_when_there_is_no_space() {
    let mut note = fresh(Palette::Yellow);
    note.body = "a".repeat(80);
    assert_eq!(note.title().chars().count(), 41);
}

#[test]
fn title_handles_multibyte_content() {
    let mut note = fresh(Palette::Yellow);
    note.body = "🎉".repeat(60);
    let title = note.title();
    assert!(title.ends_with('…'));
    assert_eq!(title.chars().count(), 41);
}

fn with_palettes(palettes: &[Palette]) -> Vec<Note> {
    palettes.iter().map(|p| fresh(*p)).collect()
}

#[test]
fn the_first_note_is_the_first_palette() {
    assert_eq!(least_used_palette(&[]), Palette::ALL[0]);
}

#[test]
fn new_notes_take_a_colour_not_yet_in_use() {
    // Walk the whole palette: each new note must introduce a new colour
    // while any remain unused.
    let mut notes: Vec<Note> = Vec::new();
    let mut seen = Vec::new();
    for _ in 0..Palette::ALL.len() {
        let palette = least_used_palette(&notes);
        assert!(!seen.contains(&palette), "{palette:?} was reused too early");
        seen.push(palette);
        notes.push(fresh(palette));
    }
    assert_eq!(seen.len(), Palette::ALL.len(), "every colour got used once");
}

#[test]
fn it_skips_colours_already_taken() {
    let notes = with_palettes(&[Palette::Yellow, Palette::Green, Palette::Blue]);
    let chosen = least_used_palette(&notes);
    assert!(
        !matches!(chosen, Palette::Yellow | Palette::Green | Palette::Blue),
        "picked {chosen:?}, which is already on screen"
    );
    assert_eq!(chosen, Palette::Purple, "and it follows the palette order");
}

#[test]
fn once_every_colour_is_used_it_evens_out() {
    // One of each, plus extra yellows: the next note must not be yellow.
    let mut palettes: Vec<Palette> = Palette::ALL.to_vec();
    palettes.extend([Palette::Yellow, Palette::Yellow]);
    let notes = with_palettes(&palettes);

    let chosen = least_used_palette(&notes);
    assert_ne!(chosen, Palette::Yellow, "the most-used colour must not win");
    let used = notes.iter().filter(|n| n.palette == chosen).count();
    assert_eq!(used, 1, "it picked one of the least-used colours");
}

#[test]
fn deleting_a_note_frees_its_colour_again() {
    let mut notes = with_palettes(&Palette::ALL[..3]);
    notes.remove(1); // drop the green one
    assert_eq!(least_used_palette(&notes), Palette::Green);
}

#[test]
fn palette_ids_round_trip() {
    for palette in Palette::ALL {
        assert_eq!(Palette::from_id(palette.id()), Some(palette));
    }
    assert_eq!(Palette::from_id("chartreuse"), None);
}

#[test]
fn geometry_normalisation_enforces_minimums() {
    let tiny = NoteGeometry {
        monitor: Some("DP-1".into()),
        x: 10,
        y: 20,
        width: 5,
        height: 5,
    };
    let normalized = tiny.normalized();
    assert_eq!(normalized.width, MIN_WIDTH);
    assert_eq!(normalized.height, MIN_HEIGHT);
    // Position is left alone — clamping into a monitor is geometry's job.
    assert_eq!((normalized.x, normalized.y), (10, 20));
    assert_eq!(normalized.monitor.as_deref(), Some("DP-1"));
}

#[test]
fn a_new_note_is_empty_visible_and_unplaced() {
    let mut ids = IdSource::new();
    let note = Note::new(Palette::Pink, &mut ids);
    assert_eq!(note.body, "");
    assert_eq!(note.palette, Palette::Pink);
    assert_eq!(note.geometry, NoteGeometry::default());
    assert_eq!(note.geometry.monitor, None);
    assert_eq!((note.geometry.x, note.geometry.y), (0, 0));
    assert_eq!(note.geometry.width, DEFAULT_WIDTH);
    assert_eq!(note.geometry.height, DEFAULT_HEIGHT);
    assert!(note.visible);
    assert!(!note.pinned);
    assert_eq!(note.created, note.modified);
    assert!(note.created > 0, "the clock was read");
    assert_eq!(ids.next, 1);
}

#[test]
fn identifiers_are_the_time_and_the_number_in_hexadecimal() {
    let mut ids = IdSource { next: 255 };
    let at = Some(Duration::from_nanos(0xabc_def0_1234));
    assert_eq!(ids.id_at(at), "abcdef01234-ff");
    assert_eq!(ids.id_at(None), "0-100");
    assert_eq!(ids.id_from(u128::MAX), format!("{}-101", "f".repeat(32)));
    let mut last = IdSource { next: u64::MAX };
    assert_eq!(last.id_at(at), "abcdef01234-ffffffffffffffff");
    assert_eq!(last.next, 0, "the counter starts over");
}

#[test]
fn readings_of_the_clock_are_whole_seconds_and_nanoseconds() {
    let at = Some(Duration::new(1_700_000_000, 999_999_999));
    assert_eq!(clock::seconds(at), 1_700_000_000);
    assert_eq!(clock::nanoseconds(at), 1_700_000_000_999_999_999);
    assert_eq!(stamp(at), 1_700_000_000);
    assert_eq!(clock::seconds(None), 0);
    assert_eq!(clock::nanoseconds(None), 0);
    assert_eq!(stamp(None), 0, "a clock before the epoch counts as the epoch");
    let epoch = std::time::SystemTime::UNIX_EPOCH;
    assert_eq!(
        clock::reading_of(&(epoch + Duration::from_secs(90))),
        Some(Duration::from_secs(90))
    );
    assert_eq!(clock::reading_of(&(epoch - Duration::from_secs(1))), None);
    let now = clock::now().expect("the clock is set after 1970");
    assert!(now.as_secs() > 1_600_000_000);
}

#[test]
fn touching_changes_nothing_but_the_time() {
    let mut note = fresh(Palette::Blue);
    note.body = "text".into();
    let mut expected = note.clone();
    note.touch_at(77);
    expected.modified = 77;
    assert_eq!(note, expected);
    note.touch();
    assert!(note.modified > 77);
    expected.modified = note.modified;
    assert_eq!(note, expected);
}

#[test]
fn palettes_have_labels_and_classes() {
    let labels: Vec<&str> = Palette::ALL.iter().map(|p| p.label()).collect();
    assert_eq!(
        labels,
        ["Yellow", "Green", "Blue", "Purple", "Pink", "Orange", "Grey"]
    );
    assert_eq!(Palette::Gray.id(), "gray");
    assert_eq!(Palette::Gray.css_class(), "note-gray");
    assert_eq!(Palette::Yellow.css_class(), "note-yellow");
    assert_eq!(Palette::default(), Palette::Yellow);
    assert_eq!(Palette::from_id(""), None);
    assert_eq!(Palette::from_id("Yellow"), None, "names are case-sensitive");
}

#[test]
fn a_title_of_exactly_the_limit_is_not_cut() {
    let mut note = fresh(Palette::Yellow);
    note.body = "a".repeat(40);
    assert_eq!(note.title(), "a".repeat(40));
    note.body = "a".repeat(41);
    assert_eq!(note.title(), format!("{}…", "a".repeat(40)));
}

#[test]
fn a_word_boundary_in_the_first_half_does_not_count() {
    let mut note = fresh(Palette::Yellow);
    note.body = format!("short {}", "x".repeat(60));
    assert_eq!(note.title(), format!("short {}…", "x".repeat(34)));
    // At the middle it does.
    note.body = format!("{} {}", "y".repeat(20), "x".repeat(60));
    assert_eq!(note.title(), format!("{}…", "y".repeat(20)));
    // The middle is measured in bytes of UTF-8: ten characters of two bytes.
    note.body = format!("{} {}", "é".repeat(10), "x".repeat(60));
    assert_eq!(note.title(), format!("{}…", "é".repeat(10)));
}

#[test]
fn carriage_returns_are_trimmed_from_titles() {
    let mut note = fresh(Palette::Yellow);
    note.body = "\r\n  first\u{a0}\r\nsecond".into();
    assert_eq!(note.title(), "first");
}

#[test]
fn white_space_is_what_unicode_says() {
    for n in 0..=0x10ffffu32 {
        if let Some(c) = char::from_u32(n) {
            assert_eq!(
                stickies::text::is_white_space(c),
                c.is_whitespace(),
                "U+{n:04X}"
            );
            assert_eq!(stickies::text::utf8_width_of(c), c.len_utf8());
        }
    }
}

#[test]
fn the_spread_of_colours_stays_even() {
    let mut notes: Vec<Note> = Vec::new();
    for _ in 0..30 {
        let palette = least_used_palette(&notes);
        notes.push(fresh(palette));
        let counts: Vec<usize> = Palette::ALL
            .iter()
            .map(|p| notes.iter().filter(|n| n.palette == *p).count())
            .collect();
        let most = counts.iter().max().unwrap();
        let least = counts.iter().min().unwrap();
        assert!(most - least <= 1, "{counts:?}");
    }
}

#[test]
fn normalising_twice_is_normalising_once() {
    let odd = NoteGeometry {
        monitor: None,
        x: -5,
        y: 7,
        width: -1,
        height: 1000,
    };
    let once = odd.normalized();
    assert_eq!((once.width, once.height), (MIN_WIDTH, 1000));
    assert_eq!(once.normalized(), once);
}

#[test]
fn a_record_that_does_not_say_is_visible() {
    assert!(stickies::model::note::default_true());
}
