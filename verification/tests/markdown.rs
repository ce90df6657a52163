use stickies::model::markdown::{parse, strip, Parsed, Span, Style, MAX_LIST_DEPTH};

/// The text a span covers, for readable assertions.
fn text_of(source: &str, span: &Span) -> String {
    source
        .chars()
        .skip(span.start)
        .take(span.end - span.start)
        .collect()
}

fn styles(parsed: &Parsed) -> Vec<Style> {
    parsed.spans.iter().map(|s| s.style).collect()
}

/// What the note looks like with the markers hidden — the rendered view.
fn rendered(source: &str) -> String {
    let parsed = parse(source);
    source
        .chars()
        .enumerate()
        .filter(|(index, _)| {
            !parsed
                .markers
                .iter()
                .any(|m| *index >= m.start && *index < m.end)
        })
        .map(|(_, c)| c)
        .collect()
}

#[test]
fn strip_removes_markup_for_titles() {
    assert_eq!(strip("# Heading Goes Here"), "Heading Goes Here");
    assert_eq!(strip("**bold** and *italic*"), "bold and italic");
    assert_eq!(strip("`code` here"), "code here");
    assert_eq!(strip("~~gone~~"), "gone");
    assert_eq!(strip("see [the docs](https://example.com)"), "see the docs");
    assert_eq!(strip("> quoted"), "quoted");
}

#[test]
fn strip_drops_list_bullets_even_though_the_editor_keeps_them() {
    assert_eq!(strip("- milk"), "milk");
    assert_eq!(strip("* milk"), "milk");
    assert_eq!(strip("1. first"), "first");
    assert_eq!(strip("- **oat** milk\n- bread"), "oat milk\nbread");
}

#[test]
fn strip_leaves_plain_text_and_partial_markup_alone() {
    for source in [
        "just a note",
        "a * b * c",
        "#hashtag",
        "**unfinished",
        "5 * 3",
    ] {
        assert_eq!(strip(source), source, "{source:?}");
    }
}

#[test]
fn strip_is_multibyte_safe() {
    assert_eq!(strip("# 🎉 Héllo **wörld**"), "🎉 Héllo wörld");
}

#[test]
fn plain_text_is_left_alone() {
    let parsed = parse("just a note");
    assert!(parsed.spans.is_empty());
    assert!(parsed.markers.is_empty());
    assert_eq!(rendered("just a note"), "just a note");
}

#[test]
fn empty_input_does_not_panic() {
    assert_eq!(parse(""), Parsed::default());
    assert_eq!(parse("\n\n\n"), Parsed::default());
}

#[test]
fn bold_hides_its_asterisks() {
    let source = "buy **oat milk** today";
    let parsed = parse(source);
    assert_eq!(styles(&parsed), vec![Style::Bold]);
    assert_eq!(text_of(source, &parsed.spans[0]), "oat milk");
    assert_eq!(rendered(source), "buy oat milk today");
}

#[test]
fn italic_and_strikethrough() {
    let source = "*soon* and ~~later~~";
    let parsed = parse(source);
    assert_eq!(styles(&parsed), vec![Style::Italic, Style::Strikethrough]);
    assert_eq!(rendered(source), "soon and later");
}

#[test]
fn bold_wins_over_italic_for_double_asterisks() {
    // Scanned longest-delimiter-first, or "**x**" would read as an empty
    // italic followed by stray asterisks.
    let parsed = parse("**x**");
    assert_eq!(styles(&parsed), vec![Style::Bold]);
}

#[test]
fn headings_are_levelled_and_their_hashes_hidden() {
    for level in 1..=6u8 {
        let source = format!("{} Title", "#".repeat(level as usize));
        let parsed = parse(&source);
        assert_eq!(styles(&parsed), vec![Style::Heading(level)]);
        assert_eq!(text_of(&source, &parsed.spans[0]), "Title");
        assert_eq!(rendered(&source), "Title");
    }
}

#[test]
fn seven_hashes_is_not_a_heading() {
    let parsed = parse("####### nope");
    assert!(parsed.spans.is_empty());
    assert_eq!(rendered("####### nope"), "####### nope");
}

#[test]
fn a_hash_without_a_space_is_not_a_heading() {
    // "#1 priority" and "#hashtag" are things people write on notes.
    assert!(parse("#1 priority").spans.is_empty());
    assert_eq!(rendered("#hashtag"), "#hashtag");
}

#[test]
fn bullets_stay_visible_because_they_are_the_rendering() {
    let source = "- milk\n- bread";
    let parsed = parse(source);
    assert_eq!(
        styles(&parsed),
        vec![Style::ListItem(0), Style::ListItem(0)]
    );
    assert_eq!(text_of(source, &parsed.spans[0]), "milk");
    // Hiding "- " would leave an unexplained indent, so it is kept.
    assert_eq!(rendered(source), source);
}

#[test]
fn an_asterisk_bullet_is_not_italic() {
    let parsed = parse("* milk");
    assert_eq!(styles(&parsed), vec![Style::ListItem(0)]);
}

#[test]
fn numbered_lists_are_recognised() {
    assert_eq!(styles(&parse("1. first")), vec![Style::ListItem(0)]);
    assert_eq!(styles(&parse("12) twelfth")), vec![Style::ListItem(0)]);
    assert!(parse("1.no space").spans.is_empty());
}

#[test]
fn indented_items_nest_one_level_per_step() {
    // Two-space and four-space notes are both one level per step.
    for unit in ["  ", "    "] {
        let source = format!("- milk\n{unit}- semi-skimmed\n{unit}{unit}- one pint\n- bread");
        assert_eq!(
            styles(&parse(&source)),
            vec![
                Style::ListItem(0),
                Style::ListItem(1),
                Style::ListItem(2),
                Style::ListItem(0),
            ]
        );
    }
}

#[test]
fn nesting_never_goes_backwards_when_widths_are_mixed() {
    let parsed = parse("- a\n   - b\n  - c\n- d");
    assert_eq!(
        styles(&parsed),
        vec![
            Style::ListItem(0),
            Style::ListItem(1),
            // Narrower than "b" but still indented, so it is b's sibling.
            Style::ListItem(1),
            Style::ListItem(0),
        ]
    );
}

#[test]
fn a_paragraph_at_the_left_edge_ends_the_list() {
    let parsed = parse("  - deep\nprose\n  - deep again");
    assert_eq!(
        styles(&parsed),
        vec![Style::ListItem(0), Style::ListItem(0)]
    );
}

#[test]
fn a_blank_line_between_items_keeps_the_nesting() {
    let parsed = parse("- milk\n\n  - semi-skimmed");
    assert_eq!(
        styles(&parsed),
        vec![Style::ListItem(0), Style::ListItem(1)]
    );
}

#[test]
fn nesting_stops_deepening_past_the_styled_maximum() {
    let source: String = (0..8)
        .map(|level| format!("{}- item\n", "  ".repeat(level)))
        .collect();
    let deepest = styles(&parse(&source))
        .into_iter()
        .filter_map(|style| match style {
            Style::ListItem(level) => Some(level),
            _ => None,
        })
        .max();
    assert_eq!(deepest, Some(MAX_LIST_DEPTH));
}

#[test]
fn quotes_hide_their_marker() {
    let source = "> to be fair";
    let parsed = parse(source);
    assert_eq!(styles(&parsed), vec![Style::Quote]);
    assert_eq!(rendered(source), "to be fair");
}

#[test]
fn inline_code_hides_its_backticks() {
    let source = "run `cargo test` first";
    let parsed = parse(source);
    assert_eq!(styles(&parsed), vec![Style::Code]);
    assert_eq!(text_of(source, &parsed.spans[0]), "cargo test");
    assert_eq!(rendered(source), "run cargo test first");
}

#[test]
fn formatting_inside_code_is_literal() {
    let source = "`**not bold**`";
    let parsed = parse(source);
    assert_eq!(styles(&parsed), vec![Style::Code]);
    assert_eq!(text_of(source, &parsed.spans[0]), "**not bold**");
}

#[test]
fn fenced_blocks_style_their_contents_and_hide_the_fences() {
    let source = "```\nlet x = 1;\nlet y = 2;\n```";
    let parsed = parse(source);
    assert_eq!(styles(&parsed), vec![Style::CodeBlock, Style::CodeBlock]);
    assert_eq!(text_of(source, &parsed.spans[0]), "let x = 1;");
    assert_eq!(rendered(source), "\nlet x = 1;\nlet y = 2;\n");
}

#[test]
fn links_show_the_label_and_hide_the_target() {
    let source = "see [the docs](https://example.com) later";
    let parsed = parse(source);
    assert_eq!(styles(&parsed), vec![Style::Link]);
    assert_eq!(text_of(source, &parsed.spans[0]), "the docs");
    assert_eq!(rendered(source), "see the docs later");
}

#[test]
fn unmatched_markers_are_left_as_plain_text() {
    // Half-typed formatting is the normal state while writing, and must
    // never swallow the rest of the note.
    for source in [
        "**unfinished",
        "a * b * c *",
        "`unclosed",
        "[label](unclosed",
        "[label] (spaced)",
        "a * b * c *",
        "5 * 3 * 2",
    ] {
        let parsed = parse(source);
        assert_eq!(
            rendered(source),
            source,
            "{source:?} hid characters it should not have"
        );
        assert!(
            parsed.spans.iter().all(|s| s.end <= source.chars().count()),
            "{source:?} produced an out-of-range span"
        );
    }
}

#[test]
fn asterisks_used_as_punctuation_do_not_italicise() {
    // Real note content: separators, arithmetic, footnote marks.
    for source in ["a * b * c", "5 * 3 * 2 = 30", "note *", "* "] {
        assert_eq!(rendered(source), source, "{source:?} was reformatted");
        assert!(parse(source).spans.is_empty(), "{source:?} was styled");
    }
    // But real emphasis still works either side of them.
    assert_eq!(rendered("2 * 3 and *this*"), "2 * 3 and this");
}

#[test]
fn an_unclosed_fence_does_not_swallow_the_note() {
    // Typing "```" mid-note is normal; the rest must stay readable.
    let source = "```\nstill visible";
    assert_eq!(rendered(source), "\nstill visible");
    assert_eq!(styles(&parse(source)), vec![Style::CodeBlock]);
}

#[test]
fn offsets_are_characters_not_bytes() {
    // The bug this guards: byte offsets would land mid-codepoint and either
    // panic in GtkTextBuffer or style the wrong characters.
    let source = "héllo **wörld** 🎉";
    let parsed = parse(source);
    assert_eq!(text_of(source, &parsed.spans[0]), "wörld");
    assert_eq!(rendered(source), "héllo wörld 🎉");

    let emoji = "🎉🎉 **b** 🎉";
    assert_eq!(text_of(emoji, &parse(emoji).spans[0]), "b");
}

#[test]
fn every_span_and_marker_is_within_the_text() {
    let source =
        "# Title\n\n- **bold** item\n- `code` and [link](u)\n\n> quote\n\n```\nfn x() {}\n```";
    let parsed = parse(source);
    let len = source.chars().count();
    for span in &parsed.spans {
        assert!(span.start < span.end && span.end <= len, "{span:?}");
    }
    for marker in &parsed.markers {
        assert!(marker.start < marker.end && marker.end <= len, "{marker:?}");
    }
}

#[test]
fn markers_never_overlap_each_other() {
    // Overlapping hidden ranges would double-count and could hide content.
    let source = "# **T** and `c` and [l](u)\n- *i*";
    let mut markers = parse(source).markers;
    markers.sort_by_key(|m| m.start);
    for pair in markers.windows(2) {
        assert!(
            pair[0].end <= pair[1].start,
            "markers overlap: {:?} and {:?}",
            pair[0],
            pair[1]
        );
    }
}

#[test]
fn a_realistic_note_renders_as_expected() {
    let source = "# Shopping\n\n- **oat** milk\n- bread\n\n> before 6pm";
    assert_eq!(
        rendered(source),
        "Shopping\n\n- oat milk\n- bread\n\nbefore 6pm"
    );
}

#[test]
fn parsing_is_stable_under_incremental_typing() {
    // Every prefix of a note gets typed at some point; none may panic.
    let source = "# T\n- **b** `c` [l](u) ~~s~~ *i*\n```\nx\n```";
    for length in 0..=source.chars().count() {
        let prefix: String = source.chars().take(length).collect();
        let parsed = parse(&prefix);
        let len = prefix.chars().count();
        assert!(parsed.spans.iter().all(|s| s.end <= len), "{prefix:?}");
        assert!(parsed.markers.iter().all(|m| m.end <= len), "{prefix:?}");
    }
}

#[test]
fn no_line_feed_is_ever_hidden() {
    let source = "# T\n\n- **b**\n```\nx\n```\n> q\n1. a";
    assert_eq!(
        rendered(source).matches('\n').count(),
        source.matches('\n').count()
    );
    assert_eq!(
        strip(source).matches('\n').count(),
        source.matches('\n').count()
    );
}

#[test]
fn styles_stay_within_what_has_a_tag() {
    let deep: String = (0..12).map(|n| format!("{}- x\n", " ".repeat(n))).collect();
    for style in styles(&parse(&format!("###### six\n####### seven\n{deep}"))) {
        match style {
            Style::Heading(level) => assert!((1..=6).contains(&level)),
            Style::ListItem(level) => assert!(level <= MAX_LIST_DEPTH),
            other => panic!("unexpected {other:?}"),
        }
    }
}

#[test]
fn inline_syntax_does_not_nest() {
    let parsed = parse("**a *b* c** and `x **y**` and [l *m*](u)");
    for (i, a) in parsed.spans.iter().enumerate() {
        for b in &parsed.spans[i + 1..] {
            assert!(a.end <= b.start, "{a:?} and {b:?}");
        }
        for m in &parsed.markers {
            assert!(a.end <= m.start || m.end <= a.start, "{a:?} and {m:?}");
        }
    }
    assert_eq!(
        styles(&parsed),
        vec![Style::Bold, Style::Code, Style::Link],
        "the outermost wins"
    );
}

#[test]
fn underscores_emphasise_like_asterisks() {
    let source = "__bold__ and _italic_";
    let parsed = parse(source);
    assert_eq!(styles(&parsed), vec![Style::Bold, Style::Italic]);
    assert_eq!(rendered(source), "bold and italic");
    assert_eq!(text_of(source, &parsed.spans[1]), "italic");
}

#[test]
fn a_tilde_fence_is_a_fence() {
    let parsed = parse("  ~~~rust\n**x**\n~~~");
    assert_eq!(styles(&parsed), vec![Style::CodeBlock]);
    assert_eq!(rendered("  ~~~rust\n**x**\n~~~"), "\n**x**\n");
}

#[test]
fn a_quote_needs_no_space() {
    let parsed = parse(">x");
    assert_eq!(styles(&parsed), vec![Style::Quote]);
    assert_eq!(rendered(">x"), "x");
    assert_eq!(rendered("  > x"), "  x");
}

#[test]
fn an_empty_label_is_no_link() {
    assert_eq!(rendered("[](u)"), "[](u)");
    assert_eq!(rendered("****"), "****");
    assert_eq!(rendered("``"), "", "but an empty code span is one");
}

#[test]
fn the_indent_of_an_item_is_hidden_but_not_its_bullet() {
    assert_eq!(rendered("- a\n  - b\n    12) c"), "- a\n- b\n12) c");
}
