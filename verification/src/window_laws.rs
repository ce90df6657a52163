//! What holds of how a note is shown and renumbered.

use crate::model::markdown;
use crate::model::markdown::Style;
use crate::text;
use crate::window;
use crate::window::{Edit, Tag, TagRun, TextEdit};
use vstd::prelude::*;

verus! {

/// Every span and every marker gets one tag, over just its own characters:
/// first the spans and then the markers, each in order. What belongs to a whole
/// line reaches back to its start.
pub proof fn every_run_gets_its_tag(m: markdown::Markup, i: int)
    ensures
        ({
            let tags = window::tags_of(m);
            let n = m.spans.len() as int;
            &&& tags.len() == n + m.markers.len()
            &&& 0 <= i < n ==> {
                &&& tags[i].start == m.spans[i].start && tags[i].end == m.spans[i].end
                &&& tags[i].name == window::look(m.spans[i].style).name
                &&& tags[i].from_line_start == (m.spans[i].style is Heading
                    || m.spans[i].style is Quote || m.spans[i].style is ListItem
                    || m.spans[i].style is CodeBlock)
            }
            &&& 0 <= i < m.markers.len() ==> {
                &&& tags[n + i].start == m.markers[i].start && tags[n + i].end == m.markers[i].end
                &&& tags[n + i].name == window::marker_look().name
                &&& !tags[n + i].from_line_start
            }
        }),
{
}

/// Each style has a tag of its own name.
pub proof fn tags_are_named_after_their_style(level: u8)
    ensures
        window::look(Style::Heading(level)).name == "md-h"@ + text::numeral(level as int, 10),
        window::look(Style::ListItem(level)).name == "md-list"@ + text::numeral(level as int, 10),
        window::look(Style::Bold).name == "md-bold"@,
        window::look(Style::Italic).name == "md-italic"@,
        window::look(Style::Strikethrough).name == "md-strike"@,
        window::look(Style::Code).name == "md-code"@,
        window::look(Style::CodeBlock).name == "md-codeblock"@,
        window::look(Style::Quote).name == "md-quote"@,
        window::look(Style::Link).name == "md-link"@,
        window::marker_look().name == "md-marker"@,
{
}

/// Syntax is hidden, and nothing that is styled is.
pub proof fn only_syntax_is_hidden(style: Style)
    ensures
        window::marker_look().invisible,
        !window::look(style).invisible,
{
}

/// Bold and headings are heavy and nothing else is; code is monospaced and
/// nothing else is; and so on for each way in which text can differ.
pub proof fn each_style_looks_like_itself(style: Style)
    ensures
        ({
            let l = window::look(style);
            &&& (l.weight is Some) == (style is Bold || style is Heading)
            &&& l.weight is Some ==> l.weight->0 == 700
            &&& l.monospace == (style is Code || style is CodeBlock)
            &&& l.italic == (style is Italic || style is Quote)
            &&& l.strikethrough == (style is Strikethrough)
            &&& l.underline == (style is Link)
            &&& (l.left_margin is Some) == (style is CodeBlock || style is Quote
                || style is ListItem)
            &&& style is CodeBlock || style is Quote ==> l.left_margin->0 == 24
            &&& (l.indent is Some) == (style is ListItem)
            &&& l.indent is Some ==> l.indent->0 == -18
            &&& (l.pixels_above_lines is Some) == (style is Heading || style is ListItem)
            &&& style is Heading ==> l.pixels_above_lines->0 == 6
            &&& style is ListItem ==> l.pixels_above_lines->0 == 2
            &&& (l.scale is Some) == (style is Heading || style is Code || style is CodeBlock)
            &&& style is Code || style is CodeBlock ==> l.scale->0 == 95
        }),
{
}

/// Headings shrink with depth, from 160 to 105 hundredths of the body, and so
/// stay above it.
pub proof fn headings_shrink_with_depth(a: u8, b: u8)
    requires
        1 <= a < b <= 6,
    ensures
        ({
            let outer = window::look(Style::Heading(a)).scale->0;
            let inner = window::look(Style::Heading(b)).scale->0;
            &&& inner <= outer
            &&& a < 5 ==> inner < outer
            &&& 100 < inner
            &&& a == 1 ==> outer == 160
            &&& b == 2 ==> inner == 140
            &&& b == 3 ==> inner == 125
            &&& b == 4 ==> inner == 115
            &&& b >= 5 ==> inner == 105
        }),
{
}

/// An item is set in by 36 pixels, and by 24 more for every level.
pub proof fn items_are_set_in_by_level(level: u8)
    ensures
        window::look(Style::ListItem(0)).left_margin == Some(36i32),
        level < 255 ==> window::look(Style::ListItem((level + 1) as u8)).left_margin->0
            == window::look(Style::ListItem(level)).left_margin->0 + 24,
{
}

/// There is one tag for each style that a note can have, and one for syntax.
pub proof fn the_tags_are_those_of_the_styles(style: Style)
    requires
        match style {
            Style::Heading(level) => 1 <= level <= 6,
            Style::ListItem(level) => level <= 4,
            _ => true,
        },
    ensures
        window::looks().contains(window::look(style)),
        window::looks().contains(window::marker_look()),
        window::looks().len() == 19,
{
    let at: int = match style {
        Style::Heading(level) => level - 1,
        Style::Bold => 6,
        Style::Italic => 7,
        Style::Strikethrough => 8,
        Style::Code => 9,
        Style::CodeBlock => 10,
        Style::Quote => 11,
        Style::ListItem(level) => 12 + level,
        Style::Link => 17,
    };
    assert(window::styles()[at] == style);
    assert(window::looks()[at] == window::look(style));
    assert(window::looks()[18] == window::marker_look());
}

/// Each edit replaces the characters it names by its number.
pub proof fn edits_write_their_number(edits: Seq<Edit>, i: int)
    ensures
        window::changes(edits).len() == edits.len(),
        0 <= i < edits.len() ==> {
            let c = window::changes(edits)[i];
            &&& c.start == edits[i].start && c.end == edits[i].end
            &&& c.text == text::numeral(edits[i].number as int, 10)
        },
{
}

/// Tags and edits are handed out as they are.
pub proof fn tags_are_handed_out_as_they_are(
    run: TagRun,
    tag: Tag,
    edit: TextEdit,
    runs: Seq<TagRun>,
    i: int,
)
    ensures
        run@.name == run.name@ && run@.start == run.start && run@.end == run.end,
        run@.from_line_start == run.from_line_start,
        window::tagged(runs).len() == runs.len(),
        0 <= i < runs.len() ==> window::tagged(runs)[i] == runs[i]@,
        tag@.name == tag.name@ && tag@.scale == tag.scale && tag@.weight == tag.weight,
        tag@.pixels_above_lines == tag.pixels_above_lines,
        tag@.left_margin == tag.left_margin && tag@.indent == tag.indent,
        tag@.monospace == tag.monospace && tag@.italic == tag.italic,
        tag@.strikethrough == tag.strikethrough && tag@.underline == tag.underline,
        tag@.invisible == tag.invisible,
        edit@.start == edit.start && edit@.end == edit.end && edit@.text == edit.text@,
{
}

/// The pin button says what pressing it does, or why it cannot be pressed.
pub proof fn the_pin_button_says_what_it_does(available: bool, pinned: bool)
    ensures
        available && pinned ==> window::pin_tip(available, pinned) == "Stop Keeping on Top"@,
        available && !pinned ==> window::pin_tip(available, pinned) == "Keep on Top"@,
        window::pin_tip(false, pinned) == window::pin_tip(false, !pinned),
{
}

} // verus!
