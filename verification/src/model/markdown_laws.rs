//! What holds of the scanner on every text.

use crate::model::markdown;
use crate::model::markdown::{Markup, Style};
use crate::text;
use vstd::prelude::*;

verus! {

/// Every span and every marker is a non-empty run inside a text of `len`
/// characters.
pub open spec fn in_range(m: Markup, len: int) -> bool {
    &&& forall|k: int|
        0 <= k < m.spans.len() ==> 0 <= (#[trigger] m.spans[k]).start < m.spans[k].end <= len
    &&& forall|k: int|
        0 <= k < m.markers.len() ==> 0 <= (#[trigger] m.markers[k]).start < m.markers[k].end <= len
}

/// Every marker ends before the next one starts.
pub open spec fn markers_ordered(m: Markup) -> bool {
    forall|j: int, k: int|
        0 <= j < k < m.markers.len() ==> (#[trigger] m.markers[j]).end <= (
        #[trigger] m.markers[k]).start
}

/// Spans lie in `lo..hi`.
pub open spec fn spans_within(m: Markup, lo: int, hi: int) -> bool {
    forall|k: int|
        0 <= k < m.spans.len() ==> lo <= (#[trigger] m.spans[k]).start < m.spans[k].end <= hi
}

/// Markers lie in `lo..hi`, in order.
pub open spec fn markers_within(m: Markup, lo: int, hi: int) -> bool {
    &&& forall|k: int|
        0 <= k < m.markers.len() ==> lo <= (#[trigger] m.markers[k]).start < m.markers[k].end <= hi
    &&& markers_ordered(m)
}

proof fn lemma_join(a: Markup, b: Markup, lo: int, mid: int, hi: int)
    requires
        lo <= mid <= hi,
        markers_within(a, lo, mid),
        markers_within(b, mid, hi),
    ensures
        markers_within(a.then_markup(b), lo, hi),
{
    let m = a.then_markup(b);
    assert forall|k: int| 0 <= k < m.markers.len() implies lo <= (#[trigger] m.markers[k]).start
        < m.markers[k].end <= hi by {
        if k < a.markers.len() {
            assert(m.markers[k] == a.markers[k]);
        } else {
            assert(m.markers[k] == b.markers[k - a.markers.len()]);
        }
    }
    assert forall|j: int, k: int| 0 <= j < k < m.markers.len() implies (
    #[trigger] m.markers[j]).end <= (#[trigger] m.markers[k]).start by {
        if k < a.markers.len() {
            assert(m.markers[j] == a.markers[j] && m.markers[k] == a.markers[k]);
        } else {
            assert(m.markers[k] == b.markers[k - a.markers.len()]);
            if j < a.markers.len() {
                assert(m.markers[j] == a.markers[j]);
            } else {
                assert(m.markers[j] == b.markers[j - a.markers.len()]);
            }
        }
    }
}

proof fn lemma_join_spans(a: Markup, b: Markup, lo: int, hi: int)
    requires
        spans_within(a, lo, hi),
        spans_within(b, lo, hi),
    ensures
        spans_within(a.then_markup(b), lo, hi),
{
    let m = a.then_markup(b);
    assert forall|k: int| 0 <= k < m.spans.len() implies lo <= (#[trigger] m.spans[k]).start
        < m.spans[k].end <= hi by {
        if k < a.spans.len() {
            assert(m.spans[k] == a.spans[k]);
        } else {
            assert(m.spans[k] == b.spans[k - a.spans.len()]);
        }
    }
}

proof fn lemma_inline(line: Seq<char>, i: int, offset: int)
    requires
        0 <= i <= line.len(),
    ensures
        markers_within(markdown::inline_markup(line, i, offset), offset + i, offset + line.len()),
        spans_within(markdown::inline_markup(line, i, offset), offset + i, offset + line.len()),
    decreases line.len() - i,
{
    if i < line.len() {
        markdown::lemma_inline_bounds(line, i);
        match markdown::inline_at(line, i) {
            Some(found) => {
                lemma_inline(line, found.end, offset);
                let here = found.markup(i, offset);
                let rest = markdown::inline_markup(line, found.end, offset);
                assert(markers_within(here, offset + i, offset + found.end));
                lemma_join(here, rest, offset + i, offset + found.end, offset + line.len());
                assert(spans_within(here, offset + i, offset + line.len()));
                lemma_join_spans(here, rest, offset + i, offset + line.len());
            },
            None => lemma_inline(line, i + 1, offset),
        }
    }
}

pub proof fn lemma_line(line: Seq<char>, offset: int, levels: Seq<int>)
    ensures
        markers_within(
            markdown::line_markup(line, offset, levels),
            offset,
            offset + line.len(),
        ),
        spans_within(markdown::line_markup(line, offset, levels), offset, offset + line.len()),
{
    if line.len() > 0 {
        markdown::lemma_content_start(line);
        let c = markdown::content_start(line);
        let content = line.skip(c);
        let a = markdown::block_markup(line, offset, levels);
        let b = markdown::inline_markup(content, 0, offset + c);
        lemma_inline(content, 0, offset + c);
        lemma_join(a, b, offset, offset + c, offset + line.len());
        lemma_join_spans(a, b, offset, offset + line.len());
    }
}

pub proof fn lemma_text(text: Seq<char>, start: int, in_fence: bool, levels: Seq<int>)
    requires
        0 <= start <= text.len(),
    ensures
        markers_within(
            markdown::markup_from(text, start, in_fence, levels),
            start,
            text.len() as int,
        ),
        spans_within(
            markdown::markup_from(text, start, in_fence, levels),
            start,
            text.len() as int,
        ),
    decreases text.len() - start,
{
    text::lemma_line_end(text, start);
    let end = text::line_end(text, start);
    let line = text.subrange(start, end);
    let here = if markdown::fence(line) {
        Markup::marker(start, end)
    } else if in_fence {
        Markup::span(start, end, Style::CodeBlock)
    } else {
        markdown::line_markup(line, start, levels)
    };
    lemma_line(line, start, levels);
    assert(markers_within(here, start, end));
    assert(spans_within(here, start, text.len() as int));
    if end < text.len() {
        let fenced = in_fence != markdown::fence(line);
        let open_levels = if markdown::fence(line) || in_fence {
            levels
        } else {
            markdown::levels_after(levels, line)
        };
        lemma_text(text, end + 1, fenced, open_levels);
        let rest = markdown::markup_from(text, end + 1, fenced, open_levels);
        assert(markers_within(here, start, end + 1));
        lemma_join(here, rest, start, end + 1, text.len() as int);
        lemma_join_spans(here, rest, start, text.len() as int);
    } else {
        assert(markers_within(here, start, text.len() as int));
    }
}

/// Every span and every marker of a text lies inside the text, and none is
/// empty.
pub proof fn markup_stays_in_range(text: Seq<char>)
    ensures
        in_range(markdown::markup(text), text.len() as int),
{
    lemma_text(text, 0, false, seq![]);
}

/// Markers come in order and never overlap, so hiding them hides each syntax
/// character once and nothing between them.
pub proof fn markers_never_overlap(text: Seq<char>)
    ensures
        markers_ordered(markdown::markup(text)),
{
    lemma_text(text, 0, false, seq![]);
}

/// Every position of a line, the line feed that ends it included, has the
/// line's start.
pub proof fn line_start_of_line(text: Seq<char>, start: int)
    requires
        0 <= start <= text.len(),
        start == 0 || text[start - 1] == '\n',
    ensures
        forall|i: int|
            start <= i <= text::line_end(text, start) ==> #[trigger] markdown::line_start(text, i)
                == start,
{
    text::lemma_line_end(text, start);
    assert forall|i: int| start <= i <= text::line_end(text, start) implies
        #[trigger] markdown::line_start(text, i) == start by {
        lemma_line_start(text, start, i);
    }
}

proof fn lemma_line_start(text: Seq<char>, start: int, i: int)
    requires
        0 <= start <= i <= text.len(),
        start == 0 || text[start - 1] == '\n',
        forall|k: int| start <= k < i ==> text[k] != '\n',
    ensures
        markdown::line_start(text, i) == start,
    decreases i - start,
{
    if i > start {
        lemma_line_start(text, start, i - 1);
    }
}

/// No marker covers a line feed.
pub open spec fn spares_line_feeds(m: Markup, text: Seq<char>) -> bool {
    forall|k: int, i: int|
        0 <= k < m.markers.len() && (#[trigger] m.markers[k]).start <= i < m.markers[k].end
            ==> #[trigger] text[i] != '\n'
}

proof fn lemma_line_feeds(text: Seq<char>, start: int, in_fence: bool, levels: Seq<int>)
    requires
        0 <= start <= text.len(),
    ensures
        spares_line_feeds(markdown::markup_from(text, start, in_fence, levels), text),
    decreases text.len() - start,
{
    text::lemma_line_end(text, start);
    let end = text::line_end(text, start);
    let line = text.subrange(start, end);
    lemma_line(line, start, levels);
    let here = if markdown::fence(line) {
        Markup::marker(start, end)
    } else if in_fence {
        Markup::span(start, end, Style::CodeBlock)
    } else {
        markdown::line_markup(line, start, levels)
    };
    assert(markers_within(here, start, end));
    if end < text.len() {
        let fenced = in_fence != markdown::fence(line);
        let open_levels = if markdown::fence(line) || in_fence {
            levels
        } else {
            markdown::levels_after(levels, line)
        };
        lemma_line_feeds(text, end + 1, fenced, open_levels);
        let rest = markdown::markup_from(text, end + 1, fenced, open_levels);
        let m = here.then_markup(rest);
        assert forall|k: int, i: int|
            0 <= k < m.markers.len() && (#[trigger] m.markers[k]).start <= i
                < m.markers[k].end implies #[trigger] text[i] != '\n' by {
            if k < here.markers.len() {
                assert(m.markers[k] == here.markers[k]);
            } else {
                assert(m.markers[k] == rest.markers[k - here.markers.len()]);
            }
        }
    }
}

/// Neither rendering nor stripping ever joins two lines: no line feed is
/// syntax, and none is part of a bullet.
pub proof fn line_feeds_are_kept(text: Seq<char>, i: int)
    requires
        0 <= i < text.len(),
        text[i] == '\n',
    ensures
        !markdown::marked(markdown::markup(text).markers, i),
        !markdown::dropped(text, i),
{
    lemma_line_feeds(text, 0, false, seq![]);
    let m = markdown::markup(text);
    if markdown::marked(m.markers, i) {
        let k = choose|k: int|
            0 <= k < m.markers.len() && (#[trigger] m.markers[k]).start <= i < m.markers[k].end;
        assert(text[i] != '\n');
    }
    if markdown::in_bullet(text, i) {
        let start = markdown::line_start(text, i);
        lemma_line_start_bounds(text, i);
        text::lemma_line_end(text, start);
        let end = text::line_end(text, start);
        let line = text.subrange(start, end);
        text::lemma_run_len(line, ' ');
        lemma_item_fits(line.skip(markdown::indent(line)));
        assert(i < end);
    }
}

proof fn lemma_line_start_bounds(text: Seq<char>, i: int)
    requires
        0 <= i <= text.len(),
    ensures
        0 <= markdown::line_start(text, i) <= i,
        forall|k: int| markdown::line_start(text, i) <= k < i ==> text[k] != '\n',
    decreases i,
{
    if i > 0 && text[i - 1] != '\n' {
        lemma_line_start_bounds(text, i - 1);
    }
}

proof fn lemma_item_fits(rest: Seq<char>)
    ensures
        markdown::item(rest) matches Some(len) ==> 2 <= len <= rest.len(),
{
    lemma_digit_run(rest);
}

proof fn lemma_digit_run(s: Seq<char>)
    ensures
        0 <= markdown::digit_run(s) <= s.len(),
    decreases s.len(),
{
    if s.len() > 0 && markdown::ascii_digit(s[0]) {
        lemma_digit_run(s.drop_first());
    }
}

// ---- styles ----

/// A heading has level 1 to 6, and a list item is no deeper than the deepest
/// styled level.
pub open spec fn style_in_bounds(style: Style) -> bool {
    match style {
        Style::Heading(level) => 1 <= level <= 6,
        Style::ListItem(level) => level <= markdown::MAX_LIST_DEPTH,
        _ => true,
    }
}

pub open spec fn styles_in_bounds(m: Markup) -> bool {
    forall|k: int| 0 <= k < m.spans.len() ==> style_in_bounds((#[trigger] m.spans[k]).style)
}

proof fn lemma_join_styles(a: Markup, b: Markup)
    requires
        styles_in_bounds(a),
        styles_in_bounds(b),
    ensures
        styles_in_bounds(a.then_markup(b)),
{
    let m = a.then_markup(b);
    assert forall|k: int| 0 <= k < m.spans.len() implies style_in_bounds(
        (#[trigger] m.spans[k]).style,
    ) by {
        if k < a.spans.len() {
            assert(m.spans[k] == a.spans[k]);
        } else {
            assert(m.spans[k] == b.spans[k - a.spans.len()]);
        }
    }
}

proof fn lemma_inline_styles(line: Seq<char>, i: int, offset: int)
    requires
        0 <= i,
    ensures
        styles_in_bounds(markdown::inline_markup(line, i, offset)),
    decreases line.len() - i,
{
    if i < line.len() {
        match markdown::inline_at(line, i) {
            Some(found) => {
                if i < found.end <= line.len() {
                    lemma_inline_styles(line, found.end, offset);
                    lemma_join_styles(
                        found.markup(i, offset),
                        markdown::inline_markup(line, found.end, offset),
                    );
                }
            },
            None => lemma_inline_styles(line, i + 1, offset),
        }
    }
}

proof fn lemma_text_styles(text: Seq<char>, start: int, in_fence: bool, levels: Seq<int>)
    requires
        0 <= start <= text.len(),
    ensures
        styles_in_bounds(markdown::markup_from(text, start, in_fence, levels)),
    decreases text.len() - start,
{
    text::lemma_line_end(text, start);
    let end = text::line_end(text, start);
    let line = text.subrange(start, end);
    let fenced = in_fence != markdown::fence(line);
    let open_levels = if markdown::fence(line) || in_fence {
        levels
    } else {
        markdown::levels_after(levels, line)
    };
    let here = if markdown::fence(line) {
        Markup::marker(start, end)
    } else if in_fence {
        Markup::span(start, end, Style::CodeBlock)
    } else {
        markdown::line_markup(line, start, levels)
    };
    if !markdown::fence(line) && !in_fence && line.len() > 0 {
        let c = markdown::content_start(line);
        markdown::lemma_content_start(line);
        lemma_inline_styles(line.skip(c), 0, start + c);
        lemma_join_styles(
            markdown::block_markup(line, start, levels),
            markdown::inline_markup(line.skip(c), 0, start + c),
        );
    }
    if end < text.len() {
        lemma_text_styles(text, end + 1, fenced, open_levels);
        lemma_join_styles(here, markdown::markup_from(text, end + 1, fenced, open_levels));
    }
}

/// Styles stay within what the view has a tag for.
pub proof fn styles_stay_in_bounds(text: Seq<char>)
    ensures
        styles_in_bounds(markdown::markup(text)),
{
    lemma_text_styles(text, 0, false, seq![]);
}

// ---- inline syntax does not nest ----

/// Inline content never overlaps other inline content, and never overlaps
/// syntax.
pub open spec fn flat(m: Markup) -> bool {
    &&& forall|j: int, k: int|
        0 <= j < k < m.spans.len() ==> (#[trigger] m.spans[j]).end <= (#[trigger] m.spans[k]).start
    &&& forall|j: int, k: int|
        0 <= j < m.spans.len() && 0 <= k < m.markers.len() ==> (#[trigger] m.spans[j]).end <= (
        #[trigger] m.markers[k]).start || m.markers[k].end <= m.spans[j].start
}

/// There is no nested emphasis: within one line's content, what is styled and
/// what is hidden are disjoint, and nothing is styled twice. In particular
/// nothing inside a code span is formatting.
pub proof fn inline_syntax_never_nests(line: Seq<char>, i: int, offset: int)
    requires
        0 <= i <= line.len(),
    ensures
        flat(markdown::inline_markup(line, i, offset)),
    decreases line.len() - i,
{
    if i < line.len() {
        markdown::lemma_inline_bounds(line, i);
        match markdown::inline_at(line, i) {
            Some(found) => {
                inline_syntax_never_nests(line, found.end, offset);
                lemma_inline(line, found.end, offset);
                let a = found.markup(i, offset);
                let b = markdown::inline_markup(line, found.end, offset);
                let m = a.then_markup(b);
                assert(flat(a));
                assert(markers_within(a, offset + i, offset + found.end));
                assert(spans_within(a, offset + i, offset + found.end));
                assert forall|j: int, k: int| 0 <= j < k < m.spans.len() implies (
                #[trigger] m.spans[j]).end <= (#[trigger] m.spans[k]).start by {
                    if k < a.spans.len() {
                        assert(m.spans[j] == a.spans[j] && m.spans[k] == a.spans[k]);
                    } else {
                        assert(m.spans[k] == b.spans[k - a.spans.len()]);
                        if j < a.spans.len() {
                            assert(m.spans[j] == a.spans[j]);
                        } else {
                            assert(m.spans[j] == b.spans[j - a.spans.len()]);
                        }
                    }
                }
                assert forall|j: int, k: int|
                    0 <= j < m.spans.len() && 0 <= k < m.markers.len() implies (
                #[trigger] m.spans[j]).end <= (#[trigger] m.markers[k]).start || m.markers[k].end
                    <= m.spans[j].start by {
                    if j < a.spans.len() {
                        assert(m.spans[j] == a.spans[j]);
                    } else {
                        assert(m.spans[j] == b.spans[j - a.spans.len()]);
                    }
                    if k < a.markers.len() {
                        assert(m.markers[k] == a.markers[k]);
                    } else {
                        assert(m.markers[k] == b.markers[k - a.markers.len()]);
                    }
                }
            },
            None => inline_syntax_never_nests(line, i + 1, offset),
        }
    }
}

// ---- what stays visible ----

/// Bullets stay visible: hiding them would leave an unexplained indent. Of an
/// item, the indent is hidden but no part of the bullet or number.
pub proof fn bullets_stay_visible(line: Seq<char>, offset: int, levels: Seq<int>, i: int)
    requires
        markdown::block(line) is Item,
        markdown::indent(line) <= i < markdown::content_start(line),
    ensures
        !markdown::marked(markdown::line_markup(line, offset, levels).markers, offset + i),
{
    if line.len() > 0 {
        text::lemma_run_len(line, ' ');
        markdown::lemma_content_start(line);
        let c = markdown::content_start(line);
        let block = markdown::block_markup(line, offset, levels);
        let inline = markdown::inline_markup(line.skip(c), 0, offset + c);
        lemma_inline(line.skip(c), 0, offset + c);
        let m = markdown::line_markup(line, offset, levels);
        if markdown::marked(m.markers, offset + i) {
            let k = choose|k: int|
                0 <= k < m.markers.len() && (#[trigger] m.markers[k]).start <= offset + i
                    < m.markers[k].end;
            if k < block.markers.len() {
                assert(m.markers[k] == block.markers[k]);
            } else {
                assert(m.markers[k] == inline.markers[k - block.markers.len()]);
            }
        }
    }
}

/// Inside a fence nothing is syntax but the fences: a line there is shown as it
/// is, also when the fence is never closed.
pub proof fn fenced_lines_are_shown_as_they_are(
    text: Seq<char>,
    start: int,
    levels: Seq<int>,
    i: int,
)
    requires
        0 <= start <= i < text::line_end(text, start) <= text.len(),
        !markdown::fence(text.subrange(start, text::line_end(text, start))),
    ensures
        !markdown::marked(markdown::markup_from(text, start, true, levels).markers, i),
{
    let end = text::line_end(text, start);
    let m = markdown::markup_from(text, start, true, levels);
    let here = Markup::span(start, end, Style::CodeBlock);
    if end < text.len() {
        lemma_text(text, end + 1, true, levels);
        let rest = markdown::markup_from(text, end + 1, true, levels);
        assert(m == here.then_markup(rest));
        if markdown::marked(m.markers, i) {
            let k = choose|k: int|
                0 <= k < m.markers.len() && (#[trigger] m.markers[k]).start <= i
                    < m.markers[k].end;
            assert(m.markers[k] == rest.markers[k]);
        }
    } else {
        assert(m == here);
    }
}

// ---- list nesting ----

/// Each open level is deeper than the one around it.
pub open spec fn levels_deepen(levels: Seq<int>) -> bool {
    forall|j: int, k: int| 0 <= j < k < levels.len() ==> #[trigger] levels[j] < #[trigger] levels[k]
}

/// An item keeps the open levels in order, and a list nests one level at a
/// time: an item is at most one level deeper than the item before it.
pub proof fn nesting_goes_one_level_at_a_time(levels: Seq<int>, line: Seq<char>)
    requires
        levels_deepen(levels),
    ensures
        levels_deepen(markdown::levels_after(levels, line)),
        markdown::levels_after(levels, line).len() <= levels.len() + 1,
        markdown::block(line) is Item && line.len() > 0 ==> {
            let after = markdown::levels_after(levels, line);
            after.len() > 0 && after.last() == markdown::indent(line)
        },
{
    lemma_levels_within(levels, markdown::indent(line));
}

proof fn lemma_levels_within(levels: Seq<int>, width: int)
    requires
        levels_deepen(levels),
    ensures
        levels_deepen(markdown::levels_within(levels, width)),
        markdown::levels_within(levels, width).len() <= levels.len(),
        markdown::levels_within(levels, width).len() > 0 ==> markdown::levels_within(
            levels,
            width,
        ).last() <= width,
    decreases levels.len(),
{
    if levels.len() > 0 && levels.last() > width {
        lemma_levels_within(levels.drop_last(), width);
    }
}

// ---- plain text ----

/// Can `c` begin or end any Markdown syntax?
pub open spec fn syntax_char(c: char) -> bool {
    c == '`' || c == '[' || c == '*' || c == '_' || c == '~' || c == '#' || c == '>' || c == '-'
        || c == '+' || c == '.' || c == ')'
}

/// A text with no syntax character in it.
pub open spec fn plain(text: Seq<char>) -> bool {
    forall|i: int| 0 <= i < text.len() ==> !syntax_char(#[trigger] text[i])
}

proof fn lemma_plain_has_no(s: Seq<char>, at: int, needle: Seq<char>)
    requires
        plain(s),
        needle.len() > 0,
        syntax_char(needle[0]),
    ensures
        !text::occurs_at(s, at, needle),
{
    if text::occurs_at(s, at, needle) {
        assert(s.subrange(at, at + needle.len())[0] == s[at]);
    }
}

proof fn lemma_plain_inline(line: Seq<char>, i: int, offset: int)
    requires
        plain(line),
        0 <= i,
    ensures
        markdown::inline_markup(line, i, offset) == Markup::none(),
    decreases line.len() - i,
{
    if i < line.len() {
        lemma_plain_has_no(line, i, seq!['`']);
        lemma_plain_has_no(line, i, seq!['[']);
        lemma_plain_has_no(line, i, seq!['*', '*']);
        lemma_plain_has_no(line, i, seq!['_', '_']);
        lemma_plain_has_no(line, i, seq!['~', '~']);
        lemma_plain_has_no(line, i, seq!['*']);
        lemma_plain_has_no(line, i, seq!['_']);
        lemma_plain_inline(line, i + 1, offset);
    }
}

proof fn lemma_plain_line(line: Seq<char>)
    requires
        plain(line),
    ensures
        !markdown::fence(line),
        markdown::item(line.skip(markdown::indent(line))) is None,
        forall|offset: int, levels: Seq<int>|
            #[trigger] markdown::line_markup(line, offset, levels) == Markup::none(),
{
    text::lemma_run_len(line, ' ');
    let rest = line.skip(markdown::indent(line));
    assert forall|i: int| 0 <= i < rest.len() implies !syntax_char(#[trigger] rest[i]) by {
        assert(rest[i] == line[markdown::indent(line) + i]);
    }
    text::lemma_run_len(rest, '#');
    lemma_digit_run(rest);
    lemma_plain_has_no(rest, 0, seq!['`', '`', '`']);
    lemma_plain_has_no(rest, 0, seq!['~', '~', '~']);
    lemma_plain_has_no(rest, 0, seq!['>', ' ']);
    lemma_plain_has_no(rest, 0, seq!['>']);
    lemma_plain_has_no(rest, markdown::digit_run(rest), seq!['.', ' ']);
    lemma_plain_has_no(rest, markdown::digit_run(rest), seq![')', ' ']);
    if text::run_len(rest, '#') > 0 {
        assert(rest[0] == '#');
    }
    assert forall|offset: int, levels: Seq<int>|
        #[trigger] markdown::line_markup(line, offset, levels) == Markup::none() by {
        lemma_plain_inline(rest, 0, offset + markdown::indent(line));
        assert(markdown::line_markup(line, offset, levels) =~= Markup::none());
    }
}

proof fn lemma_plain_text(text: Seq<char>, start: int, levels: Seq<int>)
    requires
        plain(text),
        0 <= start <= text.len(),
    ensures
        markdown::markup_from(text, start, false, levels) == Markup::none(),
    decreases text.len() - start,
{
    text::lemma_line_end(text, start);
    let end = text::line_end(text, start);
    let line = text.subrange(start, end);
    lemma_plain_line(line);
    assert(markdown::line_markup(line, start, levels) == Markup::none());
    if end < text.len() {
        lemma_plain_text(text, end + 1, markdown::levels_after(levels, line));
        assert(Markup::none().then_markup(Markup::none()) =~= Markup::none());
    }
}

/// Plain text is left alone: nothing is styled, nothing is hidden, and
/// stripping gives it back unchanged.
pub proof fn plain_text_is_left_alone(text: Seq<char>)
    requires
        plain(text),
    ensures
        markdown::markup(text) == Markup::none(),
        markdown::stripped(text) == text,
{
    lemma_plain_text(text, 0, seq![]);
    assert forall|i: int| 0 <= i < text.len() implies !#[trigger] markdown::dropped(text, i) by {
        let start = markdown::line_start(text, i);
        lemma_line_start_bounds(text, i);
        text::lemma_line_end(text, start);
        lemma_plain_line(text.subrange(start, text::line_end(text, start)));
    }
    nothing_dropped_keeps_the_text(text);
}

/// A text from which nothing is dropped is its own stripped text.
pub proof fn nothing_dropped_keeps_the_text(text: Seq<char>)
    requires
        forall|i: int| 0 <= i < text.len() ==> !#[trigger] markdown::dropped(text, i),
    ensures
        markdown::stripped(text) == text,
{
    lemma_keeps_prefix(text, text.len() as int);
    assert(text.take(text.len() as int) =~= text);
}

proof fn lemma_keeps_prefix(text: Seq<char>, n: int)
    requires
        0 <= n <= text.len(),
        forall|i: int| 0 <= i < text.len() ==> !#[trigger] markdown::dropped(text, i),
    ensures
        markdown::stripped_prefix(text, n) == text.take(n),
    decreases n,
{
    if n > 0 {
        lemma_keeps_prefix(text, n - 1);
        assert(!markdown::dropped(text, n - 1));
        assert(text.take(n - 1).push(text[n - 1]) =~= text.take(n));
    } else {
        assert(text.take(0) =~= seq![]);
    }
}

} // verus!
