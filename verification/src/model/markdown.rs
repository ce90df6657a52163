//! A small Markdown scanner for live preview.
//!
//! Notes show formatted text while they are not being edited and show their
//! markup while they are. The same text stays in the view throughout; only the
//! visibility of the syntax characters changes. So besides *what* is styled,
//! the scanner reports exactly which characters are syntax.
//!
//! Every offset counts **characters**, because that is what a text buffer
//! takes. The language is a subset: no reference links, no nested emphasis, no
//! tables, no setext headings. Anything unrecognised is plain text.

use crate::model::markdown_laws as laws;
use crate::text;
use vstd::prelude::*;
use vstd::slice::slice_subrange;

verus! {

/// Deepest nesting level with its own indent.
pub const MAX_LIST_DEPTH: u8 = 4;

/// A styled region of the note.
#[derive(Debug, Clone, Copy, PartialEq, Eq, Structural)]
pub enum Style {
    /// `# ` to `###### `, level 1 to 6.
    Heading(u8),
    Bold,
    Italic,
    Strikethrough,
    /// `` `inline` ``
    Code,
    /// A line inside a fence.
    CodeBlock,
    /// `> quoted`
    Quote,
    /// The content of a `- ` or `1. ` item. The level is the nesting depth, 0
    /// for a top-level item.
    ListItem(u8),
    /// The visible text of `[text](url)`.
    Link,
}

/// A run of characters to style.
#[derive(Debug, Clone, Copy, PartialEq, Eq, Structural)]
pub struct Span {
    /// Offset of the first character.
    pub start: usize,
    /// Offset just past the last character.
    pub end: usize,
    pub style: Style,
}

/// A run of characters that is syntax rather than content.
#[derive(Debug, Clone, Copy, PartialEq, Eq, Structural)]
pub struct Marker {
    pub start: usize,
    pub end: usize,
}

/// What the scanner found in a note.
#[derive(Debug, Clone, PartialEq, Eq)]
pub struct Parsed {
    pub spans: Vec<Span>,
    pub markers: Vec<Marker>,
}

/// A styled run, as a mathematical value.
pub struct StyledRun {
    pub start: int,
    pub end: int,
    pub style: Style,
}

/// A syntax run, as a mathematical value.
pub struct SyntaxRun {
    pub start: int,
    pub end: int,
}

/// The spans and markers of a text, in the order they are found.
#[verifier::ext_equal]
pub struct Markup {
    pub spans: Seq<StyledRun>,
    pub markers: Seq<SyntaxRun>,
}

impl Span {
    pub open spec fn run(self) -> StyledRun {
        StyledRun { start: self.start as int, end: self.end as int, style: self.style }
    }
}

impl Marker {
    pub open spec fn run(self) -> SyntaxRun {
        SyntaxRun { start: self.start as int, end: self.end as int }
    }
}

impl View for Parsed {
    type V = Markup;

    open spec fn view(&self) -> Markup {
        Markup {
            spans: self.spans@.map_values(|s: Span| s.run()),
            markers: self.markers@.map_values(|m: Marker| m.run()),
        }
    }
}

impl Markup {
    pub open spec fn none() -> Markup {
        Markup { spans: seq![], markers: seq![] }
    }

    /// One span, unless it would be empty.
    pub open spec fn span(start: int, end: int, style: Style) -> Markup {
        if end > start {
            Markup { spans: seq![StyledRun { start, end, style }], markers: seq![] }
        } else {
            Markup::none()
        }
    }

    /// One marker, unless it would be empty.
    pub open spec fn marker(start: int, end: int) -> Markup {
        if end > start {
            Markup { spans: seq![], markers: seq![SyntaxRun { start, end }] }
        } else {
            Markup::none()
        }
    }

    /// What `self` holds and then what `other` holds.
    pub open spec fn then_markup(self, other: Markup) -> Markup {
        Markup { spans: self.spans + other.spans, markers: self.markers + other.markers }
    }
}

// ---- inline syntax ----

/// A piece of inline syntax: an opening run of markup, the content, a closing
/// run of markup.
pub struct Inline {
    pub content_start: int,
    pub content_end: int,
    pub end: int,
    pub style: Style,
}

/// The first place at or after `from` where `needle` stands.
pub open spec fn find_from(s: Seq<char>, from: int, needle: Seq<char>) -> Option<int>
    decreases s.len() - from,
{
    if from >= s.len() || from + needle.len() > s.len() {
        None
    } else if text::occurs_at(s, from, needle) {
        Some(from)
    } else {
        find_from(s, from + 1, needle)
    }
}

/// `` `code` `` at `i`: a backquote and the next one after it.
pub open spec fn code_at(line: Seq<char>, i: int) -> Option<Inline> {
    if text::occurs_at(line, i, seq!['`']) {
        match find_from(line, i + 1, seq!['`']) {
            Some(close) => Some(
                Inline { content_start: i + 1, content_end: close, end: close + 1, style: Style::Code },
            ),
            None => None,
        }
    } else {
        None
    }
}

/// `[label](target)` at `i`, with a label that is not empty.
pub open spec fn link_at(line: Seq<char>, i: int) -> Option<Inline> {
    if text::occurs_at(line, i, seq!['[']) {
        match find_from(line, i + 1, seq![']']) {
            Some(label_end) => if label_end > i + 1 && text::occurs_at(line, label_end + 1, seq!['(']) {
                match find_from(line, label_end + 2, seq![')']) {
                    Some(close) => Some(
                        Inline {
                            content_start: i + 1,
                            content_end: label_end,
                            end: close + 1,
                            style: Style::Link,
                        },
                    ),
                    None => None,
                }
            } else {
                None
            },
            None => None,
        }
    } else {
        None
    }
}

/// Content between two `delimiter`s at `i`. The content is not empty, and both
/// delimiters hug it: no white space just inside either.
pub open spec fn delimited_at(line: Seq<char>, i: int, delimiter: Seq<char>, style: Style) -> Option<
    Inline,
> {
    let start = i + delimiter.len();
    if text::occurs_at(line, i, delimiter) {
        match find_from(line, start, delimiter) {
            Some(close) => if close > start && !text::white_space(line[start]) && !text::white_space(
                line[close - 1],
            ) {
                Some(
                    Inline {
                        content_start: start,
                        content_end: close,
                        end: close + delimiter.len(),
                        style,
                    },
                )
            } else {
                None
            },
            None => None,
        }
    } else {
        None
    }
}

pub open spec fn first_of(a: Option<Inline>, b: Option<Inline>) -> Option<Inline> {
    if a is Some {
        a
    } else {
        b
    }
}

/// Bold, strikethrough or italic at `i`, two-character delimiters first.
pub open spec fn emphasis_at(line: Seq<char>, i: int) -> Option<Inline> {
    first_of(
        delimited_at(line, i, seq!['*', '*'], Style::Bold),
        first_of(
            delimited_at(line, i, seq!['_', '_'], Style::Bold),
            first_of(
                delimited_at(line, i, seq!['~', '~'], Style::Strikethrough),
                first_of(
                    delimited_at(line, i, seq!['*'], Style::Italic),
                    delimited_at(line, i, seq!['_'], Style::Italic),
                ),
            ),
        ),
    )
}

/// The inline syntax that starts at `i`, if any. Code wins over everything,
/// then links, then emphasis.
pub open spec fn inline_at(line: Seq<char>, i: int) -> Option<Inline> {
    first_of(code_at(line, i), first_of(link_at(line, i), emphasis_at(line, i)))
}

impl Inline {
    /// The markup of a piece of inline syntax that starts at `i` of a line
    /// whose first character has offset `offset`.
    pub open spec fn markup(self, i: int, offset: int) -> Markup {
        Markup::marker(offset + i, offset + self.content_start).then_markup(
            Markup::span(offset + self.content_start, offset + self.content_end, self.style),
        ).then_markup(Markup::marker(offset + self.content_end, offset + self.end))
    }
}

/// The inline markup of `line` from `i` on, read from left to right.
pub open spec fn inline_markup(line: Seq<char>, i: int, offset: int) -> Markup
    decreases line.len() - i,
{
    if i >= line.len() {
        Markup::none()
    } else {
        match inline_at(line, i) {
            Some(found) => if i < found.end <= line.len() {
                found.markup(i, offset).then_markup(inline_markup(line, found.end, offset))
            } else {
                Markup::none()
            },
            None => inline_markup(line, i + 1, offset),
        }
    }
}

// ---- lines ----

/// The block a line belongs to.
pub enum Block {
    Heading(int),
    /// Quoted, with the length of the marker.
    Quote(int),
    /// A list item, with the length of its bullet or number.
    Item(int),
    Paragraph,
}

/// A fence opens or closes a code block: three backquotes or three tildes
/// after any number of spaces.
pub open spec fn fence(line: Seq<char>) -> bool {
    let rest = line.skip(text::run_len(line, ' '));
    text::occurs_at(rest, 0, seq!['`', '`', '`']) || text::occurs_at(rest, 0, seq!['~', '~', '~'])
}

/// One to six `#` and a space.
pub open spec fn heading(rest: Seq<char>) -> Option<int> {
    let hashes = text::run_len(rest, '#');
    if 1 <= hashes <= 6 && text::occurs_at(rest, hashes, seq![' ']) {
        Some(hashes)
    } else {
        None
    }
}

/// The length of `- `, `* ` or `+ `.
pub open spec fn bullet(rest: Seq<char>) -> Option<int> {
    if rest.len() >= 2 && (rest[0] == '-' || rest[0] == '*' || rest[0] == '+') && rest[1] == ' ' {
        Some(2)
    } else {
        None
    }
}

pub open spec fn ascii_digit(c: char) -> bool {
    '0' <= c <= '9'
}

/// How many ASCII digits stand at the front of `s`.
pub open spec fn digit_run(s: Seq<char>) -> int
    decreases s.len(),
{
    if s.len() > 0 && ascii_digit(s[0]) {
        1 + digit_run(s.drop_first())
    } else {
        0
    }
}

/// The length of `1. ` or `12) `.
pub open spec fn ordered(rest: Seq<char>) -> Option<int> {
    let digits = digit_run(rest);
    if digits > 0 && (text::occurs_at(rest, digits, seq!['.', ' ']) || text::occurs_at(
        rest,
        digits,
        seq![')', ' '],
    )) {
        Some(digits + 2)
    } else {
        None
    }
}

/// The length of whatever makes `rest` a list item.
pub open spec fn item(rest: Seq<char>) -> Option<int> {
    if bullet(rest) is Some {
        bullet(rest)
    } else {
        ordered(rest)
    }
}

pub open spec fn indent(line: Seq<char>) -> int {
    text::run_len(line, ' ')
}

/// Which block a line outside a fence belongs to.
pub open spec fn block(line: Seq<char>) -> Block {
    let rest = line.skip(indent(line));
    if let Some(level) = heading(rest) {
        Block::Heading(level)
    } else if text::occurs_at(rest, 0, seq!['>', ' ']) {
        Block::Quote(2)
    } else if text::occurs_at(rest, 0, seq!['>']) {
        Block::Quote(1)
    } else if let Some(len) = item(rest) {
        Block::Item(len)
    } else {
        Block::Paragraph
    }
}

/// Where the content of a line starts, past its block prefix.
pub open spec fn content_start(line: Seq<char>) -> int {
    indent(line) + match block(line) {
        Block::Heading(level) => level + 1,
        Block::Quote(len) => len,
        Block::Item(len) => len,
        Block::Paragraph => 0,
    }
}

/// The indents of the list levels that stay open when an item at `width`
/// comes: those that are no deeper.
pub open spec fn levels_within(levels: Seq<int>, width: int) -> Seq<int>
    decreases levels.len(),
{
    if levels.len() > 0 && levels.last() > width {
        levels_within(levels.drop_last(), width)
    } else {
        levels
    }
}

/// The indents of the open list levels, outermost first, once an item at
/// `width` has been added.
pub open spec fn levels_with(levels: Seq<int>, width: int) -> Seq<int> {
    let outer = levels_within(levels, width);
    if outer.len() > 0 && outer.last() == width {
        outer
    } else {
        outer.push(width)
    }
}

/// The open list levels after `line`. An item opens or reopens a level. A blank
/// line or an indented one leaves the list alone; anything else at the left
/// edge ends it.
pub open spec fn levels_after(levels: Seq<int>, line: Seq<char>) -> Seq<int> {
    if line.len() == 0 {
        levels
    } else if block(line) is Item {
        levels_with(levels, indent(line))
    } else if indent(line) == 0 {
        seq![]
    } else {
        levels
    }
}

/// The styled depth of the innermost open level.
pub open spec fn styled_depth(levels: Seq<int>) -> u8 {
    if levels.len() - 1 < MAX_LIST_DEPTH {
        (levels.len() - 1) as u8
    } else {
        MAX_LIST_DEPTH
    }
}

/// The markup of a line's block prefix and of the block itself. A bullet is
/// not syntax: it stays visible, but the spaces before it are hidden.
pub open spec fn block_markup(line: Seq<char>, offset: int, levels: Seq<int>) -> Markup {
    let body = offset + content_start(line);
    let end = offset + line.len();
    match block(line) {
        Block::Heading(level) => Markup::marker(offset + indent(line), body).then_markup(
            Markup::span(body, end, Style::Heading(level as u8)),
        ),
        Block::Quote(_) => Markup::marker(offset + indent(line), body).then_markup(
            Markup::span(body, end, Style::Quote),
        ),
        Block::Item(_) => Markup::marker(offset, offset + indent(line)).then_markup(
            Markup::span(
                body,
                end,
                Style::ListItem(styled_depth(levels_with(levels, indent(line)))),
            ),
        ),
        Block::Paragraph => Markup::none(),
    }
}

/// The markup of a line outside a fence.
pub open spec fn line_markup(line: Seq<char>, offset: int, levels: Seq<int>) -> Markup {
    if line.len() == 0 {
        Markup::none()
    } else {
        block_markup(line, offset, levels).then_markup(
            inline_markup(line.skip(content_start(line)), 0, offset + content_start(line)),
        )
    }
}

// ---- the whole text ----

/// The markup of `text` from the line that starts at `start` on.
pub open spec fn markup_from(text: Seq<char>, start: int, in_fence: bool, levels: Seq<int>) -> Markup
    decreases text.len() - start,
{
    let end = text::line_end(text, start);
    let line = text.subrange(start, end);
    let here = if fence(line) {
        Markup::marker(start, end)
    } else if in_fence {
        Markup::span(start, end, Style::CodeBlock)
    } else {
        line_markup(line, start, levels)
    };
    let fenced = in_fence != fence(line);
    let open_levels = if fence(line) || in_fence {
        levels
    } else {
        levels_after(levels, line)
    };
    if start <= end < text.len() {
        here.then_markup(markup_from(text, end + 1, fenced, open_levels))
    } else {
        here
    }
}

/// The markup of `text`.
pub open spec fn markup(text: Seq<char>) -> Markup {
    markup_from(text, 0, false, seq![])
}

// ---- stripped text ----

/// Where the line that holds position `i` starts.
pub open spec fn line_start(text: Seq<char>, i: int) -> int
    decreases i,
{
    if i <= 0 || text[i - 1] == '\n' {
        i
    } else {
        line_start(text, i - 1)
    }
}

/// Is position `i` inside one of `markers`?
pub open spec fn marked(markers: Seq<SyntaxRun>, i: int) -> bool {
    exists|k: int| 0 <= k < markers.len() && (#[trigger] markers[k]).start <= i < markers[k].end
}

/// Is position `i` inside the bullet or the number that its line begins with?
pub open spec fn in_bullet(text: Seq<char>, i: int) -> bool {
    let start = line_start(text, i);
    let line = text.subrange(start, text::line_end(text, start));
    match item(line.skip(indent(line))) {
        Some(len) => start + indent(line) <= i < start + indent(line) + len,
        None => false,
    }
}

/// Is the character at `i` left out when the note is named rather than shown?
pub open spec fn dropped(text: Seq<char>, i: int) -> bool {
    marked(markup(text).markers, i) || in_bullet(text, i)
}

/// The first `n` characters of `text`, without those that are dropped.
pub open spec fn stripped_prefix(text: Seq<char>, n: int) -> Seq<char>
    decreases n,
{
    if n <= 0 {
        seq![]
    } else if dropped(text, n - 1) {
        stripped_prefix(text, n - 1)
    } else {
        stripped_prefix(text, n - 1).push(text[n - 1])
    }
}

/// `text` with its Markdown syntax and its bullets removed.
pub open spec fn stripped(text: Seq<char>) -> Seq<char> {
    stripped_prefix(text, text.len() as int)
}

// ---- the scanner ----

impl Parsed {
    /// Nothing styled, nothing hidden.
    pub fn new() -> (r: Parsed)
        ensures
            r@ == Markup::none(),
    {
        let r = Parsed { spans: Vec::new(), markers: Vec::new() };
        assert(r@ =~= Markup::none());
        r
    }

    fn push_span(&mut self, start: usize, end: usize, style: Style)
        ensures
            final(self)@ == old(self)@.then_markup(Markup::span(start as int, end as int, style)),
    {
        if end > start {
            self.spans.push(Span { start, end, style });
        }
        assert(self@ =~= old(self)@.then_markup(Markup::span(start as int, end as int, style)));
    }

    fn push_marker(&mut self, start: usize, end: usize)
        ensures
            final(self)@ == old(self)@.then_markup(Markup::marker(start as int, end as int)),
    {
        if end > start {
            self.markers.push(Marker { start, end });
        }
        assert(self@ =~= old(self)@.then_markup(Markup::marker(start as int, end as int)));
    }
}

impl Default for Parsed {
    fn default() -> (r: Parsed)
        ensures
            r@ == Markup::none(),
    {
        Parsed::new()
    }
}

/// Does `needle` stand in `line` at `at`?
fn starts_with(line: &[char], at: usize, needle: &[char]) -> (r: bool)
    ensures
        r == text::occurs_at(line@, at as int, needle@),
{
    let n: usize = needle.len();
    if at > line.len() || n > line.len() - at {
        return false;
    }
    let mut i: usize = 0;
    while i < n
        invariant
            n == needle@.len(),
            at + n <= line@.len() <= usize::MAX,
            i <= n,
            forall|j: int| 0 <= j < i ==> line@[at + j] == needle@[j],
        decreases n - i,
    {
        if line[at + i] != needle[i] {
            assert(line@.subrange(at as int, at + n)[i as int] != needle@[i as int]);
            return false;
        }
        i += 1;
    }
    assert(line@.subrange(at as int, at + n) =~= needle@);
    true
}

/// Index of the next occurrence of `needle` at or after `from`.
fn find(line: &[char], from: usize, needle: &[char]) -> (r: Option<usize>)
    requires
        needle@.len() > 0,
    ensures
        match r {
            Some(i) => find_from(line@, from as int, needle@) == Some(i as int),
            None => find_from(line@, from as int, needle@) is None,
        },
{
    let mut i: usize = from;
    while i < line.len() && needle.len() <= line.len() - i
        invariant
            needle@.len() > 0,
            find_from(line@, from as int, needle@) == find_from(line@, i as int, needle@),
        decreases line@.len() - i,
    {
        if starts_with(line, i, needle) {
            return Some(i);
        }
        i += 1;
    }
    None
}

/// What a search found lies at or after its start, holds the needle, and is the
/// first such place.
proof fn lemma_find_from(s: Seq<char>, from: int, needle: Seq<char>)
    requires
        0 <= from,
    ensures
        match find_from(s, from, needle) {
            Some(i) => from <= i && text::occurs_at(s, i, needle),
            None => true,
        },
    decreases s.len() - from,
{
    if from < s.len() && from + needle.len() <= s.len() && !text::occurs_at(s, from, needle) {
        lemma_find_from(s, from + 1, needle);
    }
}

/// A piece of inline syntax lies inside its line, in order, and moves on.
pub proof fn lemma_inline_bounds(line: Seq<char>, i: int)
    requires
        0 <= i,
    ensures
        match inline_at(line, i) {
            Some(found) => {
                &&& i < found.content_start <= found.content_end < found.end <= line.len()
            },
            None => true,
        },
{
    lemma_find_from(line, i + 1, seq!['`']);
    lemma_find_from(line, i + 1, seq![']']);
    if let Some(label_end) = find_from(line, i + 1, seq![']']) {
        lemma_find_from(line, label_end + 2, seq![')']);
    }
    lemma_find_from(line, i + 2, seq!['*', '*']);
    lemma_find_from(line, i + 2, seq!['_', '_']);
    lemma_find_from(line, i + 2, seq!['~', '~']);
    lemma_find_from(line, i + 1, seq!['*']);
    lemma_find_from(line, i + 1, seq!['_']);
}

/// How many `c` stand at the front of `line`.
fn count_front(line: &[char], c: char) -> (r: usize)
    ensures
        r == text::run_len(line@, c),
{
    let mut i: usize = 0;
    assert(line@.skip(0) =~= line@);
    while i < line.len() && line[i] == c
        invariant
            i <= line@.len(),
            text::run_len(line@, c) == i + text::run_len(line@.skip(i as int), c),
        decreases line@.len() - i,
    {
        assert(line@.skip(i as int).drop_first() =~= line@.skip(i + 1));
        i += 1;
    }
    i
}

/// How many ASCII digits stand at the front of `line`.
fn count_digits(line: &[char]) -> (r: usize)
    ensures
        r == digit_run(line@),
{
    let mut i: usize = 0;
    assert(line@.skip(0) =~= line@);
    while i < line.len() && '0' <= line[i] && line[i] <= '9'
        invariant
            i <= line@.len(),
            digit_run(line@) == i + digit_run(line@.skip(i as int)),
        decreases line@.len() - i,
    {
        assert(line@.skip(i as int).drop_first() =~= line@.skip(i + 1));
        i += 1;
    }
    i
}

/// `` ``` `` or `~~~`, optionally with a language after it.
fn is_fence(line: &[char]) -> (r: bool)
    ensures
        r == fence(line@),
{
    let spaces: usize = count_front(line, ' ');
    proof {
        text::lemma_run_len(line@, ' ');
    }
    let rest = slice_subrange(line, spaces, line.len());
    assert(rest@ =~= line@.skip(spaces as int));
    starts_with(rest, 0, &['`', '`', '`']) || starts_with(rest, 0, &['~', '~', '~'])
}

/// `#` to `######` followed by a space.
fn heading_level(line: &[char]) -> (r: Option<u8>)
    ensures
        match r {
            Some(level) => heading(line@) == Some(level as int),
            None => heading(line@) is None,
        },
{
    let hashes: usize = count_front(line, '#');
    let space: &[char] = &[' '];
    assert(space@ =~= seq![' ']);
    if 1 <= hashes && hashes <= 6 && starts_with(line, hashes, space) {
        Some(hashes as u8)
    } else {
        None
    }
}

/// `- `, `* ` or `+ `. Not `*emphasis*`, which has no space.
fn bullet_len(line: &[char]) -> (r: Option<usize>)
    ensures
        match r {
            Some(len) => bullet(line@) == Some(len as int),
            None => bullet(line@) is None,
        },
{
    if line.len() >= 2 && (line[0] == '-' || line[0] == '*' || line[0] == '+') && line[1] == ' ' {
        Some(2)
    } else {
        None
    }
}

/// `1. ` or `12) `.
fn ordered_len(line: &[char]) -> (r: Option<usize>)
    ensures
        match r {
            Some(len) => ordered(line@) == Some(len as int),
            None => ordered(line@) is None,
        },
{
    let digits: usize = count_digits(line);
    let dot: &[char] = &['.', ' '];
    let paren: &[char] = &[')', ' '];
    assert(dot@ =~= seq!['.', ' ']);
    assert(paren@ =~= seq![')', ' ']);
    if digits > 0 && digits <= line.len() && (starts_with(line, digits, dot) || starts_with(
        line,
        digits,
        paren,
    )) {
        Some(digits + 2)
    } else {
        None
    }
}

/// Emphasis, code spans and links within a single line's content.
fn parse_inline(line: &[char], offset: usize, parsed: &mut Parsed)
    requires
        offset + line@.len() <= usize::MAX,
    ensures
        final(parsed)@ == old(parsed)@.then_markup(inline_markup(line@, 0, offset as int)),
{
    let mut i: usize = 0;
    while i < line.len()
        invariant
            i <= line@.len(),
            offset + line@.len() <= usize::MAX,
            old(parsed)@.then_markup(inline_markup(line@, 0, offset as int)) == parsed@.then_markup(
                inline_markup(line@, i as int, offset as int),
            ),
        decreases line@.len() - i,
    {
        let ghost before = parsed@;
        proof {
            lemma_inline_bounds(line@, i as int);
        }
        if let Some(next) = try_code(line, i, offset, parsed) {
            proof {
                lemma_then_assoc(
                    before,
                    inline_at(line@, i as int)->0.markup(i as int, offset as int),
                    inline_markup(line@, next as int, offset as int),
                );
            }
            i = next;
        } else if let Some(next) = try_link(line, i, offset, parsed) {
            proof {
                lemma_then_assoc(
                    before,
                    inline_at(line@, i as int)->0.markup(i as int, offset as int),
                    inline_markup(line@, next as int, offset as int),
                );
            }
            i = next;
        } else if let Some(next) = try_emphasis(line, i, offset, parsed) {
            proof {
                lemma_then_assoc(
                    before,
                    inline_at(line@, i as int)->0.markup(i as int, offset as int),
                    inline_markup(line@, next as int, offset as int),
                );
            }
            i = next;
        } else {
            i += 1;
        }
    }
    assert(parsed@.then_markup(Markup::none()) =~= parsed@);
}

/// What a `try_*` step did: it recorded `found` and says where to go on, or it
/// found nothing and left `before` as it was.
spec fn recorded(
    found: Option<Inline>,
    before: Markup,
    after: Markup,
    next: Option<usize>,
    i: int,
    offset: int,
) -> bool {
    match next {
        Some(end) => found matches Some(inline) && inline.end == end && after
            == before.then_markup(inline.markup(i, offset)),
        None => found is None && after == before,
    }
}

/// Record a piece of inline syntax as markup.
fn record(
    parsed: &mut Parsed,
    i: usize,
    offset: usize,
    content_start: usize,
    content_end: usize,
    end: usize,
    style: Style,
)
    requires
        i <= content_start <= content_end <= end,
        offset + end <= usize::MAX,
    ensures
        final(parsed)@ == old(parsed)@.then_markup(
            (Inline {
                content_start: content_start as int,
                content_end: content_end as int,
                end: end as int,
                style,
            }).markup(i as int, offset as int),
        ),
{
    parsed.push_marker(offset + i, offset + content_start);
    parsed.push_span(offset + content_start, offset + content_end, style);
    parsed.push_marker(offset + content_end, offset + end);
    proof {
        let a = Markup::marker(offset + i, offset + content_start);
        let b = Markup::span(offset + content_start, offset + content_end, style);
        let c = Markup::marker(offset + content_end, offset + end);
        lemma_then_assoc(old(parsed)@, a, b);
        lemma_then_assoc(old(parsed)@, a.then_markup(b), c);
    }
}

/// `` `code` `` wins over everything, since nothing inside it is formatting.
fn try_code(line: &[char], i: usize, offset: usize, parsed: &mut Parsed) -> (r: Option<usize>)
    requires
        i < line@.len(),
        offset + line@.len() <= usize::MAX,
    ensures
        recorded(code_at(line@, i as int), old(parsed)@, final(parsed)@, r, i as int, offset as int),
{
    let tick: &[char] = &['`'];
    assert(tick@ =~= seq!['`']);
    if !starts_with(line, i, tick) {
        return None;
    }
    proof {
        lemma_find_from(line@, i + 1, tick@);
    }
    match find(line, i + 1, tick) {
        Some(close) => {
            record(parsed, i, offset, i + 1, close, close + 1, Style::Code);
            Some(close + 1)
        },
        None => None,
    }
}

struct Link {
    label_start: usize,
    label_end: usize,
    end: usize,
}

/// `[label](target)` starting at `i`.
fn parse_link(line: &[char], i: usize) -> (r: Option<Link>)
    requires
        i < line@.len() <= usize::MAX,
    ensures
        match r {
            Some(link) => link_at(line@, i as int) == Some(
                Inline {
                    content_start: link.label_start as int,
                    content_end: link.label_end as int,
                    end: link.end as int,
                    style: Style::Link,
                },
            ) && i < link.label_start < link.label_end < link.end <= line@.len(),
            None => link_at(line@, i as int) is None,
        },
{
    let open: &[char] = &['['];
    let close: &[char] = &[']'];
    let open_target: &[char] = &['('];
    let close_target: &[char] = &[')'];
    assert(open@ =~= seq!['[']);
    assert(close@ =~= seq![']']);
    assert(open_target@ =~= seq!['(']);
    assert(close_target@ =~= seq![')']);
    if !starts_with(line, i, open) {
        return None;
    }
    proof {
        lemma_find_from(line@, i + 1, close@);
    }
    match find(line, i + 1, close) {
        None => None,
        Some(label_end) => {
            if label_end == i + 1 || !starts_with(line, label_end + 1, open_target) {
                return None;
            }
            proof {
                lemma_find_from(line@, label_end + 2, close_target@);
            }
            match find(line, label_end + 2, close_target) {
                None => None,
                Some(end) => Some(Link { label_start: i + 1, label_end, end: end + 1 }),
            }
        },
    }
}

/// `[label](target)`: the label is what you read, the rest is syntax.
fn try_link(line: &[char], i: usize, offset: usize, parsed: &mut Parsed) -> (r: Option<usize>)
    requires
        i < line@.len(),
        offset + line@.len() <= usize::MAX,
    ensures
        recorded(link_at(line@, i as int), old(parsed)@, final(parsed)@, r, i as int, offset as int),
{
    match parse_link(line, i) {
        Some(link) => {
            record(parsed, i, offset, link.label_start, link.label_end, link.end, Style::Link);
            Some(link.end)
        },
        None => None,
    }
}

/// Content between two `delimiter`s at `i`.
fn try_delimiter(
    line: &[char],
    i: usize,
    offset: usize,
    parsed: &mut Parsed,
    delimiter: &[char],
    style: Style,
) -> (r: Option<usize>)
    requires
        i < line@.len(),
        offset + line@.len() <= usize::MAX,
        delimiter@.len() > 0,
    ensures
        recorded(
            delimited_at(line@, i as int, delimiter@, style),
            old(parsed)@,
            final(parsed)@,
            r,
            i as int,
            offset as int,
        ),
{
    if !starts_with(line, i, delimiter) {
        return None;
    }
    let content_start: usize = i + delimiter.len();
    proof {
        lemma_find_from(line@, content_start as int, delimiter@);
    }
    match find(line, content_start, delimiter) {
        None => None,
        Some(close) => {
            if close == content_start || text::is_white_space(line[content_start])
                || text::is_white_space(line[close - 1]) {
                return None;
            }
            record(parsed, i, offset, content_start, close, close + delimiter.len(), style);
            Some(close + delimiter.len())
        },
    }
}

/// Bold, strikethrough and italic. Two-character delimiters are tried first, or
/// `**x**` would read as an empty italic followed by stray asterisks.
fn try_emphasis(line: &[char], i: usize, offset: usize, parsed: &mut Parsed) -> (r: Option<usize>)
    requires
        i < line@.len(),
        offset + line@.len() <= usize::MAX,
    ensures
        recorded(
            emphasis_at(line@, i as int),
            old(parsed)@,
            final(parsed)@,
            r,
            i as int,
            offset as int,
        ),
{
    let stars: &[char] = &['*', '*'];
    let underscores: &[char] = &['_', '_'];
    let tildes: &[char] = &['~', '~'];
    let star: &[char] = &['*'];
    let underscore: &[char] = &['_'];
    assert(stars@ =~= seq!['*', '*']);
    assert(underscores@ =~= seq!['_', '_']);
    assert(tildes@ =~= seq!['~', '~']);
    assert(star@ =~= seq!['*']);
    assert(underscore@ =~= seq!['_']);
    if let Some(next) = try_delimiter(line, i, offset, parsed, stars, Style::Bold) {
        return Some(next);
    }
    if let Some(next) = try_delimiter(line, i, offset, parsed, underscores, Style::Bold) {
        return Some(next);
    }
    if let Some(next) = try_delimiter(line, i, offset, parsed, tildes, Style::Strikethrough) {
        return Some(next);
    }
    if let Some(next) = try_delimiter(line, i, offset, parsed, star, Style::Italic) {
        return Some(next);
    }
    try_delimiter(line, i, offset, parsed, underscore, Style::Italic)
}

/// The widths of the open list levels, as integers.
pub open spec fn widths(levels: Seq<usize>) -> Seq<int> {
    levels.map_values(|w: usize| w as int)
}

/// How deeply a list item at `width` spaces is nested.
///
/// Taken from the widths already seen in this list rather than from a fixed
/// number of spaces per level, so two-space and four-space notes both nest one
/// level at a time.
fn depth(levels: &mut Vec<usize>, width: usize) -> (r: u8)
    ensures
        widths(final(levels)@) == levels_with(widths(old(levels)@), width as int),
        r == styled_depth(widths(final(levels)@)),
{
    while levels.len() > 0 && levels[levels.len() - 1] > width
        invariant
            levels_within(widths(levels@), width as int) == levels_within(
                widths(old(levels)@),
                width as int,
            ),
        decreases levels@.len(),
    {
        let ghost before = levels@;
        levels.pop();
        assert(widths(levels@) =~= widths(before).drop_last());
    }
    if levels.len() == 0 || levels[levels.len() - 1] != width {
        let ghost before = levels@;
        levels.push(width);
        assert(widths(levels@) =~= widths(before).push(width as int));
    }
    if levels.len() - 1 < MAX_LIST_DEPTH as usize {
        (levels.len() - 1) as u8
    } else {
        MAX_LIST_DEPTH
    }
}

/// A line's content starts inside the line, at or after its indent.
pub proof fn lemma_content_start(line: Seq<char>)
    ensures
        0 <= indent(line) <= content_start(line) <= line.len(),
        !(block(line) is Paragraph) ==> indent(line) < content_start(line),
{
    text::lemma_run_len(line, ' ');
    let rest = line.skip(indent(line));
    text::lemma_run_len(rest, '#');
}

/// The scan of one line outside a fence.
fn parse_line(line: &[char], offset: usize, parsed: &mut Parsed, levels: &mut Vec<usize>)
    requires
        offset + line@.len() <= usize::MAX,
    ensures
        final(parsed)@ == old(parsed)@.then_markup(
            line_markup(line@, offset as int, widths(old(levels)@)),
        ),
        widths(final(levels)@) == levels_after(widths(old(levels)@), line@),
{
    if line.len() == 0 {
        // A blank line separates items but does not end the list.
        assert(parsed@ =~= parsed@.then_markup(Markup::none()));
        return;
    }
    proof {
        lemma_content_start(line@);
        text::lemma_run_len(line@, ' ');
    }
    let ghost before = parsed@;
    let ghost before_levels = widths(levels@);
    let lead: usize = count_front(line, ' ');
    let rest = slice_subrange(line, lead, line.len());
    assert(rest@ =~= line@.skip(lead as int));
    let quote: &[char] = &['>'];
    let quote_space: &[char] = &['>', ' '];
    assert(quote@ =~= seq!['>']);
    assert(quote_space@ =~= seq!['>', ' ']);
    proof {
        if text::occurs_at(rest@, 0, quote_space@) {
            assert(rest@[0] == rest@.subrange(0, 2)[0]);
            assert(rest@.subrange(0, 1) =~= quote@);
        }
    }

    let body: usize;
    if let Some(level) = heading_level(rest) {
        // The hashes and the space are syntax.
        body = lead + level as usize + 1;
        parsed.push_marker(offset + lead, offset + body);
        parsed.push_span(offset + body, offset + line.len(), Style::Heading(level));
        if lead == 0 {
            levels.clear();
        }
    } else if starts_with(rest, 0, quote) {
        body = if starts_with(rest, 0, quote_space) {
            lead + 2
        } else {
            lead + 1
        };
        parsed.push_marker(offset + lead, offset + body);
        parsed.push_span(offset + body, offset + line.len(), Style::Quote);
        if lead == 0 {
            levels.clear();
        }
    } else {
        let item_len = match bullet_len(rest) {
            Some(len) => Some(len),
            None => ordered_len(rest),
        };
        if let Some(len) = item_len {
            // The bullet stays visible: hiding it would delete the only thing
            // that makes a list look like a list. The spaces in front of it are
            // syntax, because the level's margin does their job.
            body = lead + len;
            parsed.push_marker(offset, offset + lead);
            let level: u8 = depth(levels, lead);
            parsed.push_span(offset + body, offset + line.len(), Style::ListItem(level));
        } else {
            // Anything else at the left edge ends the list; an indented line
            // continues the item above and leaves the nesting alone.
            body = lead;
            if lead == 0 {
                levels.clear();
            }
        }
    }
    assert(body == content_start(line@));
    assert(parsed@ =~= before.then_markup(block_markup(line@, offset as int, before_levels)));
    assert(widths(levels@) =~= levels_after(before_levels, line@));

    let content = slice_subrange(line, body, line.len());
    assert(content@ =~= line@.skip(body as int));
    parse_inline(content, offset + body, parsed);
    proof {
        lemma_then_assoc(
            before,
            block_markup(line@, offset as int, before_levels),
            inline_markup(line@.skip(body as int), 0, offset + body),
        );
    }
}

/// The spans and markers of `text`.
pub fn parse(text: &str) -> (r: Parsed)
    ensures
        r@ == markup(text@),
{
    let chars: Vec<char> = text::chars_of(text);
    parse_chars(chars.as_slice())
}

fn parse_chars(chars: &[char]) -> (r: Parsed)
    ensures
        r@ == markup(chars@),
{
    let mut parsed = Parsed::new();
    let mut levels: Vec<usize> = Vec::new();
    let total: usize = chars.len();
    let mut line_start: usize = 0;
    let mut in_fence = false;
    assert(widths(levels@) =~= seq![]);
    assert(parsed@.then_markup(markup(chars@)) =~= markup(chars@));
    loop
        invariant
            line_start <= total == chars@.len(),
            parsed@.then_markup(
                markup_from(chars@, line_start as int, in_fence, widths(levels@)),
            ) == markup(chars@),
        decreases chars@.len() - line_start,
    {
        let ghost before = parsed@;
        let ghost rest = markup_from(chars@, line_start as int, in_fence, widths(levels@));
        let ghost was_fenced = in_fence;
        let ghost was_levels = widths(levels@);
        let line_end: usize = text::find_line_end(chars, line_start);
        let line = slice_subrange(chars, line_start, line_end);
        if is_fence(line) {
            // The fence itself is syntax; the lines between are code.
            parsed.push_marker(line_start, line_end);
            in_fence = !in_fence;
        } else if in_fence {
            parsed.push_span(line_start, line_end, Style::CodeBlock);
        } else {
            parse_line(line, line_start, &mut parsed, &mut levels);
        }
        if line_end >= total {
            return parsed;
        }
        proof {
            let here = if fence(line@) {
                Markup::marker(line_start as int, line_end as int)
            } else if was_fenced {
                Markup::span(line_start as int, line_end as int, Style::CodeBlock)
            } else {
                line_markup(line@, line_start as int, was_levels)
            };
            assert(parsed@ == before.then_markup(here));
            lemma_then_assoc(
                before,
                here,
                markup_from(chars@, line_end + 1, in_fence, widths(levels@)),
            );
        }
        line_start = line_end + 1;
    }
}

/// Mark the positions `from..to`.
fn mark_range(flags: &mut Vec<bool>, from: usize, to: usize)
    requires
        from <= to <= old(flags)@.len(),
    ensures
        final(flags)@.len() == old(flags)@.len(),
        forall|i: int|
            0 <= i < old(flags)@.len() ==> #[trigger] final(flags)@[i] == (old(flags)@[i] || from
                <= i < to),
{
    let mut i: usize = from;
    while i < to
        invariant
            from <= i <= to <= flags@.len(),
            flags@.len() == old(flags)@.len(),
            forall|j: int|
                0 <= j < flags@.len() ==> #[trigger] flags@[j] == (old(flags)@[j] || from <= j < i),
        decreases to - i,
    {
        flags.set(i, true);
        i += 1;
    }
}

/// The note's text with Markdown syntax removed.
///
/// For anywhere the note is *named* rather than shown: the window title, the
/// accessible label, the tray menu. Goes further than hiding markers: list
/// bullets stay visible in the editor, but in a title they are noise.
pub fn strip(text: &str) -> (r: String)
    ensures
        r@ == stripped(text@),
{
    let chars: Vec<char> = text::chars_of(text);
    let total: usize = chars.len();
    let parsed = parse_chars(chars.as_slice());
    let ghost markers = markup(chars@).markers;
    proof {
        laws::markup_stays_in_range(chars@);
    }

    let mut hidden: Vec<bool> = Vec::new();
    let mut i: usize = 0;
    while i < total
        invariant
            i <= total,
            hidden@.len() == i,
            forall|j: int| 0 <= j < i ==> !#[trigger] hidden@[j],
        decreases total - i,
    {
        hidden.push(false);
        i += 1;
    }

    let mut k: usize = 0;
    while k < parsed.markers.len()
        invariant
            k <= parsed.markers@.len(),
            total == chars@.len() == hidden@.len(),
            parsed@ == markup(chars@),
            markers == markup(chars@).markers,
            laws::in_range(markup(chars@), chars@.len() as int),
            forall|j: int|
                0 <= j < total ==> #[trigger] hidden@[j] == marked(markers.take(k as int), j),
        decreases parsed.markers@.len() - k,
    {
        let marker = parsed.markers[k];
        assert(markers[k as int] == marker.run());
        let ghost before = hidden@;
        mark_range(&mut hidden, marker.start, marker.end);
        proof {
            let more = markers.take(k + 1);
            assert forall|j: int| 0 <= j < total implies #[trigger] hidden@[j] == marked(more, j) by {
                if marked(markers.take(k as int), j) {
                    let n = choose|n: int|
                        0 <= n < k && (#[trigger] markers.take(k as int)[n]).start <= j
                            < markers.take(k as int)[n].end;
                    assert(more[n] == markers.take(k as int)[n]);
                }
                if marked(more, j) {
                    let n = choose|n: int|
                        0 <= n < k + 1 && (#[trigger] more[n]).start <= j < more[n].end;
                    if n < k {
                        assert(more[n] == markers.take(k as int)[n]);
                    }
                }
                assert(more[k as int] == marker.run());
                assert(before[j] == marked(markers.take(k as int), j));
            }
        }
        k += 1;
    }
    assert(markers.take(k as int) =~= markers);

    // Bullets are content in the editor and clutter in a title.
    let mut start: usize = 0;
    while start < total
        invariant
            start <= total,
            total == chars@.len() == hidden@.len(),
            start == 0 || start == total || chars@[start - 1] == '\n',
            markers == markup(chars@).markers,
            forall|j: int| 0 <= j < total && j < start ==> #[trigger] hidden@[j] == dropped(chars@, j),
            forall|j: int| start <= j < total ==> #[trigger] hidden@[j] == marked(markers, j),
        decreases total - start,
    {
        let end: usize = text::find_line_end(chars.as_slice(), start);
        let line = slice_subrange(chars.as_slice(), start, end);
        let lead: usize = count_front(line, ' ');
        proof {
            text::lemma_run_len(line@, ' ');
            text::lemma_line_end(chars@, start as int);
            laws::line_start_of_line(chars@, start as int);
        }
        let rest = slice_subrange(line, lead, line.len());
        assert(rest@ =~= line@.skip(indent(line@)));
        let item_len = match bullet_len(rest) {
            Some(len) => Some(len),
            None => ordered_len(rest),
        };
        if let Some(len) = item_len {
            mark_range(&mut hidden, start + lead, start + lead + len);
        }
        start = if end < total {
            end + 1
        } else {
            total
        };
    }

    let mut out = String::new();
    let mut n: usize = 0;
    while n < total
        invariant
            n <= total,
            total == chars@.len() == hidden@.len(),
            forall|j: int| 0 <= j < total ==> #[trigger] hidden@[j] == dropped(chars@, j),
            out@ == stripped_prefix(chars@, n as int),
        decreases total - n,
    {
        if !hidden[n] {
            out.push(chars[n]);
        }
        n += 1;
    }
    out
}

pub proof fn lemma_then_assoc(a: Markup, b: Markup, c: Markup)
    ensures
        a.then_markup(b).then_markup(c) == a.then_markup(b.then_markup(c)),
{
    assert(a.then_markup(b).then_markup(c) =~= a.then_markup(b.then_markup(c)));
}

} // verus!
