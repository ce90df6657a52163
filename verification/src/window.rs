//! One window per note: what it shows, and what it reports.
//!
//! The window renders a note and reports what the user did to it, but it never
//! owns the data and never touches the disk.

use crate::model::markdown;
use crate::model::markdown::{Style, MAX_LIST_DEPTH};
use crate::model::note;
use crate::model::note::{Note, Palette};
use crate::placement;
use crate::text;
use vstd::prelude::*;
use vstd::string::StringExecFns;

verus! {

// ---- rendering Markdown ----

/// The name of the tag that a style is shown with.
pub open spec fn style_tag(style: Style) -> Seq<char> {
    match style {
        Style::Heading(level) => "md-h"@ + text::decimal(level as int),
        Style::Bold => "md-bold"@,
        Style::Italic => "md-italic"@,
        Style::Strikethrough => "md-strike"@,
        Style::Code => "md-code"@,
        Style::CodeBlock => "md-codeblock"@,
        Style::Quote => "md-quote"@,
        Style::ListItem(level) => "md-list"@ + text::decimal(level as int),
        Style::Link => "md-link"@,
    }
}

/// Does the style belong to a whole line? The text view takes the margins of a
/// line from the tags at its start, and the syntax there is not part of the
/// content.
pub open spec fn is_block(style: Style) -> bool {
    match style {
        Style::Heading(_) => true,
        Style::Quote => true,
        Style::ListItem(_) => true,
        Style::CodeBlock => true,
        _ => false,
    }
}

/// The name of the tag that a style is shown with.
pub fn tag_name(style: Style) -> (r: String)
    ensures
        r@ == style_tag(style),
{
    match style {
        Style::Heading(level) => {
            let mut out = "md-h".to_owned();
            out.append(text::decimal_u64(level as u64).as_str());
            out
        },
        Style::Bold => "md-bold".to_owned(),
        Style::Italic => "md-italic".to_owned(),
        Style::Strikethrough => "md-strike".to_owned(),
        Style::Code => "md-code".to_owned(),
        Style::CodeBlock => "md-codeblock".to_owned(),
        Style::Quote => "md-quote".to_owned(),
        Style::ListItem(level) => {
            let mut out = "md-list".to_owned();
            out.append(text::decimal_u64(level as u64).as_str());
            out
        },
        Style::Link => "md-link".to_owned(),
    }
}

/// A tag for some characters.
#[derive(Debug, PartialEq, Eq)]
pub struct TagRun {
    pub name: String,
    pub start: usize,
    pub end: usize,
    /// The tag reaches back to the start of the line that `start` is on.
    pub from_line_start: bool,
}

/// A tag for some characters, as a mathematical value.
pub struct Tagged {
    pub name: Seq<char>,
    pub start: int,
    pub end: int,
    pub from_line_start: bool,
}

impl View for TagRun {
    type V = Tagged;

    open spec fn view(&self) -> Tagged {
        Tagged {
            name: self.name@,
            start: self.start as int,
            end: self.end as int,
            from_line_start: self.from_line_start,
        }
    }
}

/// The tag of a span.
pub open spec fn span_tag(run: markdown::StyledRun) -> Tagged {
    Tagged {
        name: style_tag(run.style),
        start: run.start,
        end: run.end,
        from_line_start: is_block(run.style),
    }
}

/// The tag of a marker.
pub open spec fn marker_tag(run: markdown::SyntaxRun) -> Tagged {
    Tagged { name: "md-marker"@, start: run.start, end: run.end, from_line_start: false }
}

/// The tags of a text: of every span, and then of every marker.
pub open spec fn tags_of(m: markdown::Markup) -> Seq<Tagged> {
    m.spans.map_values(|s: markdown::StyledRun| span_tag(s)) + m.markers.map_values(
        |s: markdown::SyntaxRun| marker_tag(s),
    )
}

/// Tags as mathematical values.
pub open spec fn tagged(runs: Seq<TagRun>) -> Seq<Tagged> {
    runs.map_values(|r: TagRun| r@)
}

fn starts_line(style: Style) -> (r: bool)
    ensures
        r == is_block(style),
{
    match style {
        Style::Heading(_) => true,
        Style::Quote => true,
        Style::ListItem(_) => true,
        Style::CodeBlock => true,
        _ => false,
    }
}

/// The tags to show a note's text with.
pub fn restyle(body: &str) -> (r: Vec<TagRun>)
    ensures
        tagged(r@) == tags_of(markdown::markup(body@)),
{
    let parsed = markdown::parse(body);
    let ghost m = parsed@;
    let ghost all = tags_of(m);
    let mut out: Vec<TagRun> = Vec::new();
    let mut i: usize = 0;
    while i < parsed.spans.len()
        invariant
            i <= parsed.spans@.len(),
            m == parsed@,
            all == tags_of(m),
            tagged(out@) == all.take(i as int),
        decreases parsed.spans@.len() - i,
    {
        let span = parsed.spans[i];
        let run = TagRun {
            name: tag_name(span.style),
            start: span.start,
            end: span.end,
            from_line_start: starts_line(span.style),
        };
        let ghost before = out@;
        out.push(run);
        proof {
            assert(m.spans[i as int] == span.run());
            assert(all[i as int] == run@);
            assert(tagged(out@) =~= tagged(before).push(run@));
            assert(all.take(i + 1) =~= all.take(i as int).push(run@));
        }
        i += 1;
    }
    let mut k: usize = 0;
    while k < parsed.markers.len()
        invariant
            k <= parsed.markers@.len(),
            m == parsed@,
            all == tags_of(m),
            i == parsed.spans@.len(),
            tagged(out@) == all.take(i + k),
        decreases parsed.markers@.len() - k,
    {
        let marker = parsed.markers[k];
        let run = TagRun {
            name: "md-marker".to_owned(),
            start: marker.start,
            end: marker.end,
            from_line_start: false,
        };
        let ghost before = out@;
        out.push(run);
        proof {
            assert(m.markers[k as int] == marker.run());
            assert(all[i + k] == run@);
            assert(tagged(out@) =~= tagged(before).push(run@));
            assert(all.take(i + k + 1) =~= all.take(i + k).push(run@));
        }
        k += 1;
    }
    assert(all.take(i + k) =~= all);
    out
}

/// How a tag makes text look. What is `None` or false is left alone: colour
/// above all, which belongs to the note's palette.
#[derive(Debug, PartialEq, Eq)]
pub struct Tag {
    pub name: String,
    /// Size of the text, in hundredths of the body's.
    pub scale: Option<u32>,
    pub weight: Option<i32>,
    pub pixels_above_lines: Option<i32>,
    pub left_margin: Option<i32>,
    pub indent: Option<i32>,
    pub monospace: bool,
    pub italic: bool,
    pub strikethrough: bool,
    pub underline: bool,
    /// The one thing that is switched: syntax is hidden unless the note is
    /// being edited.
    pub invisible: bool,
}

/// How a tag makes text look, as a mathematical value.
pub struct Look {
    pub name: Seq<char>,
    pub scale: Option<u32>,
    pub weight: Option<i32>,
    pub pixels_above_lines: Option<i32>,
    pub left_margin: Option<i32>,
    pub indent: Option<i32>,
    pub monospace: bool,
    pub italic: bool,
    pub strikethrough: bool,
    pub underline: bool,
    pub invisible: bool,
}

impl View for Tag {
    type V = Look;

    open spec fn view(&self) -> Look {
        Look {
            name: self.name@,
            scale: self.scale,
            weight: self.weight,
            pixels_above_lines: self.pixels_above_lines,
            left_margin: self.left_margin,
            indent: self.indent,
            monospace: self.monospace,
            italic: self.italic,
            strikethrough: self.strikethrough,
            underline: self.underline,
            invisible: self.invisible,
        }
    }
}

/// A tag that changes nothing.
pub open spec fn plain_look(name: Seq<char>) -> Look {
    Look {
        name,
        scale: None,
        weight: None,
        pixels_above_lines: None,
        left_margin: None,
        indent: None,
        monospace: false,
        italic: false,
        strikethrough: false,
        underline: false,
        invisible: false,
    }
}

/// The size of a heading. Headings shrink with depth but stay above the body's
/// size.
pub open spec fn heading_scale(level: u8) -> u32 {
    if level == 1 {
        160
    } else if level == 2 {
        140
    } else if level == 3 {
        125
    } else if level == 4 {
        115
    } else {
        105
    }
}

/// How a style looks.
pub open spec fn look(style: Style) -> Look {
    let plain = plain_look(style_tag(style));
    match style {
        Style::Heading(level) => Look {
            scale: Some(heading_scale(level)),
            weight: Some(700i32),
            pixels_above_lines: Some(6i32),
            ..plain
        },
        Style::Bold => Look { weight: Some(700i32), ..plain },
        Style::Italic => Look { italic: true, ..plain },
        Style::Strikethrough => Look { strikethrough: true, ..plain },
        Style::Code => Look { monospace: true, scale: Some(95u32), ..plain },
        Style::CodeBlock => Look {
            monospace: true,
            scale: Some(95u32),
            left_margin: Some(24i32),
            ..plain
        },
        Style::Quote => Look { italic: true, left_margin: Some(24i32), ..plain },
        Style::ListItem(level) => Look {
            left_margin: Some((36 + level * 24) as i32),
            indent: Some(-18i32),
            pixels_above_lines: Some(2i32),
            ..plain
        },
        Style::Link => Look { underline: true, ..plain },
    }
}

fn plain_tag(name: String) -> (r: Tag)
    ensures
        r@ == plain_look(name@),
{
    Tag {
        name,
        scale: None,
        weight: None,
        pixels_above_lines: None,
        left_margin: None,
        indent: None,
        monospace: false,
        italic: false,
        strikethrough: false,
        underline: false,
        invisible: false,
    }
}

/// The tag that shows a style.
pub fn tag_for(style: Style) -> (r: Tag)
    ensures
        r@ == look(style),
{
    let mut tag = plain_tag(tag_name(style));
    match style {
        Style::Heading(level) => {
            tag.scale = Some(
                if level == 1 {
                    160
                } else if level == 2 {
                    140
                } else if level == 3 {
                    125
                } else if level == 4 {
                    115
                } else {
                    105
                },
            );
            tag.weight = Some(700);
            tag.pixels_above_lines = Some(6);
        },
        Style::Bold => {
            tag.weight = Some(700);
        },
        Style::Italic => {
            tag.italic = true;
        },
        Style::Strikethrough => {
            tag.strikethrough = true;
        },
        Style::Code => {
            tag.monospace = true;
            tag.scale = Some(95);
        },
        Style::CodeBlock => {
            tag.monospace = true;
            tag.scale = Some(95);
            tag.left_margin = Some(24);
        },
        Style::Quote => {
            tag.italic = true;
            tag.left_margin = Some(24);
        },
        Style::ListItem(level) => {
            // A hanging indent: the bullet stands in the margin, and wrapped
            // lines line up under the text of the item.
            tag.left_margin = Some(36 + level as i32 * 24);
            tag.indent = Some(-18);
            tag.pixels_above_lines = Some(2);
        },
        Style::Link => {
            tag.underline = true;
        },
    }
    tag
}

/// Every style that has a tag, in the order the tags are made.
pub open spec fn styles() -> Seq<Style> {
    seq![
        Style::Heading(1),
        Style::Heading(2),
        Style::Heading(3),
        Style::Heading(4),
        Style::Heading(5),
        Style::Heading(6),
        Style::Bold,
        Style::Italic,
        Style::Strikethrough,
        Style::Code,
        Style::CodeBlock,
        Style::Quote,
        Style::ListItem(0),
        Style::ListItem(1),
        Style::ListItem(2),
        Style::ListItem(3),
        Style::ListItem(4),
        Style::Link,
    ]
}

/// The tag of syntax characters.
pub open spec fn marker_look() -> Look {
    Look { invisible: true, ..plain_look("md-marker"@) }
}

/// Every tag: one for each style, and one for syntax.
pub open spec fn looks() -> Seq<Look> {
    styles().map_values(|s: Style| look(s)).push(marker_look())
}

/// Every tag that rendering a note can call for.
pub fn markdown_tags() -> (r: Vec<Tag>)
    ensures
        r@.map_values(|t: Tag| t@) == looks(),
{
    let mut out: Vec<Tag> = Vec::new();
    let mut level: u8 = 1;
    while level <= 6
        invariant
            1 <= level <= 7,
            out@.len() == level - 1,
            forall|i: int| 0 <= i < out@.len() ==> (#[trigger] out@[i])@ == look(styles()[i]),
        decreases 7 - level,
    {
        out.push(tag_for(Style::Heading(level)));
        level += 1;
    }
    out.push(tag_for(Style::Bold));
    out.push(tag_for(Style::Italic));
    out.push(tag_for(Style::Strikethrough));
    out.push(tag_for(Style::Code));
    out.push(tag_for(Style::CodeBlock));
    out.push(tag_for(Style::Quote));
    let mut depth: u8 = 0;
    while depth <= MAX_LIST_DEPTH
        invariant
            0 <= depth <= MAX_LIST_DEPTH + 1,
            out@.len() == 12 + depth,
            forall|i: int| 0 <= i < out@.len() ==> (#[trigger] out@[i])@ == look(styles()[i]),
        decreases MAX_LIST_DEPTH + 1 - depth,
    {
        out.push(tag_for(Style::ListItem(depth)));
        depth += 1;
    }
    out.push(tag_for(Style::Link));
    let mut marker = plain_tag("md-marker".to_owned());
    marker.invisible = true;
    out.push(marker);
    assert(out@.map_values(|t: Tag| t@) =~= looks());
    out
}

/// Every span that parsing finds has a tag.
pub proof fn every_style_has_a_tag(body: Seq<char>, i: int)
    requires
        0 <= i < markdown::markup(body).spans.len(),
    ensures
        looks().contains(look(markdown::markup(body).spans[i].style)),
        looks().contains(marker_look()),
{
    crate::model::markdown_laws::styles_stay_in_bounds(body);
    let style = markdown::markup(body).spans[i].style;
    assert(crate::model::markdown_laws::style_in_bounds(style));
    let at: int = match style {
        Style::Heading(level) => level - 1,
        Style::Bold => 6,
        Style::Italic => 7,
        Style::Strikethrough => 8,
        Style::Code => 9,
        Style::CodeBlock => 10,
        Style::Quote => 11,
        Style::ListItem(level) => 12 + level,
        Style::Link => 17,
    };
    assert(styles()[at] == style);
    assert(looks()[at] == look(style));
    assert(looks()[18] == marker_look());
}

// ---- editing lists ----

/// Another number for a list item: the characters to replace, and by what.
#[derive(Debug, Clone, Copy, PartialEq, Eq, Structural)]
pub struct Edit {
    pub start: usize,
    pub end: usize,
    pub number: u64,
}

/// Characters to replace by a text.
#[derive(Debug, PartialEq, Eq)]
pub struct TextEdit {
    pub start: usize,
    pub end: usize,
    pub text: String,
}

/// Characters to replace by a text, as a mathematical value.
pub struct Change {
    pub start: int,
    pub end: int,
    pub text: Seq<char>,
}

impl View for TextEdit {
    type V = Change;

    open spec fn view(&self) -> Change {
        Change { start: self.start as int, end: self.end as int, text: self.text@ }
    }
}

impl Edit {
    /// What the edit changes.
    pub open spec fn change(self) -> Change {
        Change {
            start: self.start as int,
            end: self.end as int,
            text: text::decimal(self.number as int),
        }
    }
}

/// What the edits change, in order.
pub open spec fn changes(edits: Seq<Edit>) -> Seq<Change> {
    edits.map_values(|e: Edit| e.change())
}

/// The edits in the order to carry them out: from back to front, so that no
/// edit shifts the offsets of one that is still to come.
pub fn renumber_steps(edits: &[Edit]) -> (r: Vec<TextEdit>)
    ensures
        r@.map_values(|e: TextEdit| e@) == changes(edits@).reverse(),
{
    let mut out: Vec<TextEdit> = Vec::new();
    let mut i: usize = edits.len();
    while i > 0
        invariant
            i <= edits@.len(),
            out@.len() == edits@.len() - i,
            forall|j: int|
                0 <= j < out@.len() ==> (#[trigger] out@[j])@ == edits@[edits@.len() - 1
                    - j].change(),
        decreases i,
    {
        i -= 1;
        let edit = edits[i];
        out.push(
            TextEdit { start: edit.start, end: edit.end, text: text::decimal_u64(edit.number) },
        );
    }
    assert(out@.map_values(|e: TextEdit| e@) =~= changes(edits@).reverse());
    out
}

/// The text after one change.
pub open spec fn changed(body: Seq<char>, c: Change) -> Seq<char> {
    body.take(c.start) + c.text + body.skip(c.end)
}

/// The text after all changes, one after the other.
pub open spec fn changed_by_all(body: Seq<char>, all: Seq<Change>) -> Seq<char>
    decreases all.len(),
{
    if all.len() == 0 {
        body
    } else {
        changed_by_all(changed(body, all.first()), all.drop_first())
    }
}

/// Do the changes stand in order, apart from each other and within `len`
/// characters?
pub open spec fn in_order(all: Seq<Change>, len: int) -> bool {
    &&& forall|i: int|
        0 <= i < all.len() ==> 0 <= (#[trigger] all[i]).start <= all[i].end <= len
    &&& forall|i: int, j: int|
        0 <= i < j < all.len() ==> (#[trigger] all[i]).end <= (#[trigger] all[j]).start
}

/// The text with every change made at once: what lies between the changes is
/// kept.
pub open spec fn substituted(body: Seq<char>, all: Seq<Change>) -> Seq<char>
    decreases all.len(),
{
    if all.len() == 0 {
        body
    } else {
        substituted(body.take(all.last().start), all.drop_last()) + all.last().text + body.skip(
            all.last().end,
        )
    }
}

/// Carrying the edits out from back to front makes every one of them at the
/// offsets that were given.
pub proof fn back_to_front_is_all_at_once(body: Seq<char>, all: Seq<Change>)
    requires
        in_order(all, body.len() as int),
    ensures
        changed_by_all(body, all.reverse()) == substituted(body, all),
    decreases all.len(),
{
    if all.len() > 0 {
        let last = all.last();
        let rest = all.drop_last();
        assert(all.reverse().first() == last);
        assert(all.reverse().drop_first() =~= rest.reverse());
        let front = body.take(last.start);
        let tail = last.text + body.skip(last.end);
        assert(changed(body, last) =~= front + tail);
        assert(in_order(rest, front.len() as int)) by {
            assert forall|i: int| 0 <= i < rest.len() implies 0 <= (#[trigger] rest[i]).start
                <= rest[i].end <= front.len() by {
                assert(rest[i] == all[i]);
                assert(all[i].end <= all[all.len() - 1].start);
            }
        }
        lemma_tail(front, tail, rest.reverse());
        back_to_front_is_all_at_once(front, rest);
        assert(substituted(body, all) =~= substituted(front, rest) + tail);
    }
}

/// Changes to the front of a text leave its tail alone.
proof fn lemma_tail(front: Seq<char>, tail: Seq<char>, back: Seq<Change>)
    requires
        in_order(back.reverse(), front.len() as int),
    ensures
        changed_by_all(front + tail, back) == changed_by_all(front, back) + tail,
    decreases back.len(),
{
    if back.len() > 0 {
        let first = back.first();
        let rest = back.drop_first();
        let ordered = back.reverse();
        assert(ordered[ordered.len() - 1] == first);
        assert(first.end <= front.len());
        assert(changed(front + tail, first) =~= changed(front, first) + tail);
        assert(rest.reverse() =~= ordered.drop_last());
        assert(in_order(rest.reverse(), changed(front, first).len() as int)) by {
            assert forall|i: int| 0 <= i < rest.len() implies 0 <= (
            #[trigger] rest.reverse()[i]).start <= rest.reverse()[i].end <= changed(
                front,
                first,
            ).len() by {
                assert(rest.reverse()[i] == ordered[i]);
                assert(ordered[i].end <= ordered[ordered.len() - 1].start);
            }
            assert forall|i: int, j: int| 0 <= i < j < rest.len() implies (
            #[trigger] rest.reverse()[i]).end <= (#[trigger] rest.reverse()[j]).start by {
                assert(rest.reverse()[i] == ordered[i] && rest.reverse()[j] == ordered[j]);
            }
        }
        lemma_tail(changed(front, first), tail, rest);
    }
}

/// What Enter does in a list.
#[derive(Debug, PartialEq, Eq)]
pub enum ListEnter {
    /// Carry the list on with this at the start of the next line.
    Continue(String),
    /// The item is empty: the list is over.
    EndList,
}

/// What Enter does to the text.
#[derive(Debug, PartialEq, Eq)]
pub enum EnterEdit {
    /// What it does everywhere.
    Proceed,
    /// Insert this.
    Insert(String),
    /// Empty the line.
    ClearLine,
}

/// Is this Enter ours to handle? With Control or Alt it means something else,
/// and a note that cannot be edited has no list to carry on.
pub fn handles_enter(enter: bool, control: bool, alt: bool, editable: bool) -> (r: bool)
    ensures
        r == (enter && !control && !alt && editable),
{
    enter && !control && !alt && editable
}

/// What Enter does to the text, by what it does in a list: the next item starts
/// on a new line, and an empty item is taken away.
pub fn enter_edit(action: Option<ListEnter>) -> (r: EnterEdit)
    ensures
        match action {
            Some(ListEnter::Continue(prefix)) => r matches EnterEdit::Insert(s) && s@ == seq!['\n']
                + prefix@,
            Some(ListEnter::EndList) => r == EnterEdit::ClearLine,
            None => r == EnterEdit::Proceed,
        },
{
    match action {
        Some(ListEnter::Continue(prefix)) => {
            let mut out = String::new();
            out.push('\n');
            out.append(prefix.as_str());
            EnterEdit::Insert(out)
        },
        Some(ListEnter::EndList) => EnterEdit::ClearLine,
        None => EnterEdit::Proceed,
    }
}

// ---- the window ----

/// What a window remembers.
#[derive(Debug)]
pub struct NoteWindow {
    /// The note it shows. Empty until one is bound.
    pub note_id: String,
    pub palette: Palette,
    pub pinned: bool,
    /// Set while a note is being bound, so that the writes that takes are not
    /// reported as the user's.
    pub loading: bool,
    /// A renumbering is waiting to run. Deleting a selection can raise several
    /// signals; one pass settles them all.
    pub renumber_queued: bool,
    pub placement_available: bool,
}

/// What picking a colour comes to.
#[derive(Debug, Clone, Copy, PartialEq, Eq, Structural)]
pub enum PaletteChoice {
    /// There is no such colour.
    Unknown,
    /// It is the note's colour already, or the note is being loaded.
    Unchanged,
    /// Show this colour, and report it.
    Changed(Palette),
}

/// What to do when a note is to be deleted.
#[derive(Debug, Clone, Copy, PartialEq, Eq, Structural)]
pub enum Deletion {
    /// Nothing is written on it: delete it at once.
    Now,
    /// Ask first.
    Ask,
}

/// What the pin button says.
pub open spec fn pin_tip(available: bool, pinned: bool) -> Seq<char> {
    if !available {
        "Keep on Top needs the Stickies GNOME Shell extension — Wayland does not let apps raise their own windows"@
    } else if pinned {
        "Stop Keeping on Top"@
    } else {
        "Keep on Top"@
    }
}

impl NoteWindow {
    /// A window with no note in it.
    pub fn new() -> (r: NoteWindow)
        ensures
            r.note_id@ == Seq::<char>::empty(),
            r.palette == Palette::Yellow,
            !r.pinned,
            !r.loading,
            !r.renumber_queued,
            !r.placement_available,
    {
        NoteWindow {
            note_id: String::new(),
            palette: Palette::default(),
            pinned: false,
            loading: false,
            renumber_queued: false,
            placement_available: false,
        }
    }

    /// The identifier of the note that the window shows.
    pub fn note_id(&self) -> (r: String)
        ensures
            r == self.note_id,
    {
        self.note_id.clone()
    }

    pub fn palette(&self) -> (r: Palette)
        ensures
            r == self.palette,
    {
        self.palette
    }

    pub fn is_pinned(&self) -> (r: bool)
        ensures
            r == self.pinned,
    {
        self.pinned
    }

    pub fn placement_available(&self) -> (r: bool)
        ensures
            r == self.placement_available,
    {
        self.placement_available
    }

    /// The object path of the window with this number. `None` for 0, the number
    /// of a window that belongs to no application yet.
    pub fn object_path(window_id: u32) -> (r: Option<String>)
        ensures
            text::optional_text(r) == if window_id == 0 {
                None
            } else {
                Some(placement::object_path(window_id as int))
            },
    {
        if window_id != 0 {
            Some(placement::window_object_path(window_id))
        } else {
            None
        }
    }

    /// Show `note`. The result is the size that the window should take. Once it
    /// is shown nothing is being loaded any more.
    pub fn bind(&mut self, note: &Note) -> (r: (i32, i32))
        ensures
            *final(self) == (NoteWindow {
                note_id: note.id,
                palette: note.palette,
                pinned: note.pinned,
                loading: false,
                ..*old(self)
            }),
            r == (note.geometry.grown().width, note.geometry.grown().height),
    {
        self.note_id = note.id.clone();
        self.apply_palette(note.palette);
        self.set_pinned(note.pinned);
        self.loading = false;
        let geometry = note.geometry.normalized();
        (geometry.width, geometry.height)
    }

    /// Show this colour.
    pub fn apply_palette(&mut self, palette: Palette)
        ensures
            *final(self) == (NoteWindow { palette, ..*old(self) }),
    {
        self.palette = palette;
    }

    /// Show the note as pinned or not.
    pub fn set_pinned(&mut self, pinned: bool)
        ensures
            *final(self) == (NoteWindow { pinned, ..*old(self) }),
    {
        self.pinned = pinned;
    }

    /// Can windows be placed? Without the extension nothing can be kept on
    /// top, so the pin button is disabled then, and says why.
    pub fn set_placement_available(&mut self, available: bool)
        ensures
            *final(self) == (NoteWindow { placement_available: available, ..*old(self) }),
    {
        self.placement_available = available;
    }

    /// What the pin button says.
    pub fn pin_tooltip(&self) -> (r: &'static str)
        ensures
            r@ == pin_tip(self.placement_available, self.pinned),
    {
        if !self.placement_available {
            "Keep on Top needs the Stickies GNOME Shell extension — Wayland does not let apps raise their own windows"
        } else if self.pinned {
            "Stop Keeping on Top"
        } else {
            "Keep on Top"
        }
    }

    /// A colour was picked, by its machine name.
    pub fn choose_palette(&mut self, name: &str) -> (r: PaletteChoice)
        ensures
            match r {
                PaletteChoice::Unknown => {
                    &&& *final(self) == *old(self)
                    &&& forall|p: Palette| #[trigger] p.name() != name@
                },
                PaletteChoice::Unchanged => {
                    &&& *final(self) == *old(self)
                    &&& exists|p: Palette| #[trigger]
                        p.name() == name@ && (old(self).loading || p == old(self).palette)
                },
                PaletteChoice::Changed(p) => {
                    &&& *final(self) == (NoteWindow { palette: p, ..*old(self) })
                    &&& p.name() == name@
                    &&& !old(self).loading
                    &&& p != old(self).palette
                },
            },
    {
        match Palette::from_id(name) {
            Some(palette) => {
                if self.loading || self.palette == palette {
                    assert(palette.name() == name@);
                    PaletteChoice::Unchanged
                } else {
                    self.apply_palette(palette);
                    PaletteChoice::Changed(palette)
                }
            },
            None => PaletteChoice::Unknown,
        }
    }

    /// The pin button was pressed. The result is the new state to report;
    /// `None` while a note is being loaded.
    pub fn toggle_pin(&mut self) -> (r: Option<bool>)
        ensures
            if old(self).loading {
                r is None && *final(self) == *old(self)
            } else {
                &&& r == Some(!old(self).pinned)
                &&& *final(self) == (NoteWindow { pinned: !old(self).pinned, ..*old(self) })
            },
    {
        if self.loading {
            return None;
        }
        let pinned = !self.pinned;
        self.set_pinned(pinned);
        Some(pinned)
    }

    /// Is a change of the text the user's, and so to be reported?
    pub fn reports_edits(&self) -> (r: bool)
        ensures
            r == !self.loading,
    {
        !self.loading
    }

    /// Text is being deleted. Says whether to renumber the lists afterwards:
    /// not while a note is being loaded, nor when that is waiting already.
    pub fn text_deleted(&mut self) -> (r: bool)
        ensures
            r == (!old(self).loading && !old(self).renumber_queued),
            *final(self) == (NoteWindow {
                renumber_queued: old(self).renumber_queued || !old(self).loading,
                ..*old(self)
            }),
    {
        if self.loading {
            return false;
        }
        let waiting = self.renumber_queued;
        self.renumber_queued = true;
        !waiting
    }

    /// The renumbering that was waiting runs now.
    pub fn renumbering(&mut self)
        ensures
            *final(self) == (NoteWindow { renumber_queued: false, ..*old(self) }),
    {
        self.renumber_queued = false;
    }

    /// What to do when a note with this text is to be deleted. One with nothing
    /// on it goes straight into the bin; any other asks first, so that a slip
    /// cannot cost anything.
    pub fn confirm_delete(body: &str) -> (r: Deletion)
        ensures
            r == (if text::blank(body@) {
                Deletion::Now
            } else {
                Deletion::Ask
            }),
    {
        if text::is_blank(body) {
            Deletion::Now
        } else {
            Deletion::Ask
        }
    }

    /// Does this response to the question mean to delete the note?
    pub fn confirms(response: &str) -> (r: bool)
        ensures
            r == (response@ == "delete"@),
    {
        *response == *"delete"
    }

    /// The title of a window with this text.
    pub fn refresh_title(body: &str) -> (r: String)
        ensures
            r@ == note::title_of(body@),
    {
        note::title_for(body)
    }

    /// Is a swatch for the colour with this machine name the one to tick?
    pub fn swatch_active(&self, name: Option<&str>) -> (r: bool)
        ensures
            r == (match name {
                Some(s) => s@ == self.palette.name(),
                None => false,
            }),
    {
        match name {
            Some(s) => *s == *self.palette.id(),
            None => false,
        }
    }

    /// What the banner about saving says; `None` while saving works.
    pub fn save_banner(message: Option<&str>) -> (r: Option<String>)
        ensures
            match (r, message) {
                (Some(title), Some(m)) => title@ == "Notes are not being saved — "@ + m@,
                (None, None) => true,
                _ => false,
            },
    {
        match message {
            Some(m) => {
                let mut out = "Notes are not being saved — ".to_owned();
                out.append(m);
                Some(out)
            },
            None => None,
        }
    }
}

/// One colour at a time: of the swatches, exactly that of the
/// window's own colour is active.
pub proof fn one_swatch_is_active(w: NoteWindow, p: Palette)
    ensures
        (p.name() == w.palette.name()) == (p == w.palette),
{
    if p.name() == w.palette.name() {
        note::palette_names_are_distinct(p, w.palette);
    }
}

} // verus!
