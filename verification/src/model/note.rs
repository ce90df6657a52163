//! The note itself: content, colour, and remembered geometry.

use crate::clock;
use crate::model::markdown;
use crate::text;
use std::time::{Duration, SystemTime};
use vstd::prelude::*;
use vstd::slice::slice_subrange;
use vstd::string::StringExecFns;

verus! {

/// Size of a freshly created note, in logical pixels.
pub const DEFAULT_WIDTH: i32 = 300;

pub const DEFAULT_HEIGHT: i32 = 320;

/// A note is never smaller than this; below it the text view is unusable.
pub const MIN_WIDTH: i32 = 180;

pub const MIN_HEIGHT: i32 = 140;

/// Where a note wants to sit.
///
/// `x` and `y` count from the origin of the monitor's work area, not from that
/// of the whole desktop. Unplugging a monitor, changing its resolution or
/// rearranging the layout moves the work area, and the note moves with it.
#[derive(Debug, PartialEq, Eq)]
pub struct NoteGeometry {
    /// Connector of the monitor the note was last on (`"DP-1"`, `"eDP-1"`), or
    /// `None` for a note that was never placed.
    pub monitor: Option<String>,
    pub x: i32,
    pub y: i32,
    pub width: i32,
    pub height: i32,
}

/// A copy of an optional string.
pub(crate) fn clone_name(name: &Option<String>) -> (r: Option<String>)
    ensures
        r == *name,
{
    match name {
        Some(s) => Some(s.clone()),
        None => None,
    }
}

impl Clone for NoteGeometry {
    fn clone(&self) -> (r: Self)
        ensures
            r == *self,
    {
        NoteGeometry {
            monitor: clone_name(&self.monitor),
            x: self.x,
            y: self.y,
            width: self.width,
            height: self.height,
        }
    }
}

impl Default for NoteGeometry {
    fn default() -> (r: Self)
        ensures
            r == NoteGeometry::unplaced(),
    {
        NoteGeometry { monitor: None, x: 0, y: 0, width: DEFAULT_WIDTH, height: DEFAULT_HEIGHT }
    }
}

impl NoteGeometry {
    /// The geometry of a note that was never placed.
    pub open spec fn unplaced() -> NoteGeometry {
        NoteGeometry { monitor: None, x: 0, y: 0, width: DEFAULT_WIDTH, height: DEFAULT_HEIGHT }
    }

    /// The same geometry, no smaller than a note may be.
    pub open spec fn grown(self) -> NoteGeometry {
        NoteGeometry {
            width: if self.width < MIN_WIDTH {
                MIN_WIDTH
            } else {
                self.width
            },
            height: if self.height < MIN_HEIGHT {
                MIN_HEIGHT
            } else {
                self.height
            },
            ..self
        }
    }

    /// Clamp the stored size into the range a note window can actually take.
    /// Sizes come from disk and from the compositor, so neither is trusted.
    pub fn normalized(&self) -> (r: Self)
        ensures
            r == self.grown(),
    {
        NoteGeometry {
            monitor: clone_name(&self.monitor),
            x: self.x,
            y: self.y,
            width: if self.width < MIN_WIDTH {
                MIN_WIDTH
            } else {
                self.width
            },
            height: if self.height < MIN_HEIGHT {
                MIN_HEIGHT
            } else {
                self.height
            },
        }
    }
}

/// Normalising twice is normalising once, and a normalised size is large
/// enough for a note.
pub proof fn normalising_is_idempotent(g: NoteGeometry)
    ensures
        g.grown().grown() == g.grown(),
        g.grown().width >= MIN_WIDTH,
        g.grown().height >= MIN_HEIGHT,
{
}

/// The colour of a note. A fixed palette: colour is there for fast visual
/// grouping, and seven distinguishable colours do that well.
#[derive(Debug, Clone, Copy, PartialEq, Eq, Hash, Structural)]
pub enum Palette {
    Yellow,
    Green,
    Blue,
    Purple,
    Pink,
    Orange,
    Gray,
}

impl Default for Palette {
    fn default() -> (r: Self)
        ensures
            r == Palette::Yellow,
    {
        Palette::Yellow
    }
}

impl Palette {
    /// Every colour, in the order of the colour menu.
    pub const ALL: [Palette; 7] = [
        Palette::Yellow,
        Palette::Green,
        Palette::Blue,
        Palette::Purple,
        Palette::Pink,
        Palette::Orange,
        Palette::Gray,
    ];

    /// The stable machine name.
    pub open spec fn name(self) -> Seq<char> {
        match self {
            Palette::Yellow => "yellow"@,
            Palette::Green => "green"@,
            Palette::Blue => "blue"@,
            Palette::Purple => "purple"@,
            Palette::Pink => "pink"@,
            Palette::Orange => "orange"@,
            Palette::Gray => "gray"@,
        }
    }

    /// The name shown in the colour menu.
    pub open spec fn display_name(self) -> Seq<char> {
        match self {
            Palette::Yellow => "Yellow"@,
            Palette::Green => "Green"@,
            Palette::Blue => "Blue"@,
            Palette::Purple => "Purple"@,
            Palette::Pink => "Pink"@,
            Palette::Orange => "Orange"@,
            Palette::Gray => "Grey"@,
        }
    }

    /// Stable machine name: the CSS class suffix, the action target and the
    /// serialised form.
    pub fn id(self) -> (r: &'static str)
        ensures
            r@ == self.name(),
    {
        match self {
            Palette::Yellow => "yellow",
            Palette::Green => "green",
            Palette::Blue => "blue",
            Palette::Purple => "purple",
            Palette::Pink => "pink",
            Palette::Orange => "orange",
            Palette::Gray => "gray",
        }
    }

    /// Display name for the colour menu.
    pub fn label(self) -> (r: &'static str)
        ensures
            r@ == self.display_name(),
    {
        match self {
            Palette::Yellow => "Yellow",
            Palette::Green => "Green",
            Palette::Blue => "Blue",
            Palette::Purple => "Purple",
            Palette::Pink => "Pink",
            Palette::Orange => "Orange",
            Palette::Gray => "Grey",
        }
    }

    /// The CSS class of a note window in this colour.
    pub fn css_class(self) -> (r: String)
        ensures
            r@ == "note-"@ + self.name(),
    {
        let mut out = "note-".to_owned();
        out.append(self.id());
        out
    }

    /// The colour with this machine name.
    pub fn from_id(id: &str) -> (r: Option<Palette>)
        ensures
            match r {
                Some(p) => p.name() == id@,
                None => forall|p: Palette| #[trigger] p.name() != id@,
            },
    {
        let mut i: usize = 0;
        while i < 7
            invariant
                0 <= i <= 7,
                forall|j: int| 0 <= j < i ==> (#[trigger] Palette::ALL@[j]).name() != id@,
            decreases 7 - i,
        {
            let palette = Palette::ALL[i];
            if *palette.id() == *id {
                return Some(palette);
            }
            i += 1;
        }
        proof {
            assert forall|p: Palette| #[trigger] p.name() != id@ by {
                assert(Palette::ALL@[p.rank()] == p);
            }
        }
        None
    }

    /// Where the colour stands in the menu.
    pub open spec fn rank(self) -> int {
        match self {
            Palette::Yellow => 0,
            Palette::Green => 1,
            Palette::Blue => 2,
            Palette::Purple => 3,
            Palette::Pink => 4,
            Palette::Orange => 5,
            Palette::Gray => 6,
        }
    }
}

/// Reading back the machine name of a colour gives the colour: no two colours
/// share a name.
pub proof fn palette_names_are_distinct(p: Palette, q: Palette)
    requires
        p.name() == q.name(),
    ensures
        p == q,
{
    reveal_strlit("yellow");
    reveal_strlit("green");
    reveal_strlit("blue");
    reveal_strlit("purple");
    reveal_strlit("pink");
    reveal_strlit("orange");
    reveal_strlit("gray");
    assert("yellow"@.len() == 6 && "yellow"@[0] == 'y');
    assert("green"@.len() == 5 && "green"@[0] == 'g');
    assert("blue"@.len() == 4 && "blue"@[0] == 'b');
    assert("purple"@.len() == 6 && "purple"@[0] == 'p');
    assert("pink"@.len() == 4 && "pink"@[0] == 'p');
    assert("orange"@.len() == 6 && "orange"@[0] == 'o');
    assert("gray"@.len() == 4 && "gray"@[0] == 'g');
}

/// One sticky note, exactly as it is persisted.
#[derive(Debug, PartialEq, Eq)]
pub struct Note {
    pub id: String,
    pub body: String,
    pub palette: Palette,
    pub geometry: NoteGeometry,
    /// Whether the note's window was open when the app last exited. Closing a
    /// note hides it; it stays in the store and comes back with "Show All".
    pub visible: bool,
    /// Keep the note above other windows.
    pub pinned: bool,
    pub created: i64,
    pub modified: i64,
}

impl Clone for Note {
    fn clone(&self) -> (r: Self)
        ensures
            r == *self,
    {
        Note {
            id: self.id.clone(),
            body: self.body.clone(),
            palette: self.palette,
            geometry: self.geometry.clone(),
            visible: self.visible,
            pinned: self.pinned,
            created: self.created,
            modified: self.modified,
        }
    }
}

/// Whether a note is visible when its record does not say.
pub fn default_true() -> (r: bool)
    ensures
        r,
{
    true
}

// ---- identity ----

/// The identifier of a note made at `nanos` as number `seq` of this run.
pub open spec fn id_text(nanos: int, seq: int) -> Seq<char> {
    text::numeral(nanos, 16) + seq!['-'] + text::numeral(seq, 16)
}

/// Hands out note identifiers.
///
/// Only the one running instance ever creates notes, so a counter combined
/// with the time of creation is enough to tell notes apart.
#[derive(Debug)]
pub struct IdSource {
    /// How many identifiers this run has handed out.
    pub next: u64,
}

impl IdSource {
    /// A source that has handed out nothing yet.
    pub fn new() -> (r: IdSource)
        ensures
            r.next == 0,
    {
        IdSource { next: 0 }
    }

    /// The identifier of a note made this many nanoseconds after the epoch.
    pub fn id_from(&mut self, nanos: u128) -> (r: String)
        ensures
            r@ == id_text(nanos as int, old(self).next as int),
            final(self).next == old(self).next.wrapping_add(1),
    {
        let mut out = String::new();
        text::push_numeral(&mut out, nanos, 16);
        out.push('-');
        text::push_numeral(&mut out, self.next as u128, 16);
        self.next = self.next.wrapping_add(1);
        assert(out@ =~= id_text(nanos as int, old(self).next as int));
        out
    }

    /// The identifier of a note made when the clock read `reading`.
    pub fn id_at(&mut self, reading: Option<Duration>) -> (r: String)
        ensures
            r@ == id_text(
                clock::whole_nanos(clock::elapsed(reading)) as int,
                old(self).next as int,
            ),
            final(self).next == old(self).next.wrapping_add(1),
    {
        self.id_from(clock::nanoseconds(reading))
    }

    /// The identifier of a note made now.
    pub fn generate_id(&mut self) -> (r: String)
        ensures
            exists|t: SystemTime|
                r@ == id_text(
                    clock::whole_nanos(#[trigger] clock::epoch_nanos(t)) as int,
                    old(self).next as int,
                ),
            final(self).next == old(self).next.wrapping_add(1),
    {
        let reading = clock::now();
        self.id_at(reading)
    }
}

/// No two identifiers are equal unless both the time and the number are.
/// Identifiers with different numbers differ whatever the clock says.
pub proof fn ids_are_unique(nanos: int, seq: int, other_nanos: int, other_seq: int)
    requires
        0 <= nanos,
        0 <= seq,
        0 <= other_nanos,
        0 <= other_seq,
        id_text(nanos, seq) == id_text(other_nanos, other_seq),
    ensures
        nanos == other_nanos,
        seq == other_seq,
{
    let a = text::numeral(nanos, 16);
    let b = text::numeral(other_nanos, 16);
    let x = id_text(nanos, seq);
    let y = id_text(other_nanos, other_seq);
    text::lemma_numeral_digits(nanos, 16);
    text::lemma_numeral_digits(other_nanos, 16);
    if a.len() < b.len() {
        assert(x[a.len() as int] == '-');
        assert(y[a.len() as int] == b[a.len() as int]);
    }
    if b.len() < a.len() {
        assert(y[b.len() as int] == '-');
        assert(x[b.len() as int] == a[b.len() as int]);
    }
    assert(a =~= b) by {
        assert forall|i: int| 0 <= i < a.len() implies a[i] == b[i] by {
            assert(x[i] == y[i]);
        }
    }
    let c = text::numeral(seq, 16);
    let d = text::numeral(other_seq, 16);
    assert(c =~= d) by {
        assert(x.len() == a.len() + 1 + c.len());
        assert(y.len() == b.len() + 1 + d.len());
        assert forall|i: int| 0 <= i < c.len() implies c[i] == d[i] by {
            assert(x[a.len() + 1 + i] == y[a.len() + 1 + i]);
        }
    }
    text::lemma_numeral_injective(nanos, other_nanos, 16);
    text::lemma_numeral_injective(seq, other_seq, 16);
}

/// The seconds in this many nanoseconds after the epoch, as a note stores them.
pub open spec fn timestamp(nanos: Option<nat>) -> i64 {
    clock::whole_seconds(nanos) as i64
}

/// Seconds since the epoch in a reading of the clock, as a note stores them.
pub fn stamp(reading: Option<Duration>) -> (r: i64)
    ensures
        r == timestamp(clock::elapsed(reading)),
{
    clock::seconds(reading) as i64
}

/// Seconds since the epoch now; 0 on a clock that is set before it.
pub fn now_secs() -> (r: i64)
    ensures
        exists|t: SystemTime| r == timestamp(#[trigger] clock::epoch_nanos(t)),
{
    let reading = clock::now();
    stamp(reading)
}

// ---- titles ----

/// A title shows no more characters than this, before the ellipsis.
pub const MAX_TITLE: usize = 40;

/// The first line at or after `start` with something on it, trimmed; nothing
/// when there is none.
pub open spec fn first_line_from(text: Seq<char>, start: int) -> Seq<char>
    decreases text.len() - start,
{
    let end = text::line_end(text, start);
    let line = text::trimmed(text.subrange(start, end));
    if line.len() > 0 || !(start <= end < text.len()) {
        line
    } else {
        first_line_from(text, end + 1)
    }
}

/// Index of the last space in `s`.
pub open spec fn last_space(s: Seq<char>) -> Option<int>
    decreases s.len(),
{
    if s.len() == 0 {
        None
    } else if s.last() == ' ' {
        Some(s.len() - 1)
    } else {
        last_space(s.drop_last())
    }
}

/// `head` cut at its last space, unless that leaves under half a title. What
/// is left is measured in bytes of UTF-8.
pub open spec fn cut_at_word(head: Seq<char>) -> Seq<char> {
    match last_space(head) {
        Some(at) if text::utf8_len(head.take(at)) >= MAX_TITLE / 2 => head.take(at),
        _ => head,
    }
}

/// The title of a note with this first line.
pub open spec fn title_of_line(first: Seq<char>) -> Seq<char> {
    if first.len() == 0 {
        "Empty Note"@
    } else if first.len() <= MAX_TITLE {
        first
    } else {
        cut_at_word(first.take(MAX_TITLE as int)).push('…')
    }
}

/// The title of a note with this body: its first line with something on it,
/// without Markdown syntax.
pub open spec fn title_of(body: Seq<char>) -> Seq<char> {
    title_of_line(first_line_from(markdown::stripped(body), 0))
}

/// Where `cut_at_word` cuts.
fn word_cut(head: &[char]) -> (r: usize)
    requires
        head@.len() == MAX_TITLE,
    ensures
        r <= head@.len(),
        head@.take(r as int) == cut_at_word(head@),
{
    let total: usize = head.len();
    let mut at: usize = total;
    assert(head@.take(at as int) =~= head@);
    while at > 0 && head[at - 1] != ' '
        invariant
            at <= total == head@.len(),
            last_space(head@) == last_space(head@.take(at as int)),
        decreases at,
    {
        assert(head@.take(at as int).drop_last() =~= head@.take(at - 1));
        at -= 1;
    }
    if at == 0 {
        return total;
    }
    assert(last_space(head@) == Some(at - 1));
    let mut bytes: usize = 0;
    let mut i: usize = 0;
    while i < at - 1
        invariant
            i <= at - 1 < head@.len() == MAX_TITLE,
            bytes == text::utf8_len(head@.take(i as int)),
            bytes <= 4 * i,
        decreases at - i,
    {
        assert(head@.take(i + 1).drop_last() =~= head@.take(i as int));
        bytes += text::utf8_width_of(head[i]);
        i += 1;
    }
    if bytes >= MAX_TITLE / 2 {
        at - 1
    } else {
        total
    }
}

/// The title of a note with this body.
pub fn title_for(body: &str) -> (r: String)
    ensures
        r@ == title_of(body@),
{
    let plain = markdown::strip(body);
    let chars = text::chars_of(plain.as_str());
    let total: usize = chars.len();
    let mut start: usize = 0;
    loop
        invariant
            start <= total == chars@.len(),
            chars@ == markdown::stripped(body@),
            title_of(body@) == title_of_line(first_line_from(chars@, start as int)),
        decreases total - start,
    {
        let end: usize = text::find_line_end(chars.as_slice(), start);
        proof {
            text::lemma_line_end(chars@, start as int);
        }
        let line = slice_subrange(chars.as_slice(), start, end);
        let (from, to) = text::trim(line);
        let ghost first = text::trimmed(line@);
        if from < to {
            assert(first_line_from(chars@, start as int) == first);
            if to - from <= MAX_TITLE {
                return text::string_of(line, from, to);
            }
            let head = slice_subrange(line, from, from + MAX_TITLE);
            assert(head@ =~= first.take(MAX_TITLE as int));
            let cut: usize = word_cut(head);
            let mut out = text::string_of(head, 0, cut);
            assert(out@ =~= head@.take(cut as int));
            out.push('…');
            return out;
        }
        assert(first.len() == 0);
        if end >= total {
            return "Empty Note".to_owned();
        }
        start = end + 1;
    }
}

impl Note {
    /// A new, empty, visible note.
    pub open spec fn blank(id: String, body: String, palette: Palette, now: i64) -> Note {
        Note {
            id,
            body,
            palette,
            geometry: NoteGeometry::unplaced(),
            visible: true,
            pinned: false,
            created: now,
            modified: now,
        }
    }

    /// A new, empty, visible note with this identifier, made at `now`.
    pub fn created_at(id: String, palette: Palette, now: i64) -> (r: Note)
        ensures
            r == Note::blank(id, r.body, palette, now),
            r.body@ == Seq::<char>::empty(),
    {
        Note {
            id,
            body: String::new(),
            palette,
            geometry: NoteGeometry::default(),
            visible: true,
            pinned: false,
            created: now,
            modified: now,
        }
    }

    /// A new, empty, visible note with a generated identifier.
    pub fn new(palette: Palette, ids: &mut IdSource) -> (r: Note)
        ensures
            r == Note::blank(r.id, r.body, palette, r.created),
            r.body@ == Seq::<char>::empty(),
            exists|t: SystemTime| r.created == timestamp(#[trigger] clock::epoch_nanos(t)),
            exists|t: SystemTime|
                r.id@ == id_text(
                    clock::whole_nanos(#[trigger] clock::epoch_nanos(t)) as int,
                    old(ids).next as int,
                ),
            final(ids).next == old(ids).next.wrapping_add(1),
    {
        let now: i64 = now_secs();
        let id = ids.generate_id();
        Note::created_at(id, palette, now)
    }

    /// One-line summary for window titles, the notes list and screen readers.
    ///
    /// Markdown syntax is stripped: a title bar reading "# Heading" advertises
    /// the file format rather than the note. A blank note gets a placeholder,
    /// so that it is still identifiable.
    pub fn title(&self) -> (r: String)
        ensures
            r@ == title_of(self.body@),
    {
        title_for(self.body.as_str())
    }

    /// Record that the note changed at `now`.
    pub fn touch_at(&mut self, now: i64)
        ensures
            *final(self) == (Note { modified: now, ..*old(self) }),
    {
        self.modified = now;
    }

    /// Record that the note changed now.
    pub fn touch(&mut self)
        ensures
            *final(self) == (Note { modified: final(self).modified, ..*old(self) }),
            exists|t: SystemTime|
                final(self).modified == timestamp(#[trigger] clock::epoch_nanos(t)),
    {
        let now: i64 = now_secs();
        self.touch_at(now);
    }
}

// ---- titles, in general ----

proof fn lemma_first_line(text: Seq<char>, start: int)
    requires
        0 <= start <= text.len(),
    ensures
        forall|i: int|
            0 <= i < first_line_from(text, start).len() ==> #[trigger] first_line_from(
                text,
                start,
            )[i] != '\n',
        text::blank(text) ==> first_line_from(text, start).len() == 0,
    decreases text.len() - start,
{
    text::lemma_line_end(text, start);
    let end = text::line_end(text, start);
    let raw = text.subrange(start, end);
    let line = text::trimmed(raw);
    text::lemma_trimmed(raw);
    assert forall|i: int| 0 <= i < line.len() implies #[trigger] line[i] != '\n' by {
        assert(line.contains(line[i]));
        assert(raw.contains(line[i]));
        let j = choose|j: int| 0 <= j < raw.len() && raw[j] == line[i];
        assert(raw[j] == text[start + j]);
    }
    if text::blank(text) {
        assert(text::blank(raw));
    }
    if line.len() == 0 && end < text.len() {
        lemma_first_line(text, end + 1);
        assert(first_line_from(text, start) == first_line_from(text, end + 1));
    } else {
        assert(first_line_from(text, start) == line);
    }
}

proof fn lemma_last_space(s: Seq<char>)
    ensures
        last_space(s) matches Some(at) ==> 0 <= at < s.len() && s[at] == ' ',
    decreases s.len(),
{
    if s.len() > 0 && s.last() != ' ' {
        lemma_last_space(s.drop_last());
    }
}

/// A title is never empty, never longer than the limit and an ellipsis, and
/// never more than one line.
pub proof fn titles_are_short_single_lines(body: Seq<char>)
    ensures
        1 <= title_of(body).len() <= MAX_TITLE + 1,
        forall|i: int| 0 <= i < title_of(body).len() ==> #[trigger] title_of(body)[i] != '\n',
{
    let first = first_line_from(markdown::stripped(body), 0);
    lemma_first_line(markdown::stripped(body), 0);
    reveal_strlit("Empty Note");
    if first.len() > MAX_TITLE {
        lemma_last_space(first.take(MAX_TITLE as int));
        let cut = cut_at_word(first.take(MAX_TITLE as int));
        assert forall|i: int| 0 <= i < title_of(body).len() implies #[trigger] title_of(body)[i]
            != '\n' by {
            if i < cut.len() {
                assert(title_of(body)[i] == first[i]);
            }
        }
    }
}

/// A title that was cut is the start of the line, ends in an ellipsis, and
/// when it was cut between words no space is left before the ellipsis.
pub proof fn cut_titles_start_the_line(first: Seq<char>)
    requires
        first.len() > MAX_TITLE,
    ensures
        title_of_line(first).last() == '…',
        title_of_line(first).drop_last().len() <= MAX_TITLE,
        title_of_line(first).drop_last() == first.take(
            title_of_line(first).drop_last().len() as int,
        ),
        title_of_line(first).drop_last().len() < MAX_TITLE ==> first[title_of_line(
            first,
        ).drop_last().len() as int] == ' ',
{
    let head = first.take(MAX_TITLE as int);
    lemma_last_space(head);
    let cut = cut_at_word(head);
    assert(title_of_line(first).drop_last() =~= cut);
    assert(cut =~= first.take(cut.len() as int));
}

/// A blank note is titled with the placeholder.
pub proof fn blank_notes_get_a_placeholder(body: Seq<char>)
    requires
        text::blank(body),
    ensures
        title_of(body) == "Empty Note"@,
{
    let plain = markdown::stripped(body);
    lemma_stripped_blank(body, body.len() as int);
    lemma_first_line(plain, 0);
}

proof fn lemma_stripped_blank(body: Seq<char>, n: int)
    requires
        text::blank(body),
        0 <= n <= body.len(),
    ensures
        text::blank(markdown::stripped_prefix(body, n)),
    decreases n,
{
    if n > 0 {
        lemma_stripped_blank(body, n - 1);
    }
}

// ---- choosing a colour ----

/// How many of `notes` have this colour.
pub open spec fn uses(notes: Seq<Note>, palette: Palette) -> int
    decreases notes.len(),
{
    if notes.len() == 0 {
        0
    } else {
        uses(notes.drop_last(), palette) + if notes.last().palette == palette {
            1int
        } else {
            0
        }
    }
}

/// Is `palette` the first in the menu that no colour is used less than?
pub open spec fn least_used(notes: Seq<Note>, palette: Palette) -> bool {
    forall|other: Palette|
        {
            &&& uses(notes, palette) <= #[trigger] uses(notes, other)
            &&& other.rank() < palette.rank() ==> uses(notes, palette) < uses(notes, other)
        }
}

fn count_uses(notes: &[Note], palette: Palette) -> (r: usize)
    ensures
        r == uses(notes@, palette),
{
    let mut n: usize = 0;
    let mut i: usize = 0;
    assert(notes@.take(0) =~= seq![]);
    while i < notes.len()
        invariant
            i <= notes@.len(),
            n <= i,
            n == uses(notes@.take(i as int), palette),
        decreases notes@.len() - i,
    {
        assert(notes@.take(i + 1).drop_last() =~= notes@.take(i as int));
        if notes[i].palette == palette {
            n += 1;
        }
        i += 1;
    }
    assert(notes@.take(i as int) =~= notes@);
    n
}

/// The colour a new note should take, given the notes that already exist.
///
/// The least used colour, so that a fresh one is chosen while any remain
/// unused and the spread stays even afterwards. Ties break toward the order of
/// [`Palette::ALL`]: the same notes always yield the same next colour.
pub fn least_used_palette(notes: &[Note]) -> (r: Palette)
    ensures
        least_used(notes@, r),
{
    let mut best = Palette::ALL[0];
    let mut fewest: usize = count_uses(notes, best);
    let mut i: usize = 1;
    while i < 7
        invariant
            1 <= i <= 7,
            fewest == uses(notes@, best),
            best.rank() < i,
            forall|j: int|
                0 <= j < i ==> if j < best.rank() {
                    uses(notes@, best) < uses(notes@, #[trigger] Palette::ALL@[j])
                } else {
                    uses(notes@, best) <= uses(notes@, Palette::ALL@[j])
                },
        decreases 7 - i,
    {
        let palette = Palette::ALL[i];
        let n: usize = count_uses(notes, palette);
        if n < fewest {
            best = palette;
            fewest = n;
        }
        i += 1;
    }
    proof {
        assert forall|other: Palette|
            {
                &&& uses(notes@, best) <= #[trigger] uses(notes@, other)
                &&& other.rank() < best.rank() ==> uses(notes@, best) < uses(notes@, other)
            } by {
            assert(Palette::ALL@[other.rank()] == other);
        }
    }
    best
}

/// The choice is deterministic: exactly one colour is the least used one.
pub proof fn least_used_is_unique(notes: Seq<Note>, p: Palette, q: Palette)
    requires
        least_used(notes, p),
        least_used(notes, q),
    ensures
        p == q,
{
    assert(uses(notes, p) == uses(notes, q));
}

/// While a colour is unused, the choice is an unused colour.
pub proof fn unused_colours_go_first(notes: Seq<Note>, chosen: Palette, unused: Palette)
    requires
        least_used(notes, chosen),
        uses(notes, unused) == 0,
    ensures
        uses(notes, chosen) == 0,
{
    lemma_uses_nonnegative(notes, chosen);
}

/// Are the colours used equally often, give or take one?
pub open spec fn evenly_spread(notes: Seq<Note>) -> bool {
    forall|p: Palette, q: Palette| #[trigger] uses(notes, p) <= #[trigger] uses(notes, q) + 1
}

/// Colouring each new note with the least used colour keeps the spread even.
pub proof fn the_spread_stays_even(notes: Seq<Note>, note: Note)
    requires
        evenly_spread(notes),
        least_used(notes, note.palette),
    ensures
        evenly_spread(notes.push(note)),
{
    let more = notes.push(note);
    assert(more.drop_last() =~= notes);
    assert forall|p: Palette, q: Palette| #[trigger] uses(more, p) <= #[trigger] uses(more, q)
        + 1 by {
        assert(uses(notes, p) <= uses(notes, q) + 1);
        assert(uses(notes, note.palette) <= uses(notes, q));
    }
}

proof fn lemma_uses_nonnegative(notes: Seq<Note>, palette: Palette)
    ensures
        0 <= uses(notes, palette) <= notes.len(),
    decreases notes.len(),
{
    if notes.len() > 0 {
        lemma_uses_nonnegative(notes.drop_last(), palette);
    }
}

} // verus!
