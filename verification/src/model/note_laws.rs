//! What holds of notes: their size, identifiers, times, titles and colours.

use crate::clock;
use crate::model::markdown;
use crate::model::markdown_syntax_laws as syntax;
use crate::model::note;
use crate::model::note::{Note, NoteGeometry, Palette};
use crate::text;
use crate::text_laws;
use std::time::Duration;
use vstd::prelude::*;

verus! {

/// A size is made no smaller than 180 by 140 and is otherwise left alone, as
/// is everything else.
pub proof fn small_sizes_are_made_larger(g: NoteGeometry)
    ensures
        g.grown().monitor == g.monitor,
        g.grown().x == g.x && g.grown().y == g.y,
        g.width >= 180 ==> g.grown().width == g.width,
        g.width < 180 ==> g.grown().width == 180,
        g.height >= 140 ==> g.grown().height == g.height,
        g.height < 140 ==> g.grown().height == 140,
{
}

/// A new note is on screen, not pinned, was never placed, and was changed last
/// when it was made.
pub proof fn new_notes_are_blank(id: String, body: String, palette: Palette, now: i64)
    ensures
        ({
            let n = Note::blank(id, body, palette, now);
            &&& n.id == id && n.body == body && n.palette == palette
            &&& n.created == now && n.modified == now
            &&& n.visible && !n.pinned
            &&& n.geometry.monitor is None
            &&& n.geometry.x == 0 && n.geometry.y == 0
            &&& n.geometry.width == 300 && n.geometry.height == 320
        }),
{
}

// ---- identifiers and times ----

/// An identifier is the time in nanoseconds and the number of the note, both in
/// hexadecimal, with a dash between them.
pub proof fn identifiers_say_time_and_number(nanos: int, seq: int) -> (at: int)
    requires
        0 <= nanos,
        0 <= seq,
    ensures
        ({
            let id = note::id_text(nanos, seq);
            &&& 0 < at < id.len() - 1
            &&& id[at] == '-'
            &&& text_laws::well_written(id.take(at), 16)
            &&& text_laws::read_number(id.take(at), 16) == nanos
            &&& text_laws::well_written(id.skip(at + 1), 16)
            &&& text_laws::read_number(id.skip(at + 1), 16) == seq
        }),
{
    let id = note::id_text(nanos, seq);
    let at = text::numeral(nanos, 16).len() as int;
    text_laws::numbers_read_as_written(nanos, 16);
    text_laws::numbers_read_as_written(seq, 16);
    assert(id.take(at) =~= text::numeral(nanos, 16));
    assert(id.skip(at + 1) =~= text::numeral(seq, 16));
    at
}

/// A reading of the clock is as many nanoseconds as the clock shows.
pub proof fn readings_are_what_the_clock_shows(d: Duration)
    ensures
        clock::elapsed(Some(d)) == Some(clock::duration_nanos(d)),
        clock::elapsed(None) is None,
{
}

/// A time is stored in whole seconds after the epoch. A clock that is set
/// before it counts as the epoch.
pub proof fn times_are_whole_seconds(nanos: nat)
    ensures
        note::timestamp(None) == 0,
        clock::whole_seconds(None) == 0,
        clock::whole_nanos(None) == 0,
        clock::whole_nanos(Some(nanos)) == nanos,
        nanos < 0x7fff_ffff_ffff_ffff * 1_000_000_000 ==> {
            &&& note::timestamp(Some(nanos)) * 1_000_000_000 <= nanos
            &&& nanos < (note::timestamp(Some(nanos)) + 1) * 1_000_000_000
            &&& clock::whole_seconds(Some(nanos)) == note::timestamp(Some(nanos))
        },
{
}

// ---- titles ----

/// Is there nothing but white space from `hi` to the end of its line?
pub open spec fn white_up_to(s: Seq<char>, hi: int, end: int) -> bool {
    &&& hi <= end <= s.len()
    &&& end == s.len() || s[end] == '\n'
    &&& forall|i: int| hi <= i < end ==> text::white_space(#[trigger] s[i]) && s[i] != '\n'
}

/// Is `lo..hi` what the first line of `s` with something on it says, without
/// the white space around it?
pub open spec fn first_words(s: Seq<char>, lo: int, hi: int) -> bool {
    &&& 0 <= lo < hi <= s.len()
    &&& !text::white_space(s[lo]) && !text::white_space(s[hi - 1])
    &&& forall|i: int| 0 <= i < lo ==> text::white_space(#[trigger] s[i])
    &&& forall|i: int| lo <= i < hi ==> #[trigger] s[i] != '\n'
    &&& exists|end: int| #[trigger] white_up_to(s, hi, end)
}

proof fn lemma_first_words(s: Seq<char>, start: int, lo: int, hi: int)
    requires
        0 <= start <= lo,
        first_words(s, lo, hi),
        start == 0 || s[start - 1] == '\n',
    ensures
        note::first_line_from(s, start) == s.subrange(lo, hi),
    decreases s.len() - start,
{
    text::lemma_line_end(s, start);
    let end = text::line_end(s, start);
    let line = s.subrange(start, end);
    text::lemma_trimmed(line);
    if end <= lo {
        assert(end < s.len());
        assert forall|i: int| 0 <= i < line.len() implies text::white_space(
            #[trigger] line[i],
        ) by {
            assert(line[i] == s[start + i]);
        }
        assert(text::blank(line));
        if end == lo {
            assert(s[lo] == '\n');
            assert(false);
        }
        lemma_first_words(s, end + 1, lo, hi);
    } else {
        let last = choose|e: int| #[trigger] white_up_to(s, hi, e);
        assert(forall|i: int| lo <= i < last ==> s[i] != '\n');
        assert(end >= last) by {
            if end < last {
                assert(s[end] == '\n');
            }
        }
        assert(end == last) by {
            if last < end {
                assert(s[last] == '\n');
            }
        }
        assert forall|i: int| 0 <= i < lo - start implies text::white_space(#[trigger] line[i]) by {
            assert(line[i] == s[start + i]);
        }
        assert forall|i: int| hi - start <= i < line.len() implies text::white_space(
            #[trigger] line[i],
        ) by {
            assert(line[i] == s[start + i]);
        }
        text_laws::trimming_goes_up_to_the_text(line, lo - start, hi - start);
        assert(line.subrange(lo - start, hi - start) =~= s.subrange(lo, hi));
    }
}

/// A note is named after the first line with something on it, without syntax
/// and without the white space around it, if that has no more than 40
/// characters.
pub proof fn short_lines_are_titles(body: Seq<char>, lo: int, hi: int)
    requires
        first_words(markdown::stripped(body), lo, hi),
        hi - lo <= 40,
    ensures
        note::title_of(body) == markdown::stripped(body).subrange(lo, hi),
{
    lemma_first_words(markdown::stripped(body), 0, lo, hi);
}

/// Is `at` the last space in `s`?
pub open spec fn is_last_space(s: Seq<char>, at: int) -> bool {
    &&& 0 <= at < s.len() && s[at] == ' '
    &&& forall|i: int| at < i < s.len() ==> #[trigger] s[i] != ' '
}

proof fn lemma_last_space(s: Seq<char>)
    ensures
        match note::last_space(s) {
            Some(at) => is_last_space(s, at),
            None => forall|i: int| 0 <= i < s.len() ==> #[trigger] s[i] != ' ',
        },
    decreases s.len(),
{
    if s.len() > 0 && s.last() != ' ' {
        lemma_last_space(s.drop_last());
        match note::last_space(s.drop_last()) {
            Some(at) => {
                assert forall|i: int| at < i < s.len() implies #[trigger] s[i] != ' ' by {
                    if i < s.len() - 1 {
                        assert(s.drop_last()[i] != ' ');
                    }
                }
            },
            None => {
                assert forall|i: int| 0 <= i < s.len() implies #[trigger] s[i] != ' ' by {
                    if i < s.len() - 1 {
                        assert(s.drop_last()[i] != ' ');
                    }
                }
            },
        }
    }
}

/// A longer line is cut after 40 characters or, if there is a space in them
/// with at least 20 bytes before it, before the last space; and it ends in an
/// ellipsis.
pub proof fn long_lines_are_cut_between_words(body: Seq<char>, lo: int, hi: int, at: int)
    requires
        first_words(markdown::stripped(body), lo, hi),
        hi - lo > 40,
    ensures
        ({
            let head = markdown::stripped(body).subrange(lo, lo + 40);
            let title = note::title_of(body);
            &&& is_last_space(head, at) && text::utf8_len(head.take(at)) >= 20 ==> title
                == head.take(at).push('…')
            &&& is_last_space(head, at) && text::utf8_len(head.take(at)) < 20 ==> title
                == head.push('…')
            &&& (forall|i: int| 0 <= i < 40 ==> #[trigger] head[i] != ' ') ==> title == head.push(
                '…',
            )
        }),
{
    let plain = markdown::stripped(body);
    lemma_first_words(plain, 0, lo, hi);
    let head = plain.subrange(lo, lo + 40);
    assert(plain.subrange(lo, hi).take(40) =~= head);
    lemma_last_space(head);
    if let Some(k) = note::last_space(head) {
        if is_last_space(head, at) {
            assert(head[k] == ' ' && head[at] == ' ');
        }
    } else if is_last_space(head, at) {
        assert(head[at] == ' ');
    }
}

/// A note with nothing on it but syntax and white space has a placeholder for a
/// title.
pub proof fn notes_without_words_get_a_placeholder(body: Seq<char>)
    requires
        forall|i: int|
            0 <= i < markdown::stripped(body).len() ==> text::white_space(
                #[trigger] markdown::stripped(body)[i],
            ),
    ensures
        note::title_of(body) == "Empty Note"@,
{
    lemma_no_words(markdown::stripped(body), 0);
}

proof fn lemma_no_words(s: Seq<char>, start: int)
    requires
        0 <= start <= s.len(),
        forall|i: int| 0 <= i < s.len() ==> text::white_space(#[trigger] s[i]),
    ensures
        note::first_line_from(s, start).len() == 0,
    decreases s.len() - start,
{
    text::lemma_line_end(s, start);
    let end = text::line_end(s, start);
    text::lemma_trimmed(s.subrange(start, end));
    assert(text::blank(s.subrange(start, end)));
    if end < s.len() {
        lemma_no_words(s, end + 1);
    }
}

// ---- colours ----

/// The colours, in the order of the menu, each with the name that it is stored
/// under and the name that is shown.
pub proof fn the_colours_are(i: int)
    ensures
        Palette::ALL@ == seq![
            Palette::Yellow,
            Palette::Green,
            Palette::Blue,
            Palette::Purple,
            Palette::Pink,
            Palette::Orange,
            Palette::Gray,
        ],
        0 <= i < 7 ==> Palette::ALL@[i].name() == (seq![
            "yellow"@,
            "green"@,
            "blue"@,
            "purple"@,
            "pink"@,
            "orange"@,
            "gray"@,
        ])[i],
        0 <= i < 7 ==> Palette::ALL@[i].display_name() == (seq![
            "Yellow"@,
            "Green"@,
            "Blue"@,
            "Purple"@,
            "Pink"@,
            "Orange"@,
            "Grey"@,
        ])[i],
{
    assert(Palette::ALL@ =~= seq![
        Palette::Yellow,
        Palette::Green,
        Palette::Blue,
        Palette::Purple,
        Palette::Pink,
        Palette::Orange,
        Palette::Gray,
    ]);
}

/// How many notes have a colour is how many there are with it: adding a note
/// counts for its own colour and for no other.
pub proof fn colours_are_counted(notes: Seq<Note>, note: Note, palette: Palette)
    ensures
        note::uses(seq![], palette) == 0,
        note::uses(notes.push(note), palette) - note::uses(notes, palette) == if note.palette
            == palette {
            1int
        } else {
            0
        },
{
    assert(notes.push(note).drop_last() =~= notes);
}

/// The colour for a new note is one that no other is used less than, and the
/// first such in the menu.
pub proof fn the_least_used_colour_is_chosen(notes: Seq<Note>, chosen: Palette, i: int, j: int)
    requires
        note::least_used(notes, chosen),
        0 <= i < 7,
        0 <= j < 7,
        Palette::ALL@[j] == chosen,
    ensures
        note::uses(notes, chosen) <= note::uses(notes, Palette::ALL@[i]),
        i < j ==> note::uses(notes, chosen) < note::uses(notes, Palette::ALL@[i]),
{
    let other = Palette::ALL@[i];
    assert(note::uses(notes, chosen) <= note::uses(notes, other));
    assert(other.rank() == i);
    assert(chosen.rank() == j);
}

/// What is written on a note decides its title whatever the syntax around it:
/// two notes with the same text without syntax have the same title.
pub proof fn syntax_does_not_show_in_titles(a: Seq<char>, b: Seq<char>)
    requires
        markdown::stripped(a) == markdown::stripped(b),
    ensures
        note::title_of(a) == note::title_of(b),
{
}

/// The title of a note is made of its own characters, and of none that is
/// hidden: each character of a title that is not cut is one that is kept.
pub proof fn titles_show_nothing_hidden(body: Seq<char>, lo: int, hi: int, i: int) -> (at: int)
    requires
        first_words(markdown::stripped(body), lo, hi),
        hi - lo <= 40,
        0 <= i < hi - lo,
    ensures
        0 <= at < body.len(),
        note::title_of(body)[i] == body[at],
        !syntax::covered(markdown::markup(body).markers, at),
        !syntax::on_a_bullet(body, at),
{
    short_lines_are_titles(body, lo, hi);
    let p = syntax::stripping_drops_syntax_and_bullets(body);
    assert(p.contains(p[lo + i]));
    p[lo + i]
}

} // verus!
