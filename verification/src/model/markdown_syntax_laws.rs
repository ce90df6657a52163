//! What each piece of syntax comes to, said of the text itself.

use crate::model::markdown;
use crate::model::markdown_laws as laws;
use crate::model::markdown::{Inline, Markup, Parsed, Style, StyledRun, SyntaxRun};
use crate::text;
use vstd::prelude::*;

verus! {

// ---- moving markup along ----

/// The same runs, `by` characters further on.
pub open spec fn shifted(m: Markup, by: int) -> Markup {
    Markup {
        spans: m.spans.map_values(
            |s: StyledRun| StyledRun { start: s.start + by, end: s.end + by, style: s.style },
        ),
        markers: m.markers.map_values(
            |s: SyntaxRun| SyntaxRun { start: s.start + by, end: s.end + by },
        ),
    }
}

/// A styled run, unless there is nothing in it.
pub open spec fn styled(start: int, end: int, style: Style) -> Seq<StyledRun> {
    if start < end {
        seq![StyledRun { start, end, style }]
    } else {
        seq![]
    }
}

/// A hidden run, unless there is nothing in it.
pub open spec fn hidden(start: int, end: int) -> Seq<SyntaxRun> {
    if start < end {
        seq![SyntaxRun { start, end }]
    } else {
        seq![]
    }
}

/// These runs, and then those of `m`.
pub open spec fn before(spans: Seq<StyledRun>, markers: Seq<SyntaxRun>, m: Markup) -> Markup {
    Markup { spans: spans + m.spans, markers: markers + m.markers }
}

proof fn lemma_shift_then(a: Markup, b: Markup, by: int)
    ensures
        shifted(a.then_markup(b), by) == shifted(a, by).then_markup(shifted(b, by)),
{
    assert(shifted(a.then_markup(b), by) =~= shifted(a, by).then_markup(shifted(b, by)));
}

proof fn lemma_shift_twice(m: Markup, a: int, b: int)
    ensures
        shifted(shifted(m, a), b) == shifted(m, a + b),
        shifted(m, 0) == m,
{
    assert(shifted(shifted(m, a), b) =~= shifted(m, a + b));
    assert(shifted(m, 0) =~= m);
}

proof fn lemma_shift_run(start: int, end: int, style: Style, by: int)
    ensures
        shifted(Markup::span(start, end, style), by) == Markup::span(start + by, end + by, style),
        shifted(Markup::marker(start, end), by) == Markup::marker(start + by, end + by),
        shifted(Markup::none(), by) == Markup::none(),
{
    assert(shifted(Markup::span(start, end, style), by) =~= Markup::span(
        start + by,
        end + by,
        style,
    ));
    assert(shifted(Markup::marker(start, end), by) =~= Markup::marker(start + by, end + by));
    assert(shifted(Markup::none(), by) =~= Markup::none());
}

proof fn lemma_shift_inline(line: Seq<char>, i: int, offset: int, by: int)
    ensures
        markdown::inline_markup(line, i, offset + by) == shifted(
            markdown::inline_markup(line, i, offset),
            by,
        ),
    decreases line.len() - i,
{
    lemma_shift_run(0, 0, Style::Bold, by);
    if i < line.len() {
        match markdown::inline_at(line, i) {
            Some(found) => if i < found.end <= line.len() {
                lemma_shift_inline(line, found.end, offset, by);
                let open = Markup::marker(offset + i, offset + found.content_start);
                let body = Markup::span(
                    offset + found.content_start,
                    offset + found.content_end,
                    found.style,
                );
                let close = Markup::marker(offset + found.content_end, offset + found.end);
                lemma_shift_run(offset + i, offset + found.content_start, Style::Bold, by);
                lemma_shift_run(
                    offset + found.content_start,
                    offset + found.content_end,
                    found.style,
                    by,
                );
                lemma_shift_run(offset + found.content_end, offset + found.end, Style::Bold, by);
                lemma_shift_then(open, body, by);
                lemma_shift_then(open.then_markup(body), close, by);
                lemma_shift_then(
                    found.markup(i, offset),
                    markdown::inline_markup(line, found.end, offset),
                    by,
                );
                assert(offset + by + i == offset + i + by);
                assert(found.markup(i, offset + by) == shifted(found.markup(i, offset), by));
            },
            None => lemma_shift_inline(line, i + 1, offset, by),
        }
    }
}

proof fn lemma_shift_line(line: Seq<char>, offset: int, levels: Seq<int>, by: int)
    ensures
        markdown::line_markup(line, offset + by, levels) == shifted(
            markdown::line_markup(line, offset, levels),
            by,
        ),
{
    lemma_shift_run(0, 0, Style::Bold, by);
    if line.len() > 0 {
        let c = markdown::content_start(line);
        let inline = markdown::inline_markup(line.skip(c), 0, offset + c);
        lemma_shift_inline(line.skip(c), 0, offset + c, by);
        assert(offset + c + by == offset + by + c);
        let block = markdown::block_markup(line, offset, levels);
        assert(markdown::block_markup(line, offset + by, levels) =~= shifted(block, by));
        lemma_shift_then(block, inline, by);
    }
}

proof fn lemma_line_end_behind(head: Seq<char>, rest: Seq<char>, from: int)
    requires
        0 <= from <= rest.len(),
    ensures
        text::line_end(head + rest, head.len() + from) == head.len() + text::line_end(rest, from),
    decreases rest.len() - from,
{
    if from < rest.len() {
        assert((head + rest)[head.len() + from] == rest[from]);
        if rest[from] != '\n' {
            lemma_line_end_behind(head, rest, from + 1);
        }
    }
}

/// What comes before does not change how a line is read.
proof fn lemma_shift_text(
    head: Seq<char>,
    rest: Seq<char>,
    start: int,
    in_fence: bool,
    levels: Seq<int>,
)
    requires
        0 <= start <= rest.len(),
    ensures
        markdown::markup_from(head + rest, head.len() + start, in_fence, levels) == shifted(
            markdown::markup_from(rest, start, in_fence, levels),
            head.len() as int,
        ),
    decreases rest.len() - start,
{
    let n = head.len() as int;
    lemma_line_end_behind(head, rest, start);
    text::lemma_line_end(rest, start);
    let end = text::line_end(rest, start);
    let line = rest.subrange(start, end);
    assert((head + rest).subrange(n + start, n + end) =~= line);
    lemma_shift_run(start, end, Style::CodeBlock, n);
    lemma_shift_line(line, start, levels, n);
    let here = if markdown::fence(line) {
        Markup::marker(start, end)
    } else if in_fence {
        Markup::span(start, end, Style::CodeBlock)
    } else {
        markdown::line_markup(line, start, levels)
    };
    if end < rest.len() {
        let fenced = in_fence != markdown::fence(line);
        let open_levels = if markdown::fence(line) || in_fence {
            levels
        } else {
            markdown::levels_after(levels, line)
        };
        lemma_shift_text(head, rest, end + 1, fenced, open_levels);
        lemma_shift_then(here, markdown::markup_from(rest, end + 1, fenced, open_levels), n);
    }
}

// ---- fences ----

/// Is there no line feed in this?
pub open spec fn one_line(line: Seq<char>) -> bool {
    forall|i: int| 0 <= i < line.len() ==> #[trigger] line[i] != '\n'
}

/// Is `a..b` a line of `text`, without its line feed?
pub open spec fn is_line(text: Seq<char>, a: int, b: int) -> bool {
    &&& 0 <= a <= b <= text.len()
    &&& a == 0 || text[a - 1] == '\n'
    &&& b == text.len() || text[b] == '\n'
    &&& forall|i: int| a <= i < b ==> #[trigger] text[i] != '\n'
}

/// Do three of `c` stand at `k`?
pub open spec fn three_at(line: Seq<char>, k: int, c: char) -> bool {
    0 <= k && k + 3 <= line.len() && line[k] == c && line[k + 1] == c && line[k + 2] == c
}

/// Does the line start with three backquotes or three tildes, perhaps after
/// some spaces?
pub open spec fn fence_line(line: Seq<char>) -> bool {
    exists|k: int|
        (#[trigger] three_at(line, k, '`') || three_at(line, k, '~')) && forall|j: int|
            0 <= j < k ==> #[trigger] line[j] == ' '
}

/// Is none of these lines a fence?
pub open spec fn no_fences(text: Seq<char>) -> bool {
    forall|a: int, b: int|
        #[trigger] is_line(text, a, b) ==> !fence_line(text.subrange(a, b))
}

/// Are these the lines of `text` from `lo` to `hi`, all but the empty ones,
/// each as a whole and all of them as code?
pub open spec fn code_over(spans: Seq<StyledRun>, text: Seq<char>, lo: int, hi: int) -> bool {
    &&& forall|k: int|
        0 <= k < spans.len() ==> {
            &&& (#[trigger] spans[k]).style == Style::CodeBlock
            &&& lo <= spans[k].start < spans[k].end <= hi
            &&& is_line(text, spans[k].start, spans[k].end)
        }
    &&& forall|j: int, k: int|
        0 <= j < k < spans.len() ==> (#[trigger] spans[j]).end < (#[trigger] spans[k]).start
    &&& forall|a: int, b: int|
        lo <= a < b <= hi && #[trigger] is_line(text, a, b) ==> exists|k: int|
            0 <= k < spans.len() && (#[trigger] spans[k]).start == a && spans[k].end == b
}

proof fn lemma_occurs(s: Seq<char>, at: int, needle: Seq<char>)
    ensures
        text::occurs_at(s, at, needle) == (0 <= at && at + needle.len() <= s.len() && forall|j: int|
            0 <= j < needle.len() ==> s[at + j] == #[trigger] needle[j]),
{
    if 0 <= at && at + needle.len() <= s.len() {
        let part = s.subrange(at, at + needle.len());
        if part == needle {
            assert forall|j: int| 0 <= j < needle.len() implies s[at + j] == #[trigger] needle[
                j
            ] by {
                assert(part[j] == s[at + j]);
            }
        }
        if forall|j: int| 0 <= j < needle.len() ==> s[at + j] == #[trigger] needle[j] {
            assert(part =~= needle);
        }
    }
}

proof fn lemma_three(s: Seq<char>, k: int, c: char)
    ensures
        text::occurs_at(s, k, seq![c, c, c]) == three_at(s, k, c),
{
    let needle = seq![c, c, c];
    lemma_occurs(s, k, needle);
    if text::occurs_at(s, k, needle) {
        assert(s[k + 0] == needle[0] && s[k + 1] == needle[1] && s[k + 2] == needle[2]);
    }
}

proof fn lemma_fence(line: Seq<char>)
    ensures
        markdown::fence(line) == fence_line(line),
{
    text::lemma_run_len(line, ' ');
    let lead = text::run_len(line, ' ');
    let rest = line.skip(lead);
    lemma_three(rest, 0, '`');
    lemma_three(rest, 0, '~');
    assert(three_at(rest, 0, '`') == three_at(line, lead, '`'));
    assert(three_at(rest, 0, '~') == three_at(line, lead, '~'));
    if fence_line(line) {
        let k = choose|k: int|
            (#[trigger] three_at(line, k, '`') || three_at(line, k, '~')) && forall|j: int|
                0 <= j < k ==> #[trigger] line[j] == ' ';
        assert(line[k] != ' ');
        assert(k == lead);
    }
}

proof fn lemma_line_end_is(text: Seq<char>, a: int, b: int)
    requires
        0 <= a <= b <= text.len(),
        b == text.len() || text[b] == '\n',
        forall|i: int| a <= i < b ==> #[trigger] text[i] != '\n',
    ensures
        text::line_end(text, a) == b,
    decreases b - a,
{
    if a < b {
        lemma_line_end_is(text, a + 1, b);
    }
}

/// The lines from `lo` to `hi`, all but the empty ones, as code.
spec fn code_lines(text: Seq<char>, lo: int, hi: int) -> Seq<StyledRun>
    decreases hi - lo,
{
    let end = text::line_end(text, lo);
    if lo >= hi {
        seq![]
    } else {
        styled(lo, end, Style::CodeBlock) + if lo <= end < hi {
            code_lines(text, end + 1, hi)
        } else {
            seq![]
        }
    }
}

proof fn lemma_code_over(text: Seq<char>, lo: int, hi: int)
    requires
        0 <= lo <= hi <= text.len(),
        lo == 0 || text[lo - 1] == '\n',
        hi == text.len() || lo == hi || text[hi - 1] == '\n',
    ensures
        code_over(code_lines(text, lo, hi), text, lo, hi),
    decreases hi - lo,
{
    let spans = code_lines(text, lo, hi);
    if lo < hi {
        text::lemma_line_end(text, lo);
        let end = text::line_end(text, lo);
        assert(end <= hi);
        assert(is_line(text, lo, end));
        let here = styled(lo, end, Style::CodeBlock);
        let rest = if end < hi {
            code_lines(text, end + 1, hi)
        } else {
            seq![]
        };
        if end < hi {
            lemma_code_over(text, end + 1, hi);
        }
        assert(spans =~= here + rest);
        assert forall|k: int| 0 <= k < spans.len() implies {
            &&& (#[trigger] spans[k]).style == Style::CodeBlock
            &&& lo <= spans[k].start < spans[k].end <= hi
            &&& is_line(text, spans[k].start, spans[k].end)
        } by {
            if k >= here.len() {
                assert(spans[k] == rest[k - here.len()]);
            }
        }
        assert forall|j: int, k: int| 0 <= j < k < spans.len() implies (#[trigger] spans[j]).end < (
        #[trigger] spans[k]).start by {
            assert(spans[k] == rest[k - here.len()]);
            if j >= here.len() {
                assert(spans[j] == rest[j - here.len()]);
            }
        }
        assert forall|a: int, b: int|
            lo <= a < b <= hi && #[trigger] is_line(text, a, b) implies exists|k: int|
            0 <= k < spans.len() && (#[trigger] spans[k]).start == a && spans[k].end == b by {
            if a <= end {
                if a > lo {
                    assert(text[a - 1] != '\n');
                }
                lemma_line_end_is(text, a, b);
                assert(spans[0].start == a);
            } else {
                let k = choose|k: int|
                    0 <= k < rest.len() && (#[trigger] rest[k]).start == a && rest[k].end == b;
                assert(spans[k + here.len()] == rest[k]);
            }
        }
    }
}

/// Lines that are no fences, after an open fence.
proof fn lemma_in_fence(text: Seq<char>, lo: int, hi: int, levels: Seq<int>)
    requires
        0 <= lo < hi <= text.len(),
        hi == text.len() || text[hi - 1] == '\n',
        forall|a: int, b: int|
            lo <= a && b <= hi && (b < hi || hi == text.len()) && is_line(text, a, b)
                ==> !#[trigger] fence_line(text.subrange(a, b)),
        lo == 0 || text[lo - 1] == '\n',
    ensures
        markdown::markup_from(text, lo, true, levels) == before(
            code_lines(text, lo, hi),
            seq![],
            if hi < text.len() || text[hi - 1] == '\n' {
                markdown::markup_from(text, hi, true, levels)
            } else {
                Markup::none()
            },
        ),
    decreases hi - lo,
{
    text::lemma_line_end(text, lo);
    let end = text::line_end(text, lo);
    let line = text.subrange(lo, end);
    assert(is_line(text, lo, end));
    assert(end <= hi);
    assert(!fence_line(line));
    lemma_fence(line);
    let here = Markup::span(lo, end, Style::CodeBlock);
    assert(here.spans =~= styled(lo, end, Style::CodeBlock));
    let all = markdown::markup_from(text, lo, true, levels);
    if end < text.len() {
        let rest = markdown::markup_from(text, end + 1, true, levels);
        assert(all == here.then_markup(rest));
        if end + 1 < hi {
            lemma_in_fence(text, end + 1, hi, levels);
            let then = if hi < text.len() || text[hi - 1] == '\n' {
                markdown::markup_from(text, hi, true, levels)
            } else {
                Markup::none()
            };
            assert(all =~= before(code_lines(text, lo, hi), seq![], then));
        } else {
            assert(end + 1 == hi);
            assert(code_lines(text, hi, hi) =~= seq![]);
            assert(all =~= before(code_lines(text, lo, hi), seq![], rest));
        }
    } else {
        assert(all =~= before(code_lines(text, lo, hi), seq![], Markup::none()));
    }
}

/// A fence that comes while a code block is open closes it. Only the lines
/// between the two are code, both fences are hidden, and what follows is read
/// as if it stood alone.
pub proof fn a_fence_closes_the_code(
    open: Seq<char>,
    inner: Seq<char>,
    close: Seq<char>,
    tail: Seq<char>,
)
    requires
        one_line(open) && fence_line(open),
        inner.len() == 0 || inner.last() == '\n',
        no_fences(inner),
        one_line(close) && fence_line(close),
    ensures
        ({
            let text = open + seq!['\n'] + inner + close + seq!['\n'] + tail;
            let lo = open.len() as int + 1;
            let hi = lo + inner.len();
            let next = hi + close.len() + 1;
            let m = markdown::markup(text);
            let after = shifted(markdown::markup(tail), next);
            let n = m.spans.len() - after.spans.len();
            &&& m.markers == hidden(0, open.len() as int) + hidden(hi, next - 1)
                + after.markers
            &&& n >= 0
            &&& code_over(m.spans.take(n), text, lo, hi)
            &&& m.spans.skip(n) == after.spans
        }),
{
    let text = open + seq!['\n'] + inner + close + seq!['\n'] + tail;
    lemma_code_block(open, inner, close, seq!['\n'] + tail, seq![]);
    let lo = open.len() as int + 1;
    let hi = lo + inner.len();
    let next = hi + close.len() + 1;
    assert(text =~= open + seq!['\n'] + inner + close + (seq!['\n'] + tail));
    let head = open + seq!['\n'] + inner + close + seq!['\n'];
    assert(text =~= head + tail);
    lemma_shift_text(head, tail, 0, false, seq![]);
    let m = markdown::markup(text);
    let code = code_lines(text, lo, hi);
    let after = shifted(markdown::markup(tail), next);
    assert(m == before(
        code,
        hidden(0, open.len() as int) + hidden(hi, next - 1),
        after,
    ));
    assert(m.spans.take(code.len() as int) =~= code);
    assert(m.spans.skip(code.len() as int) =~= after.spans);
}

/// A code block, and whatever follows on the line of its second fence.
proof fn lemma_code_block(
    open: Seq<char>,
    inner: Seq<char>,
    close: Seq<char>,
    rest: Seq<char>,
    levels: Seq<int>,
)
    requires
        one_line(open) && fence_line(open),
        inner.len() == 0 || inner.last() == '\n',
        no_fences(inner),
        one_line(close) && fence_line(close),
        rest.len() == 0 || rest[0] == '\n',
    ensures
        ({
            let text = open + seq!['\n'] + inner + close + rest;
            let lo = open.len() as int + 1;
            let hi = lo + inner.len();
            let end = hi + close.len();
            &&& markdown::markup_from(text, 0, false, levels) == before(
                code_lines(text, lo, hi),
                hidden(0, open.len() as int) + hidden(hi, end),
                if rest.len() > 0 {
                    markdown::markup_from(text, end + 1, false, levels)
                } else {
                    Markup::none()
                },
            )
            &&& code_over(code_lines(text, lo, hi), text, lo, hi)
        }),
{
    let text = open + seq!['\n'] + inner + close + rest;
    let lo = open.len() as int + 1;
    let hi = lo + inner.len();
    let end = hi + close.len();
    assert(forall|i: int| 0 <= i < open.len() ==> text[i] == open[i]);
    assert(forall|i: int| 0 <= i < inner.len() ==> text[lo + i] == #[trigger] inner[i]);
    assert(forall|i: int| 0 <= i < close.len() ==> text[hi + i] == #[trigger] close[i]);
    assert(text[lo - 1] == '\n');
    if rest.len() > 0 {
        assert(text[end] == rest[0]);
    }
    lemma_line_end_is(text, 0, open.len() as int);
    assert(text.subrange(0, open.len() as int) =~= open);
    lemma_fence(open);
    assert forall|i: int| hi <= i < end implies #[trigger] text[i] != '\n' by {
        assert(text[hi + (i - hi)] == close[i - hi]);
    }
    lemma_line_end_is(text, hi, end);
    assert(text.subrange(hi, end) =~= close);
    lemma_fence(close);
    if inner.len() > 0 {
        assert(text[lo + (inner.len() - 1)] == inner[inner.len() - 1]);
        assert forall|a: int, b: int|
            lo <= a && b <= hi && (b < hi || hi == text.len()) && is_line(
                text,
                a,
                b,
            ) implies !#[trigger] fence_line(text.subrange(a, b)) by {
            assert(is_line(inner, a - lo, b - lo)) by {
                if a > lo {
                    assert(inner[a - lo - 1] == text[lo + (a - lo - 1)]);
                }
                assert(inner[b - lo] == text[lo + (b - lo)]);
                assert forall|i: int| a - lo <= i < b - lo implies #[trigger] inner[i] != '\n' by {
                    assert(text[lo + i] != '\n');
                }
            }
            assert(text.subrange(a, b) =~= inner.subrange(a - lo, b - lo));
        }
        lemma_in_fence(text, lo, hi, levels);
    }
    lemma_code_over(text, lo, hi);
    let code = code_lines(text, lo, hi);
    let then = if rest.len() > 0 {
        markdown::markup_from(text, end + 1, false, levels)
    } else {
        Markup::none()
    };
    let last = markdown::markup_from(text, hi, true, levels);
    assert(last =~= before(seq![], hidden(hi, end), then));
    assert(markdown::markup_from(text, lo, true, levels) =~= before(code, hidden(hi, end), then));
    assert(markdown::markup_from(text, 0, false, levels) =~= before(
        code,
        hidden(0, open.len() as int) + hidden(hi, end),
        then,
    ));
}

/// A code block whose second fence ends the text, and one that nothing ends:
/// the fences are hidden and every line after the first fence is code.
pub proof fn a_code_block_may_end_the_text(open: Seq<char>, inner: Seq<char>, close: Seq<char>)
    requires
        one_line(open) && fence_line(open),
        no_fences(inner),
        one_line(close) && fence_line(close),
    ensures
        ({
            let text = open + seq!['\n'] + inner;
            let lo = open.len() as int + 1;
            let m = markdown::markup(text);
            &&& m.markers == hidden(0, open.len() as int)
            &&& code_over(m.spans, text, lo, lo + inner.len())
        }),
        inner.len() == 0 || inner.last() == '\n' ==> {
            let text = open + seq!['\n'] + inner + close;
            let lo = open.len() as int + 1;
            let hi = lo + inner.len();
            let m = markdown::markup(text);
            &&& m.markers == hidden(0, open.len() as int) + hidden(hi, hi + close.len())
            &&& code_over(m.spans, text, lo, hi)
        },
{
    let lo = open.len() as int + 1;
    let hi = lo + inner.len();
    if inner.len() == 0 || inner.last() == '\n' {
        let text = open + seq!['\n'] + inner + close;
        lemma_code_block(open, inner, close, seq![], seq![]);
        assert(text =~= open + seq!['\n'] + inner + close + seq![]);
        assert(markdown::markup(text) =~= before(
            code_lines(text, lo, hi),
            hidden(0, open.len() as int) + hidden(hi, hi + close.len()),
            Markup::none(),
        ));
        assert(markdown::markup(text).markers =~= hidden(0, open.len() as int) + hidden(
            hi,
            hi + close.len(),
        ));
        assert(markdown::markup(text).spans =~= code_lines(text, lo, hi));
    }
    let text = open + seq!['\n'] + inner;
    assert(forall|i: int| 0 <= i < open.len() ==> text[i] == open[i]);
    assert(text[lo - 1] == '\n');
    lemma_line_end_is(text, 0, open.len() as int);
    assert(text.subrange(0, open.len() as int) =~= open);
    lemma_fence(open);
    let rest = markdown::markup_from(text, lo, true, seq![]);
    assert(markdown::markup(text) =~= before(seq![], hidden(0, open.len() as int), rest));
    if inner.len() > 0 {
        assert forall|a: int, b: int|
            lo <= a && b <= hi && (b < hi || hi == text.len()) && is_line(
                text,
                a,
                b,
            ) implies !#[trigger] fence_line(text.subrange(a, b)) by {
            assert(is_line(inner, a - lo, b - lo)) by {
                if a > lo {
                    assert(inner[a - lo - 1] == text[a - 1]);
                }
                if b < hi {
                    assert(inner[b - lo] == text[b]);
                }
                assert forall|i: int| a - lo <= i < b - lo implies #[trigger] inner[i] != '\n' by {
                    assert(text[lo + i] == inner[i]);
                }
            }
            assert(text.subrange(a, b) =~= inner.subrange(a - lo, b - lo));
        }
        lemma_in_fence(text, lo, hi, seq![]);
    }
    lemma_code_over(text, lo, hi);
    // The empty line after a last line feed.
    lemma_line_end_is(text, hi, hi);
    assert(text.subrange(hi, hi) =~= seq![]);
    lemma_fence(text.subrange(hi, hi));
    assert(markdown::markup_from(text, hi, true, seq![]) =~= Markup::none());
    assert(markdown::markup(text).spans =~= code_lines(text, lo, hi));
    assert(markdown::markup(text).markers =~= hidden(0, open.len() as int));
}

// ---- the middle of a line ----

/// The markup of `content` in the middle of a line: after a word, say.
pub open spec fn inside(content: Seq<char>) -> Markup {
    shifted(markdown::markup(seq!['a'] + content), -1)
}

spec fn moved(found: Option<Inline>, by: int) -> Option<Inline> {
    match found {
        Some(f) => Some(
            Inline {
                content_start: f.content_start + by,
                content_end: f.content_end + by,
                end: f.end + by,
                style: f.style,
            },
        ),
        None => None,
    }
}

proof fn lemma_occurs_behind(head: Seq<char>, s: Seq<char>, at: int, needle: Seq<char>)
    requires
        0 <= at,
    ensures
        text::occurs_at(head + s, head.len() + at, needle) == text::occurs_at(s, at, needle),
{
    if at + needle.len() <= s.len() {
        assert((head + s).subrange(head.len() + at, head.len() + at + needle.len()) =~= s.subrange(
            at,
            at + needle.len(),
        ));
    }
}

proof fn lemma_find_behind(head: Seq<char>, s: Seq<char>, from: int, needle: Seq<char>)
    requires
        0 <= from,
    ensures
        markdown::find_from(head + s, head.len() + from, needle) == (match markdown::find_from(
            s,
            from,
            needle,
        ) {
            Some(i) => Some(head.len() + i),
            None => None,
        }),
        markdown::find_from(s, from, needle) matches Some(i) ==> from <= i && i + needle.len()
            <= s.len(),
    decreases s.len() - from,
{
    if from < s.len() && from + needle.len() <= s.len() {
        lemma_occurs_behind(head, s, from, needle);
        if !text::occurs_at(s, from, needle) {
            lemma_find_behind(head, s, from + 1, needle);
        }
    }
}

proof fn lemma_delimited_behind(
    head: Seq<char>,
    s: Seq<char>,
    i: int,
    delimiter: Seq<char>,
    style: Style,
)
    requires
        0 <= i,
        delimiter.len() > 0,
    ensures
        markdown::delimited_at(head + s, head.len() + i, delimiter, style) == moved(
            markdown::delimited_at(s, i, delimiter, style),
            head.len() as int,
        ),
{
    lemma_occurs_behind(head, s, i, delimiter);
    lemma_find_behind(head, s, i + delimiter.len(), delimiter);
    let start = i + delimiter.len();
    if let Some(close) = markdown::find_from(s, start, delimiter) {
        if close > start {
            assert((head + s)[head.len() + start] == s[start]);
            assert((head + s)[head.len() + close - 1] == s[close - 1]);
        }
    }
}

proof fn lemma_inline_at_behind(head: Seq<char>, s: Seq<char>, i: int)
    requires
        0 <= i,
    ensures
        markdown::inline_at(head + s, head.len() + i) == moved(
            markdown::inline_at(s, i),
            head.len() as int,
        ),
{
    lemma_occurs_behind(head, s, i, seq!['`']);
    lemma_find_behind(head, s, i + 1, seq!['`']);
    lemma_occurs_behind(head, s, i, seq!['[']);
    lemma_find_behind(head, s, i + 1, seq![']']);
    if let Some(label_end) = markdown::find_from(s, i + 1, seq![']']) {
        lemma_occurs_behind(head, s, label_end + 1, seq!['(']);
        lemma_find_behind(head, s, label_end + 2, seq![')']);
    }
    lemma_delimited_behind(head, s, i, seq!['*', '*'], Style::Bold);
    lemma_delimited_behind(head, s, i, seq!['_', '_'], Style::Bold);
    lemma_delimited_behind(head, s, i, seq!['~', '~'], Style::Strikethrough);
    lemma_delimited_behind(head, s, i, seq!['*'], Style::Italic);
    lemma_delimited_behind(head, s, i, seq!['_'], Style::Italic);
}

proof fn lemma_inline_behind(head: Seq<char>, s: Seq<char>, i: int, offset: int)
    requires
        0 <= i,
    ensures
        markdown::inline_markup(head + s, head.len() + i, offset) == markdown::inline_markup(
            s,
            i,
            offset + head.len(),
        ),
    decreases s.len() - i,
{
    if i < s.len() {
        lemma_inline_at_behind(head, s, i);
        match markdown::inline_at(s, i) {
            Some(found) => {
                if i < found.end <= s.len() {
                    lemma_inline_behind(head, s, found.end, offset);
                    let there = moved(Some(found), head.len() as int)->0;
                    assert(there.markup(head.len() + i, offset) == found.markup(
                        i,
                        offset + head.len(),
                    ));
                }
            },
            None => lemma_inline_behind(head, s, i + 1, offset),
        }
    }
}

/// No inline syntax starts with `c`.
pub open spec fn opens_nothing(c: char) -> bool {
    c != '`' && c != '[' && c != '*' && c != '_' && c != '~'
}

proof fn lemma_opens_nothing(line: Seq<char>, i: int)
    requires
        0 <= i < line.len(),
        opens_nothing(line[i]),
    ensures
        markdown::inline_at(line, i) is None,
{
    lemma_occurs(line, i, seq!['`']);
    lemma_occurs(line, i, seq!['[']);
    lemma_occurs(line, i, seq!['*', '*']);
    lemma_occurs(line, i, seq!['_', '_']);
    lemma_occurs(line, i, seq!['~', '~']);
    lemma_occurs(line, i, seq!['*']);
    lemma_occurs(line, i, seq!['_']);
    assert(seq!['`'][0] == '`' && seq!['['][0] == '[' && seq!['*', '*'][0] == '*');
    assert(seq!['_', '_'][0] == '_' && seq!['~', '~'][0] == '~');
    assert(seq!['*'][0] == '*' && seq!['_'][0] == '_');
}

/// A text of one line.
proof fn lemma_one_line(line: Seq<char>)
    requires
        one_line(line),
        !fence_line(line),
    ensures
        markdown::markup(line) == markdown::line_markup(line, 0, seq![]),
{
    lemma_line_end_is(line, 0, line.len() as int);
    assert(line.subrange(0, line.len() as int) =~= line);
    lemma_fence(line);
}

proof fn lemma_inside(content: Seq<char>)
    requires
        one_line(content),
    ensures
        inside(content) == markdown::inline_markup(content, 0, 0),
{
    let a = seq!['a'];
    let line = a + content;
    assert(line[0] == 'a');
    assert forall|i: int| 0 <= i < line.len() implies #[trigger] line[i] != '\n' by {
        if i > 0 {
            assert(line[i] == content[i - 1]);
        }
    }
    if fence_line(line) {
        let k = choose|k: int|
            (#[trigger] three_at(line, k, '`') || three_at(line, k, '~')) && forall|j: int|
                0 <= j < k ==> #[trigger] line[j] == ' ';
        assert(k == 0);
    }
    lemma_one_line(line);
    text::lemma_run_len(line, ' ');
    assert(text::run_len(line, ' ') == 0);
    assert(line.skip(0) =~= line);
    assert(text::run_len(line, '#') == 0);
    lemma_occurs(line, 0, seq!['>', ' ']);
    lemma_occurs(line, 0, seq!['>']);
    assert(seq!['>', ' '][0] == '>' && seq!['>'][0] == '>');
    assert(markdown::digit_run(line) == 0);
    assert(markdown::block(line) is Paragraph);
    lemma_opens_nothing(line, 0);
    lemma_inline_behind(a, content, 0, 0);
    lemma_shift_inline(content, 0, 0, 1);
    lemma_shift_twice(markdown::inline_markup(content, 0, 0), 1, -1);
    assert(markdown::markup(line) =~= markdown::inline_markup(line, 0, 0));
}

// ---- inline syntax ----

/// Does `s` start with `` `code` ``, with `n` characters between the two
/// backquotes?
pub open spec fn code_shape(s: Seq<char>, n: int) -> bool {
    &&& 0 <= n && n + 2 <= s.len()
    &&& s[0] == '`' && s[n + 1] == '`'
    &&& forall|j: int| 1 <= j <= n ==> #[trigger] s[j] != '`'
}

/// Does `s` start with `[label](target)`, with a label of `n` characters, at
/// least one, and a target of `k`?
pub open spec fn link_shape(s: Seq<char>, n: int, k: int) -> bool {
    &&& 0 < n && 0 <= k && n + k + 4 <= s.len()
    &&& s[0] == '[' && s[n + 1] == ']' && s[n + 2] == '(' && s[n + k + 3] == ')'
    &&& forall|j: int| 1 <= j <= n ==> #[trigger] s[j] != ']'
    &&& forall|j: int| n + 3 <= j < n + k + 3 ==> #[trigger] s[j] != ')'
}

/// Do `w` of `c` stand at `at`, where `w` is 1 or 2?
pub open spec fn delimiter_at(s: Seq<char>, at: int, c: char, w: int) -> bool {
    0 <= at && at + w <= s.len() && s[at] == c && (w == 2 ==> s[at + 1] == c)
}

/// Does `s` start with `n` characters, at least one, between two delimiters of
/// `w` times `c`, with no white space just inside either?
pub open spec fn emphasis_shape(s: Seq<char>, c: char, w: int, n: int) -> bool {
    &&& 0 < n
    &&& delimiter_at(s, 0, c, w) && delimiter_at(s, w + n, c, w)
    &&& forall|j: int| w <= j < w + n ==> !#[trigger] delimiter_at(s, j, c, w)
    &&& !text::white_space(s[w]) && !text::white_space(s[w + n - 1])
}

/// What a delimiter of `w` times `c` stands for.
pub open spec fn emphasis_of(c: char, w: int) -> Option<Style> {
    if w == 2 && (c == '*' || c == '_') {
        Some(Style::Bold)
    } else if w == 2 && c == '~' {
        Some(Style::Strikethrough)
    } else if w == 1 && (c == '*' || c == '_') {
        Some(Style::Italic)
    } else {
        None
    }
}

/// Does `s` start with inline syntax of any sort?
pub open spec fn starts_inline(s: Seq<char>) -> bool {
    ||| exists|n: int| #[trigger] code_shape(s, n)
    ||| exists|n: int, k: int| #[trigger] link_shape(s, n, k)
    ||| exists|c: char, w: int, n: int|
        #[trigger] emphasis_shape(s, c, w, n) && emphasis_of(c, w) is Some
}

proof fn lemma_find(s: Seq<char>, from: int, needle: Seq<char>)
    requires
        0 <= from,
        needle.len() > 0,
    ensures
        match markdown::find_from(s, from, needle) {
            Some(i) => from <= i && text::occurs_at(s, i, needle) && forall|j: int|
                from <= j < i ==> !#[trigger] text::occurs_at(s, j, needle),
            None => forall|j: int| from <= j ==> !#[trigger] text::occurs_at(s, j, needle),
        },
    decreases s.len() - from,
{
    if from < s.len() && from + needle.len() <= s.len() && !text::occurs_at(s, from, needle) {
        lemma_find(s, from + 1, needle);
    }
}

proof fn lemma_one(s: Seq<char>, at: int, c: char)
    ensures
        text::occurs_at(s, at, seq![c]) == (0 <= at < s.len() && s[at] == c),
        text::occurs_at(s, at, seq![c, c]) == (0 <= at && at + 2 <= s.len() && s[at] == c && s[at
            + 1] == c),
{
    let one = seq![c];
    let two = seq![c, c];
    lemma_occurs(s, at, one);
    lemma_occurs(s, at, two);
    if text::occurs_at(s, at, one) {
        assert(s[at + 0] == one[0]);
    }
    if text::occurs_at(s, at, two) {
        assert(s[at + 0] == two[0] && s[at + 1] == two[1]);
    }
}

/// A piece of inline syntax at the front, and the rest of the line.
proof fn lemma_found(s: Seq<char>, found: Inline)
    requires
        one_line(s),
        markdown::inline_at(s, 0) == Some(found),
        0 < found.content_start <= found.content_end < found.end <= s.len(),
    ensures
        inside(s) == before(
            styled(found.content_start, found.content_end, found.style),
            hidden(0, found.content_start) + hidden(found.content_end, found.end),
            shifted(inside(s.skip(found.end)), found.end),
        ),
{
    lemma_inside(s);
    let head = s.take(found.end);
    let rest = s.skip(found.end);
    assert(head + rest =~= s);
    lemma_inside(rest);
    lemma_inline_behind(head, rest, 0, 0);
    lemma_shift_inline(rest, 0, 0, found.end);
    assert(inside(s) =~= before(
        styled(found.content_start, found.content_end, found.style),
        hidden(0, found.content_start) + hidden(found.content_end, found.end),
        shifted(inside(rest), found.end),
    ));
}

proof fn lemma_code_at(s: Seq<char>)
    ensures
        match markdown::code_at(s, 0) {
            Some(f) => {
                &&& code_shape(s, f.content_end - 1)
                &&& f.content_start == 1 && f.end == f.content_end + 1 && f.style == Style::Code
            },
            None => forall|n: int| !#[trigger] code_shape(s, n),
        },
        forall|n: int| #[trigger]
            code_shape(s, n) ==> (markdown::code_at(s, 0) matches Some(f) && f.content_end == n
                + 1),
{
    lemma_one(s, 0, '`');
    lemma_find(s, 1, seq!['`']);
    assert forall|j: int| text::occurs_at(s, j, seq!['`']) == (0 <= j < s.len() && #[trigger] s[j]
        == '`') by {
        lemma_one(s, j, '`');
    }
    assert forall|n: int| #[trigger] code_shape(s, n) implies (markdown::code_at(
        s,
        0,
    ) matches Some(f) && f.content_end == n + 1) by {
        assert(text::occurs_at(s, n + 1, seq!['`']));
        let close = markdown::find_from(s, 1, seq!['`'])->0;
        assert(s[close] == '`');
    }
}

proof fn lemma_link_at(s: Seq<char>)
    ensures
        match markdown::link_at(s, 0) {
            Some(f) => {
                &&& link_shape(s, f.content_end - 1, f.end - f.content_end - 3)
                &&& f.content_start == 1 && f.style == Style::Link
            },
            None => forall|n: int, k: int| !#[trigger] link_shape(s, n, k),
        },
        forall|n: int, k: int| #[trigger]
            link_shape(s, n, k) ==> (markdown::link_at(s, 0) matches Some(f) && f.content_end == n
                + 1 && f.end == n + k + 4),
{
    lemma_one(s, 0, '[');
    lemma_find(s, 1, seq![']']);
    assert forall|j: int| text::occurs_at(s, j, seq![']']) == (0 <= j < s.len() && #[trigger] s[j]
        == ']') by {
        lemma_one(s, j, ']');
    }
    assert forall|j: int| text::occurs_at(s, j, seq![')']) == (0 <= j < s.len() && #[trigger] s[j]
        == ')') by {
        lemma_one(s, j, ')');
    }
    if let Some(label_end) = markdown::find_from(s, 1, seq![']']) {
        lemma_one(s, label_end + 1, '(');
        lemma_find(s, label_end + 2, seq![')']);
    }
    assert forall|n: int, k: int| #[trigger] link_shape(s, n, k) implies (markdown::link_at(
        s,
        0,
    ) matches Some(f) && f.content_end == n + 1 && f.end == n + k + 4) by {
        assert(text::occurs_at(s, n + 1, seq![']']));
        let label_end = markdown::find_from(s, 1, seq![']'])->0;
        assert(s[label_end] == ']');
        assert(label_end == n + 1);
        assert(text::occurs_at(s, n + k + 3, seq![')']));
        let close = markdown::find_from(s, label_end + 2, seq![')'])->0;
        assert(s[close] == ')');
        assert(close == n + k + 3);
    }
}

spec fn delimiter(c: char, w: int) -> Seq<char> {
    if w == 2 {
        seq![c, c]
    } else {
        seq![c]
    }
}

proof fn lemma_delimited_at(s: Seq<char>, c: char, w: int, style: Style)
    requires
        w == 1 || w == 2,
    ensures
        match markdown::delimited_at(s, 0, delimiter(c, w), style) {
            Some(f) => {
                &&& emphasis_shape(s, c, w, f.content_end - w)
                &&& f.content_start == w && f.end == f.content_end + w && f.style == style
            },
            None => forall|n: int| !#[trigger] emphasis_shape(s, c, w, n),
        },
        forall|n: int| #[trigger]
            emphasis_shape(s, c, w, n) ==> (markdown::delimited_at(
                s,
                0,
                delimiter(c, w),
                style,
            ) matches Some(f) && f.content_end == w + n),
{
    let d = delimiter(c, w);
    assert forall|j: int| #[trigger] text::occurs_at(s, j, d) == delimiter_at(s, j, c, w) by {
        lemma_one(s, j, c);
    }
    assert forall|j: int| #[trigger] delimiter_at(s, j, c, w) == text::occurs_at(s, j, d) by {}
    lemma_find(s, w, d);
    assert forall|n: int| #[trigger] emphasis_shape(s, c, w, n) implies (markdown::delimited_at(
        s,
        0,
        d,
        style,
    ) matches Some(f) && f.content_end == w + n) by {
        assert(text::occurs_at(s, w + n, d));
        let close = markdown::find_from(s, w, d)->0;
        assert(text::occurs_at(s, close, d));
        assert(delimiter_at(s, close, c, w));
        assert(close == w + n);
    }
}

proof fn lemma_emphasis_at(s: Seq<char>)
    ensures
        match markdown::emphasis_at(s, 0) {
            Some(f) => exists|c: char, w: int, n: int| #[trigger]
                emphasis_shape(s, c, w, n) && emphasis_of(c, w) == Some(f.style),
            None => forall|c: char, w: int, n: int| #[trigger]
                emphasis_shape(s, c, w, n) ==> emphasis_of(c, w) is None,
        },
        forall|c: char, w: int, n: int| #[trigger]
            emphasis_shape(s, c, w, n) && emphasis_of(c, w) is Some ==> markdown::emphasis_at(
                s,
                0,
            ) == Some(
                Inline {
                    content_start: w,
                    content_end: w + n,
                    end: w + n + w,
                    style: emphasis_of(c, w)->0,
                },
            ),
{
    lemma_delimited_at(s, '*', 2, Style::Bold);
    lemma_delimited_at(s, '_', 2, Style::Bold);
    lemma_delimited_at(s, '~', 2, Style::Strikethrough);
    lemma_delimited_at(s, '*', 1, Style::Italic);
    lemma_delimited_at(s, '_', 1, Style::Italic);
    assert forall|c: char, w: int, n: int| #[trigger]
        emphasis_shape(s, c, w, n) && emphasis_of(c, w) is Some implies markdown::emphasis_at(s, 0)
        == Some(
        Inline {
            content_start: w,
            content_end: w + n,
            end: w + n + w,
            style: emphasis_of(c, w)->0,
        },
    ) by {
        assert(delimiter_at(s, 0, c, w));
        if w == 1 {
            // Two in a row leave nothing between them.
            assert(!delimiter_at(s, 1, c, 1));
            assert forall|m: int| !#[trigger] emphasis_shape(s, c, 2, m) by {}
        }
    }
}

/// `` `code` ``: the backquotes are hidden, and what they hold is code and
/// nothing else. Reading goes on after it.
pub proof fn code_is_read(s: Seq<char>, n: int)
    requires
        one_line(s),
        code_shape(s, n),
    ensures
        inside(s) == before(
            styled(1, n + 1, Style::Code),
            hidden(0, 1) + hidden(n + 1, n + 2),
            shifted(inside(s.skip(n + 2)), n + 2),
        ),
{
    lemma_code_at(s);
    lemma_found(s, markdown::code_at(s, 0)->0);
}

/// `[label](target)`: the label is a link and everything else is hidden.
/// Reading goes on after it.
pub proof fn links_are_read(s: Seq<char>, n: int, k: int)
    requires
        one_line(s),
        link_shape(s, n, k),
    ensures
        inside(s) == before(
            styled(1, n + 1, Style::Link),
            hidden(0, 1) + hidden(n + 1, n + k + 4),
            shifted(inside(s.skip(n + k + 4)), n + k + 4),
        ),
{
    lemma_code_at(s);
    lemma_link_at(s);
    assert forall|m: int| !#[trigger] code_shape(s, m) by {}
    lemma_found(s, markdown::link_at(s, 0)->0);
}

/// `**bold**`, `__bold__`, `~~struck~~`, `*italic*`, `_italic_`: the delimiters
/// are hidden, and what they hold has their style. Reading goes on after it.
pub proof fn emphasis_is_read(s: Seq<char>, c: char, w: int, n: int)
    requires
        one_line(s),
        emphasis_shape(s, c, w, n),
        emphasis_of(c, w) is Some,
    ensures
        inside(s) == before(
            styled(w, w + n, emphasis_of(c, w)->0),
            hidden(0, w) + hidden(w + n, w + n + w),
            shifted(inside(s.skip(w + n + w)), w + n + w),
        ),
{
    lemma_code_at(s);
    lemma_link_at(s);
    lemma_emphasis_at(s);
    assert(delimiter_at(s, 0, c, w));
    assert forall|m: int| !#[trigger] code_shape(s, m) by {}
    assert forall|m: int, k: int| !#[trigger] link_shape(s, m, k) by {}
    lemma_found(s, markdown::emphasis_at(s, 0)->0);
}

/// A character at which no syntax starts is text: it is shown as it is, with
/// no style, and reading goes on with the next.
pub proof fn everything_else_is_text(s: Seq<char>)
    requires
        one_line(s),
        s.len() > 0,
        !starts_inline(s),
    ensures
        inside(s) == shifted(inside(s.skip(1)), 1),
{
    lemma_code_at(s);
    lemma_link_at(s);
    lemma_emphasis_at(s);
    lemma_inside(s);
    let head = s.take(1);
    let rest = s.skip(1);
    assert(head + rest =~= s);
    lemma_inside(rest);
    lemma_inline_behind(head, rest, 0, 0);
    lemma_shift_inline(rest, 0, 0, 1);
}

/// At the end of a line there is nothing to read.
pub proof fn nothing_is_read_of_nothing()
    ensures
        inside(seq![]) == (Markup { spans: seq![], markers: seq![] }),
{
    lemma_inside(seq![]);
}

// ---- what a line is ----

/// Does the line start with this many spaces?
pub open spec fn spaces(line: Seq<char>, lead: int) -> bool {
    0 <= lead <= line.len() && forall|j: int| 0 <= j < lead ==> #[trigger] line[j] == ' '
}

/// Spaces, then one to six `#`, then a space.
pub open spec fn heading_shape(line: Seq<char>, lead: int, level: int) -> bool {
    &&& spaces(line, lead)
    &&& 1 <= level <= 6 && lead + level < line.len()
    &&& forall|j: int| lead <= j < lead + level ==> #[trigger] line[j] == '#'
    &&& line[lead + level] == ' '
}

/// Spaces, then `>`, then a space if there is one, which is part of the syntax.
pub open spec fn quote_shape(line: Seq<char>, lead: int, len: int) -> bool {
    &&& spaces(line, lead)
    &&& lead < line.len() && line[lead] == '>'
    &&& len == if lead + 1 < line.len() && line[lead + 1] == ' ' {
        2int
    } else {
        1
    }
}

/// Spaces, then `- `, `* `, `+ `, or a number with `. ` or `) ` behind it.
pub open spec fn item_shape(line: Seq<char>, lead: int, len: int) -> bool {
    &&& spaces(line, lead)
    &&& 2 <= len && lead + len <= line.len()
    &&& line[lead + len - 1] == ' '
    &&& if len == 2 {
        line[lead] == '-' || line[lead] == '*' || line[lead] == '+'
    } else {
        &&& forall|j: int| lead <= j < lead + len - 2 ==> '0' <= #[trigger] line[j] <= '9'
        &&& line[lead + len - 2] == '.' || line[lead + len - 2] == ')'
    }
}

/// Is the line a list item?
pub open spec fn item_line(line: Seq<char>) -> bool {
    exists|lead: int, len: int| item_shape(line, lead, len)
}

proof fn lemma_indent(line: Seq<char>, lead: int)
    requires
        spaces(line, lead),
        lead < line.len() ==> line[lead] != ' ',
    ensures
        markdown::indent(line) == lead,
{
    text::lemma_run_len(line, ' ');
}

proof fn lemma_digits(s: Seq<char>, n: int)
    requires
        0 <= n <= s.len(),
        forall|j: int| 0 <= j < n ==> '0' <= #[trigger] s[j] <= '9',
        n < s.len() ==> !('0' <= s[n] <= '9'),
    ensures
        markdown::digit_run(s) == n,
    decreases n,
{
    if n > 0 {
        let t = s.drop_first();
        assert forall|j: int| 0 <= j < n - 1 implies '0' <= #[trigger] t[j] <= '9' by {
            assert(t[j] == s[j + 1]);
        }
        assert('0' <= s[0] <= '9');
        lemma_digits(t, n - 1);
    }
}

proof fn lemma_digit_run_is(s: Seq<char>)
    ensures
        0 <= markdown::digit_run(s) <= s.len(),
        forall|j: int| 0 <= j < markdown::digit_run(s) ==> '0' <= #[trigger] s[j] <= '9',
    decreases s.len(),
{
    if s.len() > 0 && markdown::ascii_digit(s[0]) {
        let t = s.drop_first();
        lemma_digit_run_is(t);
        assert forall|j: int| 0 <= j < markdown::digit_run(s) implies '0' <= #[trigger] s[j]
            <= '9' by {
            if j > 0 {
                assert(s[j] == t[j - 1]);
            }
        }
    }
}

proof fn lemma_two(s: Seq<char>, at: int, c: char, d: char)
    ensures
        text::occurs_at(s, at, seq![c, d]) == (0 <= at && at + 2 <= s.len() && s[at] == c && s[at
            + 1] == d),
{
    let two = seq![c, d];
    lemma_occurs(s, at, two);
    if text::occurs_at(s, at, two) {
        assert(s[at + 0] == two[0] && s[at + 1] == two[1]);
    }
}

/// What an item looks like to the scanner.
proof fn lemma_item(line: Seq<char>, lead: int, len: int)
    requires
        item_shape(line, lead, len),
    ensures
        markdown::indent(line) == lead,
        markdown::item(line.skip(lead)) == Some(len),
        markdown::block(line) == markdown::Block::Item(len),
        !fence_line(line),
        !markdown::fence(line),
{
    lemma_indent(line, lead);
    let rest = line.skip(lead);
    assert(forall|j: int| 0 <= j < rest.len() ==> #[trigger] rest[j] == line[lead + j]);
    assert(text::run_len(rest, '#') == 0);
    lemma_two(rest, 0, '>', ' ');
    lemma_one(rest, 0, '>');
    lemma_three(rest, 0, '`');
    lemma_three(rest, 0, '~');
    if len > 2 {
        assert forall|j: int| 0 <= j < len - 2 implies '0' <= #[trigger] rest[j] <= '9' by {
            assert(line[lead + j] == rest[j]);
        }
        lemma_digits(rest, len - 2);
        lemma_two(rest, len - 2, '.', ' ');
        lemma_two(rest, len - 2, ')', ' ');
    }
    lemma_fence(line);
}

/// What the scanner takes for an item looks like one.
proof fn lemma_item_found(line: Seq<char>)
    ensures
        markdown::item(line.skip(markdown::indent(line))) matches Some(len) ==> item_shape(
            line,
            markdown::indent(line),
            len,
        ),
        markdown::item(line.skip(markdown::indent(line))) is Some == item_line(line),
        (markdown::block(line) is Item) == item_line(line),
{
    text::lemma_run_len(line, ' ');
    let lead = markdown::indent(line);
    let rest = line.skip(lead);
    assert(forall|j: int| 0 <= j < rest.len() ==> #[trigger] rest[j] == line[lead + j]);
    lemma_digit_run_is(rest);
    let digits = markdown::digit_run(rest);
    lemma_two(rest, digits, '.', ' ');
    lemma_two(rest, digits, ')', ' ');
    if let Some(len) = markdown::item(rest) {
        if len > 2 {
            assert forall|j: int| lead <= j < lead + len - 2 implies '0' <= #[trigger] line[j]
                <= '9' by {
                assert(rest[j - lead] == line[j]);
            }
        }
        assert(item_shape(line, lead, len));
    }
    if item_line(line) {
        let (a, b) = choose|a: int, b: int| item_shape(line, a, b);
        lemma_item(line, a, b);
    }
}

/// A line, past its prefix.
proof fn lemma_content(line: Seq<char>, c: int)
    requires
        one_line(line),
        0 <= c <= line.len(),
    ensures
        markdown::inline_markup(line.skip(c), 0, c) == shifted(inside(line.skip(c)), c),
{
    lemma_inside(line.skip(c));
    lemma_shift_inline(line.skip(c), 0, 0, c);
}

/// A heading: its `#`s are hidden, and the rest of the line is a heading of as
/// many levels, read on for inline syntax.
pub proof fn headings_are_read(line: Seq<char>, lead: int, level: int)
    requires
        one_line(line),
        heading_shape(line, lead, level),
    ensures
        ({
            let c = lead + level + 1;
            markdown::markup(line) == before(
                styled(c, line.len() as int, Style::Heading(level as u8)),
                hidden(lead, c),
                shifted(inside(line.skip(c)), c),
            )
        }),
{
    assert(line[lead] == '#');
    lemma_indent(line, lead);
    let rest = line.skip(lead);
    assert(forall|j: int| 0 <= j < rest.len() ==> #[trigger] rest[j] == line[lead + j]);
    text::lemma_run_len(rest, '#');
    let n = text::run_len(rest, '#');
    assert(rest[level] == ' ');
    if n < level {
        assert(line[lead + n] == '#');
        assert(rest[n] == '#');
    }
    lemma_one(rest, level, ' ');
    lemma_three(rest, 0, '`');
    lemma_three(rest, 0, '~');
    lemma_fence(line);
    lemma_one_line(line);
    let c = lead + level + 1;
    lemma_content(line, c);
    assert(markdown::markup(line) =~= before(
        styled(c, line.len() as int, Style::Heading(level as u8)),
        hidden(lead, c),
        shifted(inside(line.skip(c)), c),
    ));
}

/// A quoted line: its `>` is hidden, with the space behind it, and the rest of
/// the line is a quotation, read on for inline syntax.
pub proof fn quotes_are_read(line: Seq<char>, lead: int, len: int)
    requires
        one_line(line),
        quote_shape(line, lead, len),
    ensures
        ({
            let c = lead + len;
            markdown::markup(line) == before(
                styled(c, line.len() as int, Style::Quote),
                hidden(lead, c),
                shifted(inside(line.skip(c)), c),
            )
        }),
{
    lemma_indent(line, lead);
    let rest = line.skip(lead);
    assert(forall|j: int| 0 <= j < rest.len() ==> #[trigger] rest[j] == line[lead + j]);
    assert(rest[0] == '>');
    assert(text::run_len(rest, '#') == 0);
    lemma_two(rest, 0, '>', ' ');
    lemma_one(rest, 0, '>');
    lemma_three(rest, 0, '`');
    lemma_three(rest, 0, '~');
    lemma_fence(line);
    lemma_one_line(line);
    let c = lead + len;
    lemma_content(line, c);
    assert(markdown::markup(line) =~= before(
        styled(c, line.len() as int, Style::Quote),
        hidden(lead, c),
        shifted(inside(line.skip(c)), c),
    ));
}

/// A list item on its own: the spaces before its bullet or number are hidden,
/// the bullet or number is not, and the rest of the line is an item of the
/// outermost level, read on for inline syntax.
pub proof fn items_are_read(line: Seq<char>, lead: int, len: int)
    requires
        one_line(line),
        item_shape(line, lead, len),
    ensures
        ({
            let c = lead + len;
            markdown::markup(line) == before(
                styled(c, line.len() as int, Style::ListItem(0)),
                hidden(0, lead),
                shifted(inside(line.skip(c)), c),
            )
        }),
{
    lemma_item(line, lead, len);
    lemma_one_line(line);
    let c = lead + len;
    lemma_content(line, c);
    assert(markdown::levels_within(seq![], lead) =~= seq![]);
    assert(markdown::levels_with(seq![], lead) =~= seq![lead]);
    assert(markdown::markup(line) =~= before(
        styled(c, line.len() as int, Style::ListItem(0)),
        hidden(0, lead),
        shifted(inside(line.skip(c)), c),
    ));
}

proof fn lemma_skip_spaces(line: Seq<char>, i: int, lead: int, offset: int)
    requires
        spaces(line, lead),
        0 <= i <= lead,
    ensures
        markdown::inline_markup(line, i, offset) == markdown::inline_markup(line, lead, offset),
    decreases lead - i,
{
    if i < lead {
        assert(line[i] == ' ');
        lemma_opens_nothing(line, i);
        lemma_skip_spaces(line, i + 1, lead, offset);
    }
}

/// Any other line outside a code block is ordinary text: nothing is styled or
/// hidden but for its inline syntax.
pub proof fn other_lines_are_text(line: Seq<char>)
    requires
        one_line(line),
        !fence_line(line),
        forall|lead: int, level: int| !heading_shape(line, lead, level),
        forall|lead: int, len: int| !quote_shape(line, lead, len),
        !item_line(line),
    ensures
        markdown::markup(line) == inside(line),
{
    text::lemma_run_len(line, ' ');
    let lead = markdown::indent(line);
    let rest = line.skip(lead);
    assert(forall|j: int| 0 <= j < rest.len() ==> #[trigger] rest[j] == line[lead + j]);
    text::lemma_run_len(rest, '#');
    let level = text::run_len(rest, '#');
    lemma_one(rest, level, ' ');
    if markdown::heading(rest) is Some {
        assert forall|j: int| lead <= j < lead + level implies #[trigger] line[j] == '#' by {
            assert(rest[j - lead] == '#');
        }
        assert(heading_shape(line, lead, level));
    }
    lemma_one(rest, 0, '>');
    lemma_two(rest, 0, '>', ' ');
    if rest.len() > 0 && rest[0] == '>' {
        let len: int = if lead + 1 < line.len() && line[lead + 1] == ' ' {
            2
        } else {
            1
        };
        assert(quote_shape(line, lead, len));
    }
    lemma_item_found(line);
    assert(markdown::block(line) is Paragraph);
    lemma_one_line(line);
    lemma_inside(line);
    lemma_skip_spaces(line, 0, lead, 0);
    let head = line.take(lead);
    assert(head + rest =~= line);
    lemma_inline_behind(head, rest, 0, 0);
    assert(markdown::markup(line) =~= inside(line));
}

// ---- one line after another ----

/// The first line of a text that is neither a fence nor an item is read on its
/// own, and what follows is read as if it stood alone.
pub proof fn lines_are_read_one_by_one(line: Seq<char>, tail: Seq<char>)
    requires
        one_line(line),
        !fence_line(line),
        !item_line(line),
    ensures
        markdown::markup(line + seq!['\n'] + tail) == before(
            markdown::markup(line).spans,
            markdown::markup(line).markers,
            shifted(markdown::markup(tail), line.len() as int + 1),
        ),
{
    lemma_first_line(line, tail);
    lemma_item_found(line);
    assert(markdown::levels_after(seq![], line) =~= seq![]);
}

proof fn lemma_first_line(line: Seq<char>, tail: Seq<char>)
    requires
        one_line(line),
        !fence_line(line),
    ensures
        markdown::markup(line + seq!['\n'] + tail) == before(
            markdown::markup(line).spans,
            markdown::markup(line).markers,
            shifted(
                markdown::markup_from(tail, 0, false, markdown::levels_after(seq![], line)),
                line.len() as int + 1,
            ),
        ),
{
    let head = line + seq!['\n'];
    let text = head + tail;
    assert(forall|i: int| 0 <= i < line.len() ==> text[i] == line[i]);
    assert(text[line.len() as int] == '\n');
    lemma_line_end_is(text, 0, line.len() as int);
    assert(text.subrange(0, line.len() as int) =~= line);
    lemma_fence(line);
    lemma_one_line(line);
    lemma_shift_text(head, tail, 0, false, markdown::levels_after(seq![], line));
}

/// Are these the same runs, with the same styles but for the depth of list
/// items?
pub open spec fn alike(a: Seq<StyledRun>, b: Seq<StyledRun>) -> bool {
    &&& a.len() == b.len()
    &&& forall|k: int|
        0 <= k < a.len() ==> {
            &&& (#[trigger] a[k]).start == b[k].start && a[k].end == b[k].end
            &&& a[k].style == b[k].style || (a[k].style is ListItem && b[k].style is ListItem)
        }
}

proof fn lemma_alike_line(line: Seq<char>, offset: int, a: Seq<int>, b: Seq<int>)
    ensures
        markdown::line_markup(line, offset, a).markers == markdown::line_markup(
            line,
            offset,
            b,
        ).markers,
        alike(
            markdown::line_markup(line, offset, a).spans,
            markdown::line_markup(line, offset, b).spans,
        ),
{
}

proof fn lemma_alike(text: Seq<char>, start: int, in_fence: bool, a: Seq<int>, b: Seq<int>)
    requires
        0 <= start <= text.len(),
    ensures
        markdown::markup_from(text, start, in_fence, a).markers == markdown::markup_from(
            text,
            start,
            in_fence,
            b,
        ).markers,
        alike(
            markdown::markup_from(text, start, in_fence, a).spans,
            markdown::markup_from(text, start, in_fence, b).spans,
        ),
    decreases text.len() - start,
{
    text::lemma_line_end(text, start);
    let end = text::line_end(text, start);
    let line = text.subrange(start, end);
    lemma_alike_line(line, start, a, b);
    if end < text.len() {
        let fenced = in_fence != markdown::fence(line);
        if markdown::fence(line) || in_fence {
            lemma_alike(text, end + 1, fenced, a, b);
        } else {
            lemma_alike(
                text,
                end + 1,
                fenced,
                markdown::levels_after(a, line),
                markdown::levels_after(b, line),
            );
        }
    }
}

/// The same of a text that starts with a list item, except that the item may
/// give the items below it another depth.
pub proof fn items_are_read_one_by_one(line: Seq<char>, tail: Seq<char>)
    requires
        one_line(line),
        !fence_line(line),
    ensures
        ({
            let m = markdown::markup(line + seq!['\n'] + tail);
            let here = markdown::markup(line);
            let rest = shifted(markdown::markup(tail), line.len() as int + 1);
            &&& m.markers == here.markers + rest.markers
            &&& alike(m.spans, here.spans + rest.spans)
            &&& m.spans.take(here.spans.len() as int) == here.spans
        }),
{
    lemma_first_line(line, tail);
    let levels = markdown::levels_after(seq![], line);
    lemma_alike(tail, 0, false, levels, seq![]);
    let m = markdown::markup(line + seq!['\n'] + tail);
    let here = markdown::markup(line);
    let rest = shifted(markdown::markup(tail), line.len() as int + 1);
    let there = shifted(markdown::markup_from(tail, 0, false, levels), line.len() as int + 1);
    assert(there.markers =~= rest.markers);
    assert forall|k: int| 0 <= k < m.spans.len() implies {
        let a = #[trigger] m.spans[k];
        let b = (here.spans + rest.spans)[k];
        &&& a.start == b.start && a.end == b.end
        &&& a.style == b.style || (a.style is ListItem && b.style is ListItem)
    } by {
        if k >= here.spans.len() {
            assert(m.spans[k] == there.spans[k - here.spans.len()]);
        }
    }
    assert(m.spans.take(here.spans.len() as int) =~= here.spans);
}

// ---- lists ----

/// Where the line with position `i` starts.
pub open spec fn start_of(text: Seq<char>, i: int) -> int
    decreases i,
{
    if i <= 0 || text[i - 1] == '\n' {
        i
    } else {
        start_of(text, i - 1)
    }
}

/// How many spaces a line starts with.
pub open spec fn leading_spaces(line: Seq<char>) -> int
    decreases line.len(),
{
    if line.len() > 0 && line[0] == ' ' {
        1 + leading_spaces(line.skip(1))
    } else {
        0
    }
}

/// How many items an item that starts at `w` spaces in the line at `a` is
/// nested in: the nearest item above that is less indented, the nearest above
/// that one that is less indented still, and so on. Blank and indented lines
/// between them do not matter; any other line at the left edge ends the list.
pub open spec fn nesting(text: Seq<char>, a: int, w: int) -> int
    decreases a,
{
    let p = start_of(text, a - 1);
    if !(0 <= p < a) {
        0
    } else {
        let above = text.subrange(p, a - 1);
        if item_line(above) && leading_spaces(above) < w {
            1 + nesting(text, p, leading_spaces(above))
        } else if item_line(above) || above.len() == 0 || above[0] == ' ' {
            nesting(text, p, w)
        } else {
            0
        }
    }
}

proof fn lemma_start_of(text: Seq<char>, p: int, i: int)
    requires
        0 <= p <= i <= text.len(),
        p == 0 || text[p - 1] == '\n',
        forall|k: int| p <= k < i ==> text[k] != '\n',
    ensures
        start_of(text, i) == p,
    decreases i - p,
{
    if i > p {
        lemma_start_of(text, p, i - 1);
    }
}

proof fn lemma_leading_spaces(line: Seq<char>)
    ensures
        leading_spaces(line) == markdown::indent(line),
        0 <= leading_spaces(line) <= line.len(),
        leading_spaces(line) == 0 <==> line.len() == 0 || line[0] != ' ',
    decreases line.len(),
{
    if line.len() > 0 && line[0] == ' ' {
        assert(line.skip(1) =~= line.drop_first());
        lemma_leading_spaces(line.skip(1));
    }
}

/// How many of the open levels are less than `w`.
spec fn below(levels: Seq<int>, w: int) -> int
    decreases levels.len(),
{
    if levels.len() == 0 {
        0
    } else if levels.last() < w {
        levels.len() as int
    } else {
        below(levels.drop_last(), w)
    }
}

proof fn lemma_below(levels: Seq<int>, v: int, w: int)
    requires
        laws::levels_deepen(levels),
    ensures
        laws::levels_deepen(markdown::levels_with(levels, v)),
        markdown::levels_with(levels, v).len() == below(levels, v) + 1,
        below(markdown::levels_with(levels, v), w) == if v < w {
            1 + below(levels, v)
        } else {
            below(levels, w)
        },
    decreases levels.len(),
{
    let after = markdown::levels_with(levels, v);
    if levels.len() == 0 {
        assert(after =~= levels.push(v));
        assert(after.drop_last() =~= levels);
    } else if levels.last() > v {
        lemma_below(levels.drop_last(), v, w);
    } else if levels.last() == v {
        assert(levels.drop_last().len() > 0 ==> levels.drop_last().last() < v) by {
            if levels.len() > 1 {
                assert(levels[levels.len() - 2] < levels[levels.len() - 1]);
            }
        }
        assert(below(levels.drop_last(), v) == levels.len() - 1);
    } else {
        assert(after =~= levels.push(v));
        assert(after.drop_last() =~= levels);
    }
}

/// The open levels are what is above the line at `s`.
spec fn levels_match(levels: Seq<int>, text: Seq<char>, s: int) -> bool {
    &&& laws::levels_deepen(levels)
    &&& forall|w: int| 0 <= w ==> #[trigger] nesting(text, s, w) == below(levels, w)
}

proof fn lemma_levels_match(levels: Seq<int>, text: Seq<char>, s: int, e: int)
    requires
        levels_match(levels, text, s),
        is_line(text, s, e),
        e < text.len(),
    ensures
        levels_match(markdown::levels_after(levels, text.subrange(s, e)), text, e + 1),
{
    let line = text.subrange(s, e);
    let after = markdown::levels_after(levels, line);
    lemma_start_of(text, s, e);
    lemma_leading_spaces(line);
    lemma_item_found(line);
    let v = markdown::indent(line);
    if item_line(line) {
        lemma_below(levels, v, 0);
        assert(line.len() > 0) by {
            let (a, b) = choose|a: int, b: int| item_shape(line, a, b);
        }
    }
    assert forall|w: int| 0 <= w implies #[trigger] nesting(text, e + 1, w) == below(after, w) by {
        if item_line(line) {
            lemma_below(levels, v, w);
            assert(nesting(text, s, v) == below(levels, v));
        }
        assert(nesting(text, s, w) == below(levels, w));
    }
}

proof fn lemma_item_depth(
    text: Seq<char>,
    s: int,
    levels: Seq<int>,
    a: int,
    b: int,
    lead: int,
    len: int,
)
    requires
        no_fences(text),
        levels_match(levels, text, s),
        0 <= s <= a,
        s == 0 || text[s - 1] == '\n',
        is_line(text, a, b),
        item_shape(text.subrange(a, b), lead, len),
        lead + len < b - a,
    ensures
        markdown::markup_from(text, s, false, levels).spans.contains(
            StyledRun {
                start: a + lead + len,
                end: b,
                style: Style::ListItem(deepest(nesting(text, a, lead))),
            },
        ),
    decreases a - s,
{
    text::lemma_line_end(text, s);
    let end = text::line_end(text, s);
    let line = text.subrange(s, end);
    assert(is_line(text, s, end));
    lemma_fence(line);
    let wanted = StyledRun {
        start: a + lead + len,
        end: b,
        style: Style::ListItem(deepest(nesting(text, a, lead))),
    };
    let here = markdown::line_markup(line, s, levels);
    let all = markdown::markup_from(text, s, false, levels);
    if s == a {
        lemma_line_end_is(text, a, b);
        lemma_item(line, lead, len);
        lemma_below(levels, lead, 0);
        assert(nesting(text, s, lead) == below(levels, lead));
        assert(here.spans[0] == wanted);
        assert(all.spans[0] == wanted);
    } else {
        assert(end < a) by {
            if a <= end {
                assert(text[a - 1] != '\n');
            }
        }
        let after = markdown::levels_after(levels, line);
        lemma_levels_match(levels, text, s, end);
        lemma_item_depth(text, end + 1, after, a, b, lead, len);
        let rest = markdown::markup_from(text, end + 1, false, after);
        let k = choose|k: int| 0 <= k < rest.spans.len() && rest.spans[k] == wanted;
        assert(all.spans[here.spans.len() + k] == wanted);
    }
}

/// The depth that is styled: the fourth and all that are deeper look the same.
pub open spec fn deepest(depth: int) -> u8 {
    if depth < 4 {
        depth as u8
    } else {
        4
    }
}

/// A list item's depth is the number of items it is nested in, by the indents
/// of the items above it.
pub proof fn items_nest_by_their_indent(text: Seq<char>, a: int, b: int, lead: int, len: int)
    requires
        no_fences(text),
        is_line(text, a, b),
        item_shape(text.subrange(a, b), lead, len),
        lead + len < b - a,
    ensures
        markdown::markup(text).spans.contains(
            StyledRun {
                start: a + lead + len,
                end: b,
                style: Style::ListItem(deepest(nesting(text, a, lead))),
            },
        ),
{
    assert forall|w: int| 0 <= w implies #[trigger] nesting(text, 0, w) == below(seq![], w) by {
        assert(start_of(text, -1) == -1);
    }
    lemma_item_depth(text, 0, seq![], a, b, lead, len);
}

// ---- code blocks in between ----

/// The markup of the lines of `head` from `start` on, and the list levels that
/// are open behind them.
spec fn through(head: Seq<char>, start: int, levels: Seq<int>) -> (Markup, Seq<int>)
    decreases head.len() - start,
{
    let end = text::line_end(head, start);
    if !(start <= end < head.len()) {
        (Markup::none(), levels)
    } else {
        let line = head.subrange(start, end);
        let rest = through(head, end + 1, markdown::levels_after(levels, line));
        (markdown::line_markup(line, start, levels).then_markup(rest.0), rest.1)
    }
}

proof fn lemma_through(head: Seq<char>, rest: Seq<char>, start: int, levels: Seq<int>)
    requires
        0 <= start <= head.len(),
        start == head.len() || head.last() == '\n',
        start == 0 || head[start - 1] == '\n',
        no_fences(head),
    ensures
        ({
            let (m, after) = through(head, start, levels);
            markdown::markup_from(head + rest, start, false, levels) == m.then_markup(
                markdown::markup_from(head + rest, head.len() as int, false, after),
            )
        }),
    decreases head.len() - start,
{
    let text = head + rest;
    text::lemma_line_end(head, start);
    let end = text::line_end(head, start);
    if start < head.len() {
        assert(end < head.len()) by {
            if end == head.len() {
                assert(head[head.len() - 1] != '\n');
            }
        }
        assert(forall|i: int| 0 <= i < head.len() ==> text[i] == head[i]);
        lemma_line_end_is(text, start, end);
        let line = head.subrange(start, end);
        assert(text.subrange(start, end) =~= line);
        assert(is_line(head, start, end));
        lemma_fence(line);
        let open = markdown::levels_after(levels, line);
        lemma_through(head, rest, end + 1, open);
        let (m, after) = through(head, end + 1, open);
        markdown::lemma_then_assoc(
            markdown::line_markup(line, start, levels),
            m,
            markdown::markup_from(text, head.len() as int, false, after),
        );
    } else {
        let all = markdown::markup_from(text, start, false, levels);
        assert(Markup::none().then_markup(all) =~= all);
    }
}

/// A code block anywhere in a text is code and changes nothing else. What comes
/// before it and what comes after it are read as if it were not there, lists
/// and all, and are only moved apart.
pub proof fn a_code_block_changes_nothing_around_it(
    head: Seq<char>,
    open: Seq<char>,
    inner: Seq<char>,
    close: Seq<char>,
    tail: Seq<char>,
) -> (parts: (Markup, Markup))
    requires
        head.len() == 0 || head.last() == '\n',
        no_fences(head),
        one_line(open) && fence_line(open),
        inner.len() == 0 || inner.last() == '\n',
        no_fences(inner),
        one_line(close) && fence_line(close),
    ensures
        ({
            let block = open + seq!['\n'] + inner + close + seq!['\n'];
            let with = markdown::markup(head + block + tail);
            let without = markdown::markup(head + tail);
            let (above, below) = parts;
            let lo = head.len() as int + open.len() + 1;
            let hi = lo + inner.len();
            let n = with.spans.len() - above.spans.len() - below.spans.len();
            let below_it = shifted(below, block.len() as int);
            // Without the block there are two parts, that of the head and the rest.
            &&& without == before(above.spans, above.markers, below)
            &&& forall|k: int|
                0 <= k < above.spans.len() ==> (#[trigger] above.spans[k]).end <= head.len()
            &&& forall|k: int|
                0 <= k < below.spans.len() ==> (#[trigger] below.spans[k]).start >= head.len()
            // With it, its own runs come in between.
            &&& with.markers == above.markers + (hidden(
                head.len() as int,
                head.len() as int + open.len(),
            ) + hidden(hi, hi + close.len())) + below_it.markers
            &&& n >= 0
            &&& with.spans.take(above.spans.len() as int) == above.spans
            &&& with.spans.skip(above.spans.len() + n) == below_it.spans
            &&& forall|k: int|
                above.spans.len() <= k < above.spans.len() + n ==> {
                    &&& (#[trigger] with.spans[k]).style == Style::CodeBlock
                    &&& lo <= with.spans[k].start < with.spans[k].end <= hi
                }
        }),
{
    let none = Seq::<int>::empty();
    let block = open + seq!['\n'] + inner + close + seq!['\n'];
    let h = head.len() as int;
    let (above, levels) = through(head, 0, none);
    let tail_markup = markdown::markup_from(tail, 0, false, levels);
    let below = shifted(tail_markup, h);
    lemma_above(head, 0, none);
    lemma_below_head(tail, levels, h);
    lemma_without_block(head, tail);
    lemma_with_block(head, open, inner, close, tail);
    let lo = open.len() as int + 1;
    let hi = lo + inner.len();
    let code = code_lines(block + tail, lo, hi);
    assert(block + tail =~= open + seq!['\n'] + inner + close + (seq!['\n'] + tail));
    lemma_code_block(open, inner, close, seq!['\n'] + tail, levels);
    lemma_between(
        above,
        code,
        hidden(0, open.len() as int) + hidden(hi, hi + close.len()),
        tail_markup,
        h,
        block.len() as int,
        lo,
        hi,
    );
    assert(shifted(
        Markup {
            spans: seq![],
            markers: hidden(0, open.len() as int) + hidden(hi, hi + close.len()),
        },
        h,
    ).markers =~= hidden(h, h + open.len()) + hidden(h + hi, h + hi + close.len()));
    (above, below)
}

proof fn lemma_without_block(head: Seq<char>, tail: Seq<char>)
    requires
        head.len() == 0 || head.last() == '\n',
        no_fences(head),
    ensures
        ({
            let (above, levels) = through(head, 0, seq![]);
            markdown::markup(head + tail) == before(
                above.spans,
                above.markers,
                shifted(markdown::markup_from(tail, 0, false, levels), head.len() as int),
            )
        }),
{
    let (above, levels) = through(head, 0, seq![]);
    lemma_through(head, tail, 0, seq![]);
    lemma_shift_text(head, tail, 0, false, levels);
}

proof fn lemma_with_block(
    head: Seq<char>,
    open: Seq<char>,
    inner: Seq<char>,
    close: Seq<char>,
    tail: Seq<char>,
)
    requires
        head.len() == 0 || head.last() == '\n',
        no_fences(head),
        one_line(open) && fence_line(open),
        inner.len() == 0 || inner.last() == '\n',
        no_fences(inner),
        one_line(close) && fence_line(close),
    ensures
        ({
            let block = open + seq!['\n'] + inner + close + seq!['\n'];
            let (above, levels) = through(head, 0, seq![]);
            let lo = open.len() as int + 1;
            let hi = lo + inner.len();
            markdown::markup(head + block + tail) == before(
                above.spans,
                above.markers,
                shifted(
                    before(
                        code_lines(block + tail, lo, hi),
                        hidden(0, open.len() as int) + hidden(hi, hi + close.len()),
                        shifted(
                            markdown::markup_from(tail, 0, false, levels),
                            block.len() as int,
                        ),
                    ),
                    head.len() as int,
                ),
            )
        }),
{
    let block = open + seq!['\n'] + inner + close + seq!['\n'];
    let (above, levels) = through(head, 0, seq![]);
    let rest = block + tail;
    assert(head + block + tail =~= head + rest);
    lemma_without_block(head, rest);
    lemma_code_block(open, inner, close, seq!['\n'] + tail, levels);
    assert(rest =~= open + seq!['\n'] + inner + close + (seq!['\n'] + tail));
    lemma_shift_text(block, tail, 0, false, levels);
}

/// Runs between two others, all of them moved.
proof fn lemma_between(
    above: Markup,
    code: Seq<StyledRun>,
    fences: Seq<SyntaxRun>,
    tail: Markup,
    h: int,
    by: int,
    lo: int,
    hi: int,
)
    requires
        forall|k: int|
            0 <= k < code.len() ==> {
                &&& (#[trigger] code[k]).style == Style::CodeBlock
                &&& lo <= code[k].start < code[k].end <= hi
            },
    ensures
        ({
            let with = before(
                above.spans,
                above.markers,
                shifted(before(code, fences, shifted(tail, by)), h),
            );
            let n = code.len() as int;
            let below_it = shifted(shifted(tail, h), by);
            &&& with.spans.len() == above.spans.len() + n + tail.spans.len()
            &&& with.spans.take(above.spans.len() as int) == above.spans
            &&& with.spans.skip(above.spans.len() + n) == below_it.spans
            &&& with.markers == above.markers + shifted(
                Markup { spans: seq![], markers: fences },
                h,
            ).markers + below_it.markers
            &&& forall|k: int|
                above.spans.len() <= k < above.spans.len() + n ==> {
                    &&& (#[trigger] with.spans[k]).style == Style::CodeBlock
                    &&& h + lo <= with.spans[k].start < with.spans[k].end <= h + hi
                }
        }),
{
    let here = before(code, fences, shifted(tail, by));
    let moved = shifted(here, h);
    let with = before(above.spans, above.markers, moved);
    let n = code.len() as int;
    let below_it = shifted(shifted(tail, h), by);
    assert(with.spans.take(above.spans.len() as int) =~= above.spans);
    assert(with.spans.skip(above.spans.len() + n) =~= below_it.spans);
    assert(with.markers =~= above.markers + shifted(
        Markup { spans: seq![], markers: fences },
        h,
    ).markers + below_it.markers);
    assert forall|k: int| above.spans.len() <= k < above.spans.len() + n implies {
        &&& (#[trigger] with.spans[k]).style == Style::CodeBlock
        &&& h + lo <= with.spans[k].start < with.spans[k].end <= h + hi
    } by {
        let c = code[k - above.spans.len()];
        assert(with.spans[k] == moved.spans[k - above.spans.len()]);
        assert(here.spans[k - above.spans.len()] == c);
    }
}

proof fn lemma_above(head: Seq<char>, start: int, levels: Seq<int>)
    requires
        0 <= start <= head.len(),
    ensures
        forall|k: int|
            0 <= k < through(head, start, levels).0.spans.len() ==> (#[trigger] through(
                head,
                start,
                levels,
            ).0.spans[k]).end <= head.len(),
    decreases head.len() - start,
{
    text::lemma_line_end(head, start);
    let end = text::line_end(head, start);
    if end < head.len() {
        let line = head.subrange(start, end);
        let open = markdown::levels_after(levels, line);
        lemma_above(head, end + 1, open);
        laws::lemma_line(line, start, levels);
        let here = markdown::line_markup(line, start, levels);
        let rest = through(head, end + 1, open).0;
        let all = through(head, start, levels).0;
        assert forall|k: int| 0 <= k < all.spans.len() implies (#[trigger] all.spans[k]).end
            <= head.len() by {
            if k < here.spans.len() {
                assert(all.spans[k] == here.spans[k]);
            } else {
                assert(all.spans[k] == rest.spans[k - here.spans.len()]);
            }
        }
    }
}

proof fn lemma_below_head(tail: Seq<char>, levels: Seq<int>, h: int)
    ensures
        forall|k: int|
            0 <= k < shifted(markdown::markup_from(tail, 0, false, levels), h).spans.len() ==> (
            #[trigger] shifted(markdown::markup_from(tail, 0, false, levels), h).spans[k]).start
                >= h,
{
    laws::lemma_text(tail, 0, false, levels);
    let m = markdown::markup_from(tail, 0, false, levels);
    assert forall|k: int| 0 <= k < shifted(m, h).spans.len() implies (#[trigger] shifted(
        m,
        h,
    ).spans[k]).start >= h by {
        assert(m.spans[k].start >= 0);
    }
}

// ---- stripped text ----

/// Is position `i` covered by one of the hidden runs?
pub open spec fn covered(markers: Seq<SyntaxRun>, i: int) -> bool {
    exists|k: int| 0 <= k < markers.len() && (#[trigger] markers[k]).start <= i < markers[k].end
}

/// Is position `i` part of a bullet or of a number that starts its line?
pub open spec fn on_a_bullet(text: Seq<char>, i: int) -> bool {
    exists|a: int, b: int, lead: int, len: int|
        is_line(text, a, b) && #[trigger] item_shape(text.subrange(a, b), lead, len) && a + lead
            <= i < a + lead + len
}

/// Are these, in order, the positions of `text` that stay when its syntax and
/// its bullets go?
pub open spec fn kept(text: Seq<char>, positions: Seq<int>) -> bool {
    &&& forall|j: int, k: int|
        0 <= j < k < positions.len() ==> #[trigger] positions[j] < #[trigger] positions[k]
    &&& forall|i: int| #[trigger]
        positions.contains(i) <==> 0 <= i < text.len() && !covered(
            markdown::markup(text).markers,
            i,
        ) && !on_a_bullet(text, i)
}

spec fn kept_before(text: Seq<char>, n: int) -> Seq<int>
    decreases n,
{
    if n <= 0 {
        seq![]
    } else if markdown::dropped(text, n - 1) {
        kept_before(text, n - 1)
    } else {
        kept_before(text, n - 1).push(n - 1)
    }
}

proof fn lemma_kept_before(text: Seq<char>, n: int)
    requires
        0 <= n <= text.len(),
    ensures
        ({
            let p = kept_before(text, n);
            &&& markdown::stripped_prefix(text, n) == p.map_values(|i: int| text[i])
            &&& forall|j: int, k: int| 0 <= j < k < p.len() ==> #[trigger] p[j] < #[trigger] p[k]
            &&& forall|i: int| #[trigger]
                p.contains(i) <==> 0 <= i < n && !markdown::dropped(text, i)
        }),
    decreases n,
{
    let p = kept_before(text, n);
    if n > 0 {
        lemma_kept_before(text, n - 1);
        let q = kept_before(text, n - 1);
        assert forall|j: int| 0 <= j < q.len() implies #[trigger] q[j] < n - 1 by {
            assert(q.contains(q[j]));
        }
        if !markdown::dropped(text, n - 1) {
            assert(p[q.len() as int] == n - 1);
            assert forall|i: int| #[trigger] p.contains(i) implies 0 <= i < n && !markdown::dropped(
                text,
                i,
            ) by {
                let k = choose|k: int| 0 <= k < p.len() && p[k] == i;
                if k < q.len() {
                    assert(q[k] == i);
                    assert(q.contains(i));
                }
            }
            assert forall|i: int| 0 <= i < n && !markdown::dropped(text, i) implies
                #[trigger] p.contains(i) by {
                if i < n - 1 {
                    assert(q.contains(i));
                    let k = choose|k: int| 0 <= k < q.len() && q[k] == i;
                    assert(p[k] == i);
                }
            }
            assert(q.push(n - 1).map_values(|i: int| text[i]) =~= q.map_values(
                |i: int| text[i],
            ).push(text[n - 1]));
        }
    } else {
        assert(p.map_values(|i: int| text[i]) =~= seq![]);
    }
}

proof fn lemma_dropped(text: Seq<char>, i: int)
    requires
        0 <= i < text.len(),
    ensures
        markdown::dropped(text, i) == (covered(markdown::markup(text).markers, i) || on_a_bullet(
            text,
            i,
        )),
{
    let m = markdown::markup(text).markers;
    if covered(m, i) {
        let k = choose|k: int| 0 <= k < m.len() && (#[trigger] m[k]).start <= i < m[k].end;
        assert(markdown::marked(m, i));
    }
    if markdown::marked(m, i) {
        let k = choose|k: int| 0 <= k < m.len() && (#[trigger] m[k]).start <= i < m[k].end;
        assert(covered(m, i));
    }
    let s = markdown::line_start(text, i);
    lemma_line_start(text, i);
    text::lemma_line_end(text, s);
    let e = text::line_end(text, s);
    let line = text.subrange(s, e);
    assert(is_line(text, s, e));
    lemma_item_found(line);
    if on_a_bullet(text, i) {
        let (a, b, lead, len) = choose|a: int, b: int, lead: int, len: int|
            is_line(text, a, b) && #[trigger] item_shape(text.subrange(a, b), lead, len) && a + lead
                <= i < a + lead + len;
        assert(a == s) by {
            if a < s {
                assert(text[s - 1] == '\n');
            }
            if s < a {
                assert(text[a - 1] == '\n');
            }
        }
        lemma_line_end_is(text, a, b);
        lemma_item(line, lead, len);
    }
    if markdown::in_bullet(text, i) {
        let lead = markdown::indent(line);
        let len = markdown::item(line.skip(lead))->0;
        assert(item_shape(text.subrange(s, e), lead, len));
    }
}

proof fn lemma_line_start(text: Seq<char>, i: int)
    requires
        0 <= i <= text.len(),
    ensures
        ({
            let s = markdown::line_start(text, i);
            &&& 0 <= s <= i
            &&& s == 0 || text[s - 1] == '\n'
            &&& forall|k: int| s <= k < i ==> text[k] != '\n'
        }),
    decreases i,
{
    if i > 0 && text[i - 1] != '\n' {
        lemma_line_start(text, i - 1);
    }
}

/// Stripping drops what is hidden and the bullets, and keeps everything else
/// in its order.
pub proof fn stripping_drops_syntax_and_bullets(text: Seq<char>) -> (positions: Seq<int>)
    ensures
        kept(text, positions),
        markdown::stripped(text) == positions.map_values(|i: int| text[i]),
{
    lemma_kept_before(text, text.len() as int);
    let p = kept_before(text, text.len() as int);
    assert forall|i: int| #[trigger] p.contains(i) <==> 0 <= i < text.len() && !covered(
        markdown::markup(text).markers,
        i,
    ) && !on_a_bullet(text, i) by {
        if 0 <= i < text.len() {
            lemma_dropped(text, i);
        }
    }
    p
}

// ---- what is handed out ----

/// What is handed out says each run as it was found, in the same order.
pub proof fn runs_are_handed_out_as_found(parsed: Parsed, k: int)
    ensures
        parsed@.spans.len() == parsed.spans@.len(),
        parsed@.markers.len() == parsed.markers@.len(),
        0 <= k < parsed.spans@.len() ==> {
            &&& parsed.spans@[k].start == parsed@.spans[k].start
            &&& parsed.spans@[k].end == parsed@.spans[k].end
            &&& parsed.spans@[k].style == parsed@.spans[k].style
        },
        0 <= k < parsed.markers@.len() ==> {
            &&& parsed.markers@[k].start == parsed@.markers[k].start
            &&& parsed.markers@[k].end == parsed@.markers[k].end
        },
{
}

} // verus!
