//! What holds of text: numbers written out, white space, and lines.

use crate::text;
use vstd::prelude::*;
use vstd::utf8::encode_utf8;

verus! {

// ---- numbers ----

/// What a digit is worth: `0` to `9`, then `a` to `f`.
pub open spec fn worth(c: char) -> int {
    if '0' <= c <= '9' {
        c as int - '0' as int
    } else {
        c as int - 'a' as int + 10
    }
}

/// The number that these digits are read as.
pub open spec fn read_number(digits: Seq<char>, base: int) -> int
    decreases digits.len(),
{
    if digits.len() == 0 {
        0
    } else {
        read_number(digits.drop_last(), base) * base + worth(digits.last())
    }
}

/// Is this a number written out in `base`: digits only, at least one, and no
/// zero in front of others?
pub open spec fn well_written(digits: Seq<char>, base: int) -> bool {
    &&& digits.len() > 0
    &&& forall|i: int|
        0 <= i < digits.len() ==> {
            &&& '0' <= #[trigger] digits[i] <= '9' || 'a' <= digits[i] <= 'f'
            &&& 0 <= worth(digits[i]) < base
        }
    &&& digits.len() > 1 ==> digits[0] != '0'
}

/// A number that is written out reads as itself.
pub proof fn numbers_read_as_written(n: int, base: int)
    requires
        0 <= n,
        2 <= base <= 16,
    ensures
        read_number(text::numeral(n, base), base) == n,
        well_written(text::numeral(n, base), base),
    decreases n,
{
    let s = text::numeral(n, base);
    if n < base {
        assert(s =~= seq![text::digit(n)]);
        assert(s.drop_last() =~= seq![]);
        assert(read_number(seq![], base) == 0);
        assert(0 * base == 0);
    } else {
        assert(0 < n / base < n && 0 <= n % base < base && n == (n / base) * base + n % base)
            by (nonlinear_arith)
            requires
                2 <= base <= n,
        ;
        numbers_read_as_written(n / base, base);
        let front = text::numeral(n / base, base);
        assert(s.drop_last() =~= front);
        if n / base < base {
            assert(front =~= seq![text::digit(n / base)]);
            assert(front[0] != '0');
        } else if front.len() == 1 {
            // One digit is worth less than the base.
            assert(front.drop_last() =~= seq![]);
            assert(read_number(front, base) == read_number(seq![], base) * base + worth(front[0]));
            assert(0 * base == 0);
        }
        assert(s[0] == front[0]);
    }
}

/// A negative number has a minus sign and is otherwise written as a positive
/// one.
pub proof fn negative_numbers_have_a_sign(n: int)
    ensures
        n >= 0 ==> text::decimal(n) == text::numeral(n, 10),
        n < 0 ==> text::decimal(n).len() > 0 && text::decimal(n)[0] == '-'
            && text::decimal(n).skip(1) == text::numeral(-n, 10),
{
    if n < 0 {
        assert(text::decimal(n).skip(1) =~= text::numeral(-n, 10));
    }
}

// ---- white space ----

/// Of the characters up to the last of the Latin alphabets, white space are
/// the tab, the line and page separators, the space, the next line and the
/// non-breaking space; beyond them, the spaces of typography and two
/// separators.
pub proof fn white_space_is(c: char)
    ensures
        text::white_space(c) <==> (seq![
            '\t',
            '\n',
            '\u{b}',
            '\u{c}',
            '\r',
            ' ',
            '\u{85}',
            '\u{a0}',
            '\u{1680}',
            '\u{2000}',
            '\u{2001}',
            '\u{2002}',
            '\u{2003}',
            '\u{2004}',
            '\u{2005}',
            '\u{2006}',
            '\u{2007}',
            '\u{2008}',
            '\u{2009}',
            '\u{200a}',
            '\u{2028}',
            '\u{2029}',
            '\u{202f}',
            '\u{205f}',
            '\u{3000}',
        ]).contains(c),
{
    let all = seq![
        '\t',
        '\n',
        '\u{b}',
        '\u{c}',
        '\r',
        ' ',
        '\u{85}',
        '\u{a0}',
        '\u{1680}',
        '\u{2000}',
        '\u{2001}',
        '\u{2002}',
        '\u{2003}',
        '\u{2004}',
        '\u{2005}',
        '\u{2006}',
        '\u{2007}',
        '\u{2008}',
        '\u{2009}',
        '\u{200a}',
        '\u{2028}',
        '\u{2029}',
        '\u{202f}',
        '\u{205f}',
        '\u{3000}',
    ];
    assert(all[0] == '\t' && all[1] == '\n' && all[2] == '\u{b}' && all[3] == '\u{c}');
    assert(all[4] == '\r' && all[5] == ' ' && all[6] == '\u{85}' && all[7] == '\u{a0}');
    assert(all[8] == '\u{1680}' && all[9] == '\u{2000}' && all[10] == '\u{2001}');
    assert(all[11] == '\u{2002}' && all[12] == '\u{2003}' && all[13] == '\u{2004}');
    assert(all[14] == '\u{2005}' && all[15] == '\u{2006}' && all[16] == '\u{2007}');
    assert(all[17] == '\u{2008}' && all[18] == '\u{2009}' && all[19] == '\u{200a}');
    assert(all[20] == '\u{2028}' && all[21] == '\u{2029}' && all[22] == '\u{202f}');
    assert(all[23] == '\u{205f}' && all[24] == '\u{3000}');
    if all.contains(c) {
        let i = choose|i: int| 0 <= i < all.len() && all[i] == c;
    }
}

/// A text is blank when there is nothing but white space in it: one character
/// that is not makes all the difference.
pub proof fn blank_texts_hold_only_white_space(s: Seq<char>, c: char)
    ensures
        text::blank(seq![]),
        text::blank(s.push(c)) <==> text::blank(s) && text::white_space(c),
{
    let more = s.push(c);
    if text::blank(more) {
        assert forall|i: int| 0 <= i < s.len() implies text::white_space(#[trigger] s[i]) by {
            assert(more[i] == s[i]);
        }
        assert(more[s.len() as int] == c);
    }
}

/// Trimming leaves what is between the first and the last character that is
/// not white space.
pub proof fn trimming_goes_up_to_the_text(s: Seq<char>, lo: int, hi: int)
    requires
        0 <= lo < hi <= s.len(),
        !text::white_space(s[lo]) && !text::white_space(s[hi - 1]),
        forall|i: int| 0 <= i < lo ==> text::white_space(#[trigger] s[i]),
        forall|i: int| hi <= i < s.len() ==> text::white_space(#[trigger] s[i]),
    ensures
        text::trimmed(s) == s.subrange(lo, hi),
    decreases s.len(),
{
    if lo > 0 {
        assert(text::white_space(s[0]));
        let t = s.drop_first();
        assert forall|i: int| 0 <= i < lo - 1 implies text::white_space(#[trigger] t[i]) by {
            assert(t[i] == s[i + 1]);
        }
        assert forall|i: int| hi - 1 <= i < t.len() implies text::white_space(#[trigger] t[i]) by {
            assert(t[i] == s[i + 1]);
        }
        trimming_goes_up_to_the_text(t, lo - 1, hi - 1);
        assert(t.subrange(lo - 1, hi - 1) =~= s.subrange(lo, hi));
    } else if hi < s.len() {
        assert(text::white_space(s[s.len() - 1]));
        let t = s.drop_last();
        trimming_goes_up_to_the_text(t, lo, hi);
        assert(t.subrange(lo, hi) =~= s.subrange(lo, hi));
    } else {
        assert(s.subrange(lo, hi) =~= s);
    }
}

// ---- bytes ----

proof fn lemma_utf8_len_front(s: Seq<char>)
    requires
        s.len() > 0,
    ensures
        text::utf8_len(s) == text::utf8_width(s[0]) + text::utf8_len(s.drop_first()),
    decreases s.len(),
{
    if s.len() > 1 {
        lemma_utf8_len_front(s.drop_last());
        assert(s.drop_last().drop_first() =~= s.drop_first().drop_last());
    } else {
        assert(s.drop_first() =~= s.drop_last());
    }
}

/// The length in bytes is that of the text in UTF-8.
pub proof fn bytes_are_those_of_utf8(s: Seq<char>)
    ensures
        text::utf8_len(s) == encode_utf8(s).len(),
    decreases s.len(),
{
    if s.len() > 0 {
        lemma_utf8_len_front(s);
        bytes_are_those_of_utf8(s.drop_first());
        vstd::utf8::char_is_scalar(s[0]);
    }
}

// ---- lists of texts ----

/// A list of strings has their texts, in the same order.
pub proof fn texts_are_in_order(strings: Seq<String>, i: int)
    ensures
        text::texts(strings).len() == strings.len(),
        0 <= i < strings.len() ==> text::texts(strings)[i] == strings[i]@,
{
}

} // verus!
