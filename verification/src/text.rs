//! Text as sequences of characters: numerals, white space, trimming.

use vstd::prelude::*;

verus! {

/// `String::push` puts one character at the end of the string.
pub assume_specification[ String::push ](s: &mut String, c: char)
    ensures
        final(s)@ == old(s)@.push(c),
;

/// `==` on `str` holds exactly when both sides hold the same characters.
pub assume_specification[ <str as PartialEq>::eq ](s: &str, other: &str) -> (r: bool)
    ensures
        r == (s@ == other@),
;

/// The character of one digit: `0` to `9`, then `a` to `f`.
pub open spec fn digit(d: int) -> char {
    if d < 10 {
        (48 + d) as char
    } else {
        (87 + d) as char
    }
}

/// `n` written in `base`, most significant digit first, with no leading zero.
pub open spec fn numeral(n: int, base: int) -> Seq<char>
    decreases n,
{
    if base < 2 || n < base {
        seq![digit(n)]
    } else {
        proof {
            assert(0 < n / base < n) by (nonlinear_arith)
                requires
                    2 <= base <= n,
            ;
        }
        numeral(n / base, base).push(digit(n % base))
    }
}

/// `n` in decimal, with a leading `-` when it is negative.
pub open spec fn decimal(n: int) -> Seq<char> {
    if n < 0 {
        seq!['-'] + numeral(-n, 10)
    } else {
        numeral(n, 10)
    }
}

/// Does `c` have the Unicode `White_Space` property?
pub open spec fn white_space(c: char) -> bool {
    let n = c as u32;
    ||| 0x9 <= n <= 0xd
    ||| n == 0x20
    ||| n == 0x85
    ||| n == 0xa0
    ||| n == 0x1680
    ||| 0x2000 <= n <= 0x200a
    ||| n == 0x2028
    ||| n == 0x2029
    ||| n == 0x202f
    ||| n == 0x205f
    ||| n == 0x3000
}

/// How many bytes UTF-8 spends on `c`.
pub open spec fn utf8_width(c: char) -> int {
    let n = c as u32;
    if n < 0x80 {
        1
    } else if n < 0x800 {
        2
    } else if n < 0x10000 {
        3
    } else {
        4
    }
}

/// How many bytes UTF-8 spends on `text`.
pub open spec fn utf8_len(text: Seq<char>) -> int
    decreases text.len(),
{
    if text.len() == 0 {
        0
    } else {
        utf8_len(text.drop_last()) + utf8_width(text.last())
    }
}

/// Is there nothing but white space in `text`?
pub open spec fn blank(text: Seq<char>) -> bool {
    forall|i: int| 0 <= i < text.len() ==> white_space(#[trigger] text[i])
}

/// `text` without the white space at either end.
pub open spec fn trimmed(text: Seq<char>) -> Seq<char>
    decreases text.len(),
{
    if text.len() == 0 {
        text
    } else if white_space(text.first()) {
        trimmed(text.drop_first())
    } else if white_space(text.last()) {
        trimmed(text.drop_last())
    } else {
        text
    }
}

/// Where the line that holds position `from` ends: the next line feed at or
/// after `from`, or the end of the text.
pub open spec fn line_end(text: Seq<char>, from: int) -> int
    decreases text.len() - from,
{
    if from >= text.len() || text[from] == '\n' {
        from
    } else {
        line_end(text, from + 1)
    }
}

/// How many times `c` stands at the front of `s` before anything else does.
pub open spec fn run_len(s: Seq<char>, c: char) -> int
    decreases s.len(),
{
    if s.len() > 0 && s[0] == c {
        1 + run_len(s.drop_first(), c)
    } else {
        0
    }
}

/// Does `needle` stand in `s` at `at`?
pub open spec fn occurs_at(s: Seq<char>, at: int, needle: Seq<char>) -> bool {
    &&& 0 <= at
    &&& at + needle.len() <= s.len()
    &&& s.subrange(at, at + needle.len()) == needle
}

/// Every string as a sequence of characters.
pub open spec fn texts(strings: Seq<String>) -> Seq<Seq<char>> {
    strings.map_values(|s: String| s@)
}

/// An optional string as a sequence of characters.
pub open spec fn optional_text(s: Option<String>) -> Option<Seq<char>> {
    match s {
        Some(t) => Some(t@),
        None => None,
    }
}

/// Every character of `text`, in order.
pub fn chars_of(text: &str) -> (r: Vec<char>)
    ensures
        r@ == text@,
{
    let mut out: Vec<char> = Vec::new();
    for c in it: text.chars()
        invariant
            out@ == text@.take(it.index()),
            it.seq() == text@,
    {
        out.push(c);
    }
    out
}

/// The characters `from..to` of `chars` as a string.
pub fn string_of(chars: &[char], from: usize, to: usize) -> (r: String)
    requires
        from <= to <= chars@.len(),
    ensures
        r@ == chars@.subrange(from as int, to as int),
{
    let mut out = String::new();
    let mut i: usize = from;
    while i < to
        invariant
            from <= i <= to <= chars@.len(),
            out@ == chars@.subrange(from as int, i as int),
        decreases to - i,
    {
        out.push(chars[i]);
        i += 1;
    }
    out
}

fn digit_char(d: u8) -> (r: char)
    requires
        d < 16,
    ensures
        r == digit(d as int),
{
    if d < 10 {
        (48 + d) as char
    } else {
        (87 + d) as char
    }
}

/// Append `n`, written in `base`.
pub fn push_numeral(out: &mut String, n: u128, base: u8)
    requires
        2 <= base <= 16,
    ensures
        final(out)@ == old(out)@ + numeral(n as int, base as int),
    decreases n,
{
    let b: u128 = base as u128;
    if n >= b {
        assert(0 < n / b < n) by (nonlinear_arith)
            requires
                2 <= b <= n,
        ;
        push_numeral(out, n / b, base);
    }
    assert(0 <= n % b < b) by (nonlinear_arith)
        requires
            2 <= b,
    ;
    assert(n < b ==> n % b == n) by (nonlinear_arith);
    out.push(digit_char((n % b) as u8));
    assert(out@ == old(out)@ + numeral(n as int, base as int));
}

/// `n` in decimal.
pub fn decimal_u64(n: u64) -> (r: String)
    ensures
        r@ == decimal(n as int),
{
    let mut out = String::new();
    push_numeral(&mut out, n as u128, 10);
    out
}

/// `n` in decimal, signed.
pub fn decimal_i32(n: i32) -> (r: String)
    ensures
        r@ == decimal(n as int),
{
    let mut out = String::new();
    if n < 0 {
        out.push('-');
        push_numeral(&mut out, (-(n as i64)) as u128, 10);
    } else {
        push_numeral(&mut out, n as u128, 10);
    }
    assert(out@ == decimal(n as int));
    out
}

/// Does `c` have the Unicode `White_Space` property?
pub fn is_white_space(c: char) -> (r: bool)
    ensures
        r == white_space(c),
{
    let n: u32 = c as u32;
    (0x9 <= n && n <= 0xd) || n == 0x20 || n == 0x85 || n == 0xa0 || n == 0x1680 || (0x2000 <= n
        && n <= 0x200a) || n == 0x2028 || n == 0x2029 || n == 0x202f || n == 0x205f || n == 0x3000
}

/// How many bytes UTF-8 spends on `c`.
pub fn utf8_width_of(c: char) -> (r: usize)
    ensures
        r == utf8_width(c),
{
    let n: u32 = c as u32;
    if n < 0x80 {
        1
    } else if n < 0x800 {
        2
    } else if n < 0x10000 {
        3
    } else {
        4
    }
}

/// Is there nothing but white space in `text`?
pub fn is_blank(text: &str) -> (r: bool)
    ensures
        r == blank(text@),
{
    let chars = chars_of(text);
    let mut i: usize = 0;
    while i < chars.len()
        invariant
            i <= chars@.len(),
            chars@ == text@,
            forall|j: int| 0 <= j < i ==> white_space(#[trigger] chars@[j]),
        decreases chars@.len() - i,
    {
        if !is_white_space(chars[i]) {
            assert(!white_space(text@[i as int]));
            return false;
        }
        i += 1;
    }
    true
}

/// The range of `chars` left when the white space at either end is gone.
pub fn trim(chars: &[char]) -> (r: (usize, usize))
    ensures
        r.0 <= r.1 <= chars@.len(),
        chars@.subrange(r.0 as int, r.1 as int) == trimmed(chars@),
{
    let mut from: usize = 0;
    let mut to: usize = chars.len();
    assert(chars@.subrange(0, to as int) =~= chars@);
    while from < to && is_white_space(chars[from])
        invariant
            from <= to == chars@.len(),
            trimmed(chars@.subrange(from as int, to as int)) == trimmed(chars@),
        decreases to - from,
    {
        assert(chars@.subrange(from as int, to as int).drop_first() =~= chars@.subrange(
            from + 1,
            to as int,
        ));
        from += 1;
    }
    while from < to && is_white_space(chars[to - 1])
        invariant
            from <= to <= chars@.len(),
            from < to ==> !white_space(chars@[from as int]),
            trimmed(chars@.subrange(from as int, to as int)) == trimmed(chars@),
        decreases to - from,
    {
        assert(chars@.subrange(from as int, to as int).drop_last() =~= chars@.subrange(
            from as int,
            to - 1,
        ));
        to -= 1;
    }
    (from, to)
}
/// Where the line that holds `from` ends.
pub fn find_line_end(chars: &[char], from: usize) -> (r: usize)
    requires
        from <= chars@.len(),
    ensures
        r == line_end(chars@, from as int),
        from <= r <= chars@.len(),
{
    let mut i: usize = from;
    while i < chars.len() && chars[i] != '\n'
        invariant
            from <= i <= chars@.len(),
            line_end(chars@, from as int) == line_end(chars@, i as int),
        decreases chars@.len() - i,
    {
        i += 1;
    }
    i
}

/// A numeral is made of digits, so it holds no `-` and is never empty.
pub proof fn lemma_numeral_digits(n: int, base: int)
    requires
        0 <= n,
        2 <= base <= 16,
    ensures
        numeral(n, base).len() > 0,
        forall|i: int| 0 <= i < numeral(n, base).len() ==> #[trigger] numeral(n, base)[i] != '-',
    decreases n,
{
    if n >= base {
        assert(0 < n / base < n && 0 <= n % base < base) by (nonlinear_arith)
            requires
                2 <= base <= n,
        ;
        lemma_numeral_digits(n / base, base);
    }
}

/// Two numbers with the same numeral are the same number.
pub proof fn lemma_numeral_injective(n: int, m: int, base: int)
    requires
        0 <= n,
        0 <= m,
        2 <= base <= 16,
        numeral(n, base) == numeral(m, base),
    ensures
        n == m,
    decreases n,
{
    lemma_numeral_digits(n, base);
    lemma_numeral_digits(m, base);
    let a = numeral(n, base);
    let b = numeral(m, base);
    if n >= base {
        assert(0 < n / base < n && 0 <= n % base < base && n == base * (n / base) + n % base)
            by (nonlinear_arith)
            requires
                2 <= base <= n,
        ;
        lemma_numeral_digits(n / base, base);
    }
    if m >= base {
        assert(0 < m / base < m && 0 <= m % base < base && m == base * (m / base) + m % base)
            by (nonlinear_arith)
            requires
                2 <= base <= m,
        ;
        lemma_numeral_digits(m / base, base);
    }
    if n >= base && m >= base {
        assert(a.drop_last() == numeral(n / base, base));
        assert(b.drop_last() == numeral(m / base, base));
        lemma_numeral_injective(n / base, m / base, base);
        assert(a.last() == digit(n % base) && b.last() == digit(m % base));
    } else {
        assert(a.len() == b.len());
        assert(n < base && m < base);
        assert(a[0] == b[0]);
    }
}

/// Trimming never makes a text longer, invents no character, and leaves
/// nothing exactly of a blank text.
pub proof fn lemma_trimmed(text: Seq<char>)
    ensures
        trimmed(text).len() <= text.len(),
        forall|c: char| #[trigger] trimmed(text).contains(c) ==> text.contains(c),
        blank(text) == (trimmed(text).len() == 0),
    decreases text.len(),
{
    if text.len() > 0 {
        if white_space(text.first()) {
            let rest = text.drop_first();
            lemma_trimmed(rest);
            lemma_drop_first_contains(text);
            assert(blank(text) == blank(rest)) by {
                if blank(rest) {
                    assert forall|i: int| 0 <= i < text.len() implies white_space(
                        #[trigger] text[i],
                    ) by {
                        if i > 0 {
                            assert(text[i] == rest[i - 1]);
                        }
                    }
                }
                if blank(text) {
                    assert forall|i: int| 0 <= i < rest.len() implies white_space(
                        #[trigger] rest[i],
                    ) by {
                        assert(rest[i] == text[i + 1]);
                    }
                }
            }
        } else {
            assert(!white_space(text[0]));
            if white_space(text.last()) {
                let rest = text.drop_last();
                lemma_trimmed(rest);
                assert(rest.len() > 0 && rest[0] == text[0]);
                assert forall|c: char| #[trigger] trimmed(text).contains(c) implies text.contains(
                    c,
                ) by {
                    assert(rest.contains(c));
                    let i = choose|i: int| 0 <= i < rest.len() && rest[i] == c;
                    assert(text[i] == c);
                }
            }
        }
    }
}

proof fn lemma_drop_first_contains(text: Seq<char>)
    requires
        text.len() > 0,
    ensures
        forall|c: char| #[trigger] text.drop_first().contains(c) ==> text.contains(c),
{
    let rest = text.drop_first();
    assert forall|c: char| #[trigger] rest.contains(c) implies text.contains(c) by {
        let i = choose|i: int| 0 <= i < rest.len() && rest[i] == c;
        assert(text[i + 1] == c);
    }
}

/// Where a line ends, said without recursion.
pub proof fn lemma_line_end(text: Seq<char>, from: int)
    requires
        0 <= from <= text.len(),
    ensures
        from <= line_end(text, from) <= text.len(),
        forall|i: int| from <= i < line_end(text, from) ==> #[trigger] text[i] != '\n',
        line_end(text, from) < text.len() ==> text[line_end(text, from)] == '\n',
    decreases text.len() - from,
{
    if from < text.len() && text[from] != '\n' {
        lemma_line_end(text, from + 1);
    }
}

/// The run at the front of `s`, said without recursion.
pub proof fn lemma_run_len(s: Seq<char>, c: char)
    ensures
        0 <= run_len(s, c) <= s.len(),
        forall|i: int| 0 <= i < run_len(s, c) ==> #[trigger] s[i] == c,
        run_len(s, c) < s.len() ==> s[run_len(s, c)] != c,
    decreases s.len(),
{
    if s.len() > 0 && s[0] == c {
        let t = s.drop_first();
        lemma_run_len(t, c);
        assert forall|i: int| 0 <= i < run_len(s, c) implies #[trigger] s[i] == c by {
            if i > 0 {
                assert(s[i] == t[i - 1]);
            }
        }
        if run_len(s, c) < s.len() {
            assert(s[run_len(s, c)] == t[run_len(t, c)]);
        }
    }
}

} // verus!
