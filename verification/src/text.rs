//! Text primitives shared by the readers of the per-process fact files.
//!
//! Text is modelled as `Seq<char>`. Executable code works on a `Vec<char>`
//! obtained once from the `&str` it was handed, so that every position can
//! be read in constant time.

use vstd::prelude::*;

verus! {

/// Whether `c` is one of the ten ASCII decimal digits.
pub open spec fn is_digit(c: char) -> bool {
    '0' <= c && c <= '9'
}

/// The number a decimal digit stands for; `0` for any other character.
pub open spec fn digit_value(c: char) -> nat {
    if is_digit(c) {
        (c as int - '0' as int) as nat
    } else {
        0
    }
}

/// Whether every character of `s` is a decimal digit.
pub open spec fn all_digits(s: Seq<char>) -> bool {
    forall|i: int| 0 <= i < s.len() ==> is_digit(#[trigger] s[i])
}

/// The number that the digit string `s` denotes in base ten, most
/// significant digit first. The empty string denotes `0`.
pub open spec fn decimal_value(s: Seq<char>) -> nat
    decreases s.len(),
{
    if s.len() == 0 {
        0
    } else {
        10 * decimal_value(s.drop_last()) + digit_value(s.last())
    }
}

/// The digits of a numeral: what follows one leading `+`, or the whole
/// text where there is none.
pub open spec fn numeral_digits(s: Seq<char>) -> Seq<char> {
    if s.len() > 0 && s[0] == '+' {
        s.subrange(1, s.len() as int)
    } else {
        s
    }
}

/// The unsigned 64-bit number that `s` denotes, if it denotes one.
///
/// A numeral is an optional `+` followed by at least one decimal digit and
/// nothing else; its value has to fit in 64 bits. Leading zeros are
/// allowed. Anything else, the empty text and a lone `+` included,
/// denotes nothing.
pub open spec fn decimal_u64(s: Seq<char>) -> Option<u64> {
    let digits = numeral_digits(s);
    if digits.len() > 0 && all_digits(digits) && decimal_value(digits) <= u64::MAX {
        Some(decimal_value(digits) as u64)
    } else {
        None
    }
}

/// A digit string is worth at least as much as each of its prefixes.
pub proof fn lemma_decimal_value_prefix(s: Seq<char>, k: int)
    requires
        0 <= k <= s.len(),
    ensures
        decimal_value(s.take(k)) <= decimal_value(s),
    decreases s.len() - k,
{
    if k == s.len() {
        assert(s.take(k) =~= s);
    } else {
        lemma_decimal_value_prefix(s.drop_last(), k);
        assert(s.drop_last().take(k) =~= s.take(k));
    }
}

/// Whether `s` is a numeral in its shortest form: at least one decimal
/// digit, no sign, and no leading zero but for the numeral `0` itself.
pub open spec fn is_canonical_numeral(s: Seq<char>) -> bool {
    &&& s.len() > 0
    &&& all_digits(s)
    &&& s.len() > 1 ==> s.first() != '0'
}

/// Two numerals in shortest form that denote the same number are the same
/// text.
pub proof fn lemma_canonical_numerals_agree(a: Seq<char>, b: Seq<char>)
    requires
        is_canonical_numeral(a),
        is_canonical_numeral(b),
        decimal_value(a) == decimal_value(b),
    ensures
        a == b,
    decreases a.len(),
{
    assert(is_digit(a.last()) && is_digit(b.last()));
    if a.len() == 1 && b.len() == 1 {
        assert(decimal_value(a.drop_last()) == 0);
        assert(decimal_value(b.drop_last()) == 0);
        assert(a.last() == b.last());
        assert(a =~= b);
    } else if a.len() == 1 || b.len() == 1 {
        let (short, long) = if a.len() == 1 {
            (a, b)
        } else {
            (b, a)
        };
        assert(decimal_value(short.drop_last()) == 0);
        let front = long.drop_last();
        assert(is_digit(front.first()));
        lemma_decimal_value_prefix(front, 1);
        assert(front.take(1).drop_last() =~= Seq::<char>::empty());
        assert(decimal_value(front.take(1).drop_last()) == 0);
        assert(front.take(1).last() == long.first());
        assert(decimal_value(front) >= 1);
    } else {
        let x = a.drop_last();
        let y = b.drop_last();
        assert(x.first() == a.first() && y.first() == b.first());
        assert(decimal_value(x) == decimal_value(y) && a.last() == b.last());
        lemma_canonical_numerals_agree(x, y);
        assert(a =~= x.push(a.last()));
        assert(b =~= y.push(b.last()));
    }
}

/// A numeral in shortest form whose value fits in 64 bits denotes that
/// value.
pub proof fn lemma_canonical_numeral_value(s: Seq<char>)
    requires
        is_canonical_numeral(s),
    ensures
        decimal_u64(s) == if decimal_value(s) <= u64::MAX {
            Some(decimal_value(s) as u64)
        } else {
            None
        },
{
}

/// The bounds of the trimmed form of `s`: `trim(s)` is what `s` holds
/// between them, everything outside them is white space, and unless
/// `trim(s)` is empty it begins and ends with a character that is not.
pub proof fn lemma_trim_bounds(s: Seq<char>) -> (bounds: (int, int))
    ensures
        0 <= bounds.0 <= bounds.1 <= s.len(),
        trim(s) == s.subrange(bounds.0, bounds.1),
        forall|i: int| 0 <= i < bounds.0 ==> is_whitespace(#[trigger] s[i]),
        forall|i: int| bounds.1 <= i < s.len() ==> is_whitespace(#[trigger] s[i]),
        bounds.0 < bounds.1 ==> !is_whitespace(s[bounds.0]) && !is_whitespace(s[bounds.1 - 1]),
{
    let from = lemma_trim_start_bound(s);
    let rest = s.skip(from);
    let len = lemma_trim_end_bound(rest);
    assert forall|i: int| from + len <= i < s.len() implies is_whitespace(#[trigger] s[i]) by {
        assert(s[i] == rest[i - from]);
    }
    (from, from + len)
}

/// The number of white-space characters that `s` begins with.
pub proof fn lemma_trim_start_bound(s: Seq<char>) -> (from: int)
    ensures
        0 <= from <= s.len(),
        trim_start(s) == s.skip(from),
        forall|i: int| 0 <= i < from ==> is_whitespace(#[trigger] s[i]),
        from < s.len() ==> !is_whitespace(s[from]),
    decreases s.len(),
{
    if s.len() > 0 && is_whitespace(s.first()) {
        let rest = s.drop_first();
        let from = lemma_trim_start_bound(rest);
        assert forall|i: int| 0 <= i < from + 1 implies is_whitespace(#[trigger] s[i]) by {
            if i > 0 {
                assert(s[i] == rest[i - 1]);
            }
        }
        from + 1
    } else {
        0
    }
}

/// The length of `s` without the white-space characters that it ends with.
pub proof fn lemma_trim_end_bound(s: Seq<char>) -> (to: int)
    ensures
        0 <= to <= s.len(),
        trim_end(s) == s.take(to),
        forall|i: int| to <= i < s.len() ==> is_whitespace(#[trigger] s[i]),
        0 < to ==> !is_whitespace(s[to - 1]),
    decreases s.len(),
{
    if s.len() > 0 && is_whitespace(s.last()) {
        let rest = s.drop_last();
        let to = lemma_trim_end_bound(rest);
        assert forall|i: int| to <= i < s.len() implies is_whitespace(#[trigger] s[i]) by {
            if i < s.len() - 1 {
                assert(s[i] == rest[i]);
            }
        }
        to
    } else {
        s.len() as int
    }
}

/// No line holds a line feed.
pub proof fn lemma_lines_hold_no_line_feed(s: Seq<char>)
    ensures
        forall|i: int, j: int|
            0 <= i < lines_of(s).len() && 0 <= j < lines_of(s)[i].len() ==> lines_of(s)[i][j]
                != '\n',
    decreases s.len(),
{
    lemma_line_feed_index(s);
    let k = line_feed_index(s);
    if s.len() > 0 && k < s.len() {
        let rest = s.skip(k + 1);
        lemma_lines_hold_no_line_feed(rest);
        assert forall|i: int, j: int|
            0 <= i < lines_of(s).len() && 0 <= j < lines_of(s)[i].len() implies lines_of(s)[i][j]
            != '\n' by {
            if i > 0 {
                assert(lines_of(s)[i] == lines_of(rest)[i - 1]);
            }
        }
    }
}

/// The characters of `s`, in order.
pub fn chars_of(s: &str) -> (v: Vec<char>)
    ensures
        v@ == s@,
{
    let mut v: Vec<char> = Vec::new();
    for c in it: s.chars()
        invariant
            v@ == it.seq().take(it.index()),
    {
        v.push(c);
    }
    v
}

/// Reads the numeral that occupies positions `start..end` of `text`.
pub fn parse_decimal(text: &Vec<char>, start: usize, end: usize) -> (r: Option<u64>)
    requires
        start <= end <= text.len(),
    ensures
        r == decimal_u64(text@.subrange(start as int, end as int)),
{
    let mut i: usize = start;
    if i < end && text[i] == '+' {
        i += 1;
    }
    let first: usize = i;
    let ghost digits = text@.subrange(first as int, end as int);
    if i == end {
        return None;
    }
    let mut acc: u64 = 0;
    while i < end
        invariant
            start <= first <= i <= end <= text.len(),
            digits == text@.subrange(first as int, end as int),
            digits == numeral_digits(text@.subrange(start as int, end as int)),
            all_digits(digits.take(i - first)),
            acc == decimal_value(digits.take(i - first)),
        decreases end - i,
    {
        let c: char = text[i];
        assert(digits[i - first] == c);
        if !(c >= '0' && c <= '9') {
            return None;
        }
        let d: u64 = (c as u32 - '0' as u32) as u64;
        let ghost next = digits.take(i - first + 1);
        assert(next.drop_last() =~= digits.take(i - first));
        if acc > (u64::MAX - d) / 10 {
            proof {
                if all_digits(digits) {
                    lemma_decimal_value_prefix(digits, i - first + 1);
                }
            }
            return None;
        }
        acc = acc * 10 + d;
        i += 1;
    }
    assert(digits.take(i - first) =~= digits);
    Some(acc)
}

/// Whether `c` is white space: the characters U+0009 to U+000D, U+0020,
/// U+0085, U+00A0, U+1680, U+2000 to U+200A, U+2028, U+2029, U+202F,
/// U+205F and U+3000.
pub open spec fn is_whitespace(c: char) -> bool {
    let n = c as u32;
    ||| 0x0009 <= n <= 0x000D
    ||| n == 0x0020
    ||| n == 0x0085
    ||| n == 0x00A0
    ||| n == 0x1680
    ||| 0x2000 <= n <= 0x200A
    ||| n == 0x2028
    ||| n == 0x2029
    ||| n == 0x202F
    ||| n == 0x205F
    ||| n == 0x3000
}

/// `s` without its leading white space.
pub open spec fn trim_start(s: Seq<char>) -> Seq<char>
    decreases s.len(),
{
    if s.len() > 0 && is_whitespace(s.first()) {
        trim_start(s.drop_first())
    } else {
        s
    }
}

/// `s` without its trailing white space.
pub open spec fn trim_end(s: Seq<char>) -> Seq<char>
    decreases s.len(),
{
    if s.len() > 0 && is_whitespace(s.last()) {
        trim_end(s.drop_last())
    } else {
        s
    }
}

/// `s` without its leading and trailing white space.
pub open spec fn trim(s: Seq<char>) -> Seq<char> {
    trim_end(trim_start(s))
}

/// The position of the first line feed in `s`, or `s.len()` where it has
/// none.
pub open spec fn line_feed_index(s: Seq<char>) -> int
    decreases s.len(),
{
    if s.len() == 0 || s.first() == '\n' {
        0
    } else {
        1 + line_feed_index(s.drop_first())
    }
}

/// `line` without one trailing carriage return.
pub open spec fn without_carriage_return(line: Seq<char>) -> Seq<char> {
    if line.len() > 0 && line.last() == '\r' {
        line.drop_last()
    } else {
        line
    }
}

/// The lines of `s`.
///
/// A line ends with a line feed, or with a carriage return directly
/// followed by a line feed; neither belongs to the line. What follows
/// the last line feed is a line of its own unless it is empty, and keeps a
/// carriage return at its end. The empty text has no lines.
pub open spec fn lines_of(s: Seq<char>) -> Seq<Seq<char>>
    decreases s.len(),
{
    let k = line_feed_index(s);
    if s.len() == 0 {
        Seq::empty()
    } else if 0 <= k < s.len() {
        seq![without_carriage_return(s.take(k))] + lines_of(s.skip(k + 1))
    } else {
        seq![s]
    }
}

/// The first line feed of `s` lies within `s` or is missing; no character
/// before it is a line feed.
pub proof fn lemma_line_feed_index(s: Seq<char>)
    ensures
        0 <= line_feed_index(s) <= s.len(),
        line_feed_index(s) < s.len() ==> s[line_feed_index(s)] == '\n',
        forall|i: int| 0 <= i < line_feed_index(s) ==> #[trigger] s[i] != '\n',
    decreases s.len(),
{
    if s.len() == 0 || s.first() == '\n' {
    } else {
        let rest = s.drop_first();
        lemma_line_feed_index(rest);
        assert forall|i: int| 0 <= i < line_feed_index(s) implies #[trigger] s[i] != '\n' by {
            if i > 0 {
                assert(s[i] == rest[i - 1]);
            }
        }
    }
}

/// Whether `c` is white space.
pub fn char_is_whitespace(c: char) -> (b: bool)
    ensures
        b == is_whitespace(c),
{
    let n: u32 = c as u32;
    (0x0009 <= n && n <= 0x000D) || n == 0x0020 || n == 0x0085 || n == 0x00A0 || n == 0x1680 || (
    0x2000 <= n && n <= 0x200A) || n == 0x2028 || n == 0x2029 || n == 0x202F || n == 0x205F || n
        == 0x3000
}

/// The positions `(from, to)` between which `text` holds its trimmed form.
pub fn trimmed_range(text: &Vec<char>) -> (r: (usize, usize))
    ensures
        r.0 <= r.1 <= text.len(),
        text@.subrange(r.0 as int, r.1 as int) == trim(text@),
{
    let n = text.len();
    let mut from: usize = 0;
    assert(text@.skip(0) =~= text@);
    while from < n && char_is_whitespace(text[from])
        invariant
            from <= n == text.len(),
            trim_start(text@) == trim_start(text@.skip(from as int)),
        decreases n - from,
    {
        assert(text@.skip(from as int).drop_first() =~= text@.skip(from as int + 1));
        from += 1;
    }
    let ghost rest = text@.skip(from as int);
    let mut to: usize = n;
    while to > from && char_is_whitespace(text[to - 1])
        invariant
            from <= to <= n == text.len(),
            trim_end(rest) == trim_end(text@.subrange(from as int, to as int)),
        decreases to,
    {
        assert(text@.subrange(from as int, to as int).drop_last() =~= text@.subrange(
            from as int,
            to as int - 1,
        ));
        to -= 1;
    }
    (from, to)
}

/// The position of the first line feed of `text` at or after `start`, or
/// `text.len()` where there is none.
pub fn find_line_feed(text: &Vec<char>, start: usize) -> (end: usize)
    requires
        start <= text.len(),
    ensures
        start <= end <= text.len(),
        end - start == line_feed_index(text@.skip(start as int)),
{
    let n = text.len();
    let mut end: usize = start;
    while end < n && text[end] != '\n'
        invariant
            start <= end <= n == text.len(),
            line_feed_index(text@.skip(start as int)) == (end - start) + line_feed_index(
                text@.skip(end as int),
            ),
        decreases n - end,
    {
        assert(text@.skip(end as int).drop_first() =~= text@.skip(end as int + 1));
        end += 1;
    }
    end
}

/// Whether `text` holds `key` at positions `start..end`, from `start` on.
pub fn starts_with(text: &Vec<char>, start: usize, end: usize, key: &Vec<char>) -> (b: bool)
    requires
        start <= end <= text.len(),
    ensures
        b == key@.is_prefix_of(text@.subrange(start as int, end as int)),
{
    let ghost line = text@.subrange(start as int, end as int);
    let k = key.len();
    if k > end - start {
        return false;
    }
    let mut i: usize = 0;
    while i < k
        invariant
            start <= end <= text.len(),
            i <= k == key.len(),
            k <= end - start,
            line == text@.subrange(start as int, end as int),
            forall|j: int| 0 <= j < i ==> key[j] == line[j],
        decreases k - i,
    {
        if key[i] != text[start + i] {
            return false;
        }
        i += 1;
    }
    true
}

/// Reads `text` as an unsigned 64-bit decimal numeral.
pub fn parse_u64(text: &str) -> (r: Option<u64>)
    ensures
        r == decimal_u64(text@),
{
    let chars = chars_of(text);
    let n = chars.len();
    assert(chars@.subrange(0, n as int) =~= text@);
    parse_decimal(&chars, 0, n)
}

} // verus!
