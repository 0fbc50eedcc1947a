//! Words and numbers in a line of text.

use vstd::prelude::*;
use crate::order::{rank, Rank};

verus! {

/// The characters that separate words: space, tab, line feed and carriage
/// return.
pub open spec fn is_blank(c: char) -> bool {
    c == ' ' || c == '\t' || c == '\n' || c == '\r'
}

/// The number of characters before the first blank.
pub open spec fn word_len(s: Seq<char>) -> nat
    decreases s.len(),
{
    if s.len() == 0 || is_blank(s[0]) {
        0
    } else {
        1 + word_len(s.drop_first())
    }
}

/// The number of blanks before the first character that is none.
pub open spec fn gap_len(s: Seq<char>) -> nat
    decreases s.len(),
{
    if s.len() == 0 || !is_blank(s[0]) {
        0
    } else {
        1 + gap_len(s.drop_first())
    }
}

/// The key of a line: what stands before its first blank.
pub open spec fn line_key(line: Seq<char>) -> Seq<char> {
    line.take(word_len(line) as int)
}

/// What follows the key of a line.
pub open spec fn after_key(line: Seq<char>) -> Seq<char> {
    line.skip(word_len(line) as int)
}

/// The value of a line: the word after its key and the blanks that follow
/// the key. It is empty where nothing follows.
pub open spec fn line_value(line: Seq<char>) -> Seq<char> {
    let rest = after_key(line).skip(gap_len(after_key(line)) as int);
    rest.take(word_len(rest) as int)
}

/// A stretch without blanks that ends at a blank or at the end is a word.
pub proof fn lemma_word_len(s: Seq<char>, n: int)
    requires
        0 <= n <= s.len(),
        forall|i: int| 0 <= i < n ==> !is_blank(s[i]),
        n == s.len() || is_blank(s[n]),
    ensures
        word_len(s) == n,
    decreases n,
{
    if n > 0 {
        lemma_word_len(s.drop_first(), n - 1);
    }
}

/// A stretch of blanks that ends at another character or at the end is a
/// gap.
pub proof fn lemma_gap_len(s: Seq<char>, n: int)
    requires
        0 <= n <= s.len(),
        forall|i: int| 0 <= i < n ==> is_blank(s[i]),
        n == s.len() || !is_blank(s[n]),
    ensures
        gap_len(s) == n,
    decreases n,
{
    if n > 0 {
        lemma_gap_len(s.drop_first(), n - 1);
    }
}

/// Whether a character separates words.
pub fn blank(c: char) -> (b: bool)
    ensures
        b == is_blank(c),
{
    c == ' ' || c == '\t' || c == '\n' || c == '\r'
}

/// The characters of a text.
pub fn chars_of(text: &str) -> (chars: Vec<char>)
    ensures
        chars@ == text@,
{
    let mut chars: Vec<char> = Vec::new();
    for c in it: text.chars()
        invariant
            it.seq() == text@,
            chars@ == text@.take(it.index() as int),
    {
        chars.push(c);
    }
    assert(text@.take(text@.len() as int) =~= text@);
    chars
}

/// Where the word that starts at `from` ends.
fn word_end(chars: &Vec<char>, from: usize) -> (end: usize)
    requires
        from <= chars@.len(),
    ensures
        from <= end <= chars@.len(),
        end - from == word_len(chars@.skip(from as int)),
{
    let mut end = from;
    while end < chars.len() && !blank(chars[end])
        invariant
            from <= end <= chars@.len(),
            forall|i: int| from <= i < end ==> !is_blank(chars@[i]),
        decreases chars@.len() - end,
    {
        end += 1;
    }
    proof {
        lemma_word_len(chars@.skip(from as int), end - from);
    }
    end
}

/// Where the blanks that start at `from` end.
fn gap_end(chars: &Vec<char>, from: usize) -> (end: usize)
    requires
        from <= chars@.len(),
    ensures
        from <= end <= chars@.len(),
        end - from == gap_len(chars@.skip(from as int)),
{
    let mut end = from;
    while end < chars.len() && blank(chars[end])
        invariant
            from <= end <= chars@.len(),
            forall|i: int| from <= i < end ==> is_blank(chars@[i]),
        decreases chars@.len() - end,
    {
        end += 1;
    }
    proof {
        lemma_gap_len(chars@.skip(from as int), end - from);
    }
    end
}

/// Splits a line into its key and its value.
pub fn split_line(line: &str) -> (parts: (String, String))
    ensures
        parts.0@ == line_key(line@),
        parts.1@ == line_value(line@),
{
    let chars = chars_of(line);
    let key_end = word_end(&chars, 0);
    let value_start = gap_end(&chars, key_end);
    let value_end = word_end(&chars, value_start);
    proof {
        assert(line@.skip(0) =~= line@);
        assert(after_key(line@).skip(value_start - key_end) =~= line@.skip(value_start as int));
    }
    let key = line.substring_char(0, key_end).to_owned();
    let value = line.substring_char(value_start, value_end).to_owned();
    (key, value)
}

/// Whether two texts are the same.
pub fn same_text(a: &str, b: &str) -> (same: bool)
    ensures
        same == (a@ == b@),
{
    rank(a, b) == Rank::Same
}

/// The decimal digits.
pub open spec fn is_digit(c: char) -> bool {
    '0' <= c <= '9'
}

/// The number that a digit stands for.
pub open spec fn digit_value(c: char) -> int {
    c as int - '0' as int
}

/// Every character is a decimal digit.
pub open spec fn all_digits(s: Seq<char>) -> bool {
    forall|i: int| 0 <= i < s.len() ==> is_digit(#[trigger] s[i])
}

/// The number that a run of decimal digits stands for.
pub open spec fn digits_value(s: Seq<char>) -> int
    decreases s.len(),
{
    if s.len() == 0 {
        0
    } else {
        10 * digits_value(s.drop_last()) + digit_value(s.last())
    }
}

/// The text begins with a sign.
pub open spec fn has_sign(s: Seq<char>) -> bool {
    s.len() > 0 && (s[0] == '-' || s[0] == '+')
}

/// The integer that a text stands for: an optional `+` or `-` and then one
/// or more decimal digits, nothing before, between or after them.
pub open spec fn decimal(s: Seq<char>) -> Option<int> {
    let digits = if has_sign(s) {
        s.drop_first()
    } else {
        s
    };
    if digits.len() > 0 && all_digits(digits) {
        if s[0] == '-' {
            Some(-digits_value(digits))
        } else {
            Some(digits_value(digits))
        }
    } else {
        None
    }
}

/// The integer that a text stands for, if it lies in the given range.
pub open spec fn decimal_within(s: Seq<char>, low: int, high: int) -> Option<int> {
    match decimal(s) {
        Some(value) => if low <= value <= high {
            Some(value)
        } else {
            None
        },
        None => None,
    }
}

/// More digits never make a smaller number.
pub proof fn lemma_digits_grow(s: Seq<char>, n: int)
    requires
        0 <= n <= s.len(),
        all_digits(s),
    ensures
        0 <= digits_value(s.take(n)) <= digits_value(s),
    decreases s.len() - n,
{
    lemma_digits_nonnegative(s.take(n));
    if n < s.len() {
        lemma_digits_grow(s, n + 1);
        assert(s.take(n + 1).drop_last() =~= s.take(n));
    } else {
        assert(s.take(n) =~= s);
    }
}

/// A run of digits stands for no negative number.
pub proof fn lemma_digits_nonnegative(s: Seq<char>)
    requires
        all_digits(s),
    ensures
        0 <= digits_value(s),
    decreases s.len(),
{
    if s.len() > 0 {
        lemma_digits_nonnegative(s.drop_last());
    }
}

/// Reads a decimal integer that must lie between `low` and `high`.
pub fn parse_decimal(text: &str, low: i64, high: i64) -> (parsed: Option<i64>)
    ensures
        match parsed {
            Some(value) => decimal_within(text@, low as int, high as int) == Some(value as int),
            None => decimal_within(text@, low as int, high as int) is None,
        },
{
    let chars = chars_of(text);
    let n = chars.len();
    let negative = n > 0 && chars[0] == '-';
    let start: usize = if n > 0 && (chars[0] == '-' || chars[0] == '+') {
        1
    } else {
        0
    };
    if start == n {
        return None;
    }
    let ghost digits = text@.skip(start as int);
    let mut magnitude: i128 = 0;
    let mut i: usize = start;
    while i < n
        invariant
            start <= i <= n,
            n == chars@.len(),
            chars@ == text@,
            digits == text@.skip(start as int),
            digits == if has_sign(text@) {
                text@.drop_first()
            } else {
                text@
            },
            digits.len() == n - start,
            all_digits(digits.take(i - start)),
            magnitude == digits_value(digits.take(i - start)),
            0 <= magnitude <= 0x8000_0000_0000_0000,
        decreases n - i,
    {
        let c = chars[i];
        if !('0' <= c && c <= '9') {
            assert(!is_digit(digits[i - start]));
            return None;
        }
        let digit: i128 = (c as u32 - '0' as u32) as i128;
        proof {
            assert(digits.take(i - start + 1).drop_last() =~= digits.take(i - start));
            assert forall|k: int| 0 <= k < i - start + 1 implies is_digit(
                #[trigger] digits.take(i - start + 1)[k],
            ) by {}
        }
        magnitude = magnitude * 10 + digit;
        if magnitude > 0x8000_0000_0000_0000 {
            proof {
                if all_digits(digits) {
                    lemma_digits_grow(digits, i - start + 1);
                }
            }
            return None;
        }
        i += 1;
    }
    proof {
        assert(digits.take(n - start) =~= digits);
    }
    let value: i128 = if negative {
        -magnitude
    } else {
        magnitude
    };
    if low as i128 <= value && value <= high as i128 {
        Some(value as i64)
    } else {
        None
    }
}

} // verus!
