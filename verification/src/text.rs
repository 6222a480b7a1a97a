//! Work on texts: comparing, trimming, splitting, and numbers in decimal.

use vstd::prelude::*;
use vstd::string::StrSliceExecFns;

verus! {

/// `String::push` appends one character.
pub assume_specification[ String::push ](s: &mut String, ch: char)
    ensures
        final(s)@ == old(s)@.push(ch),
;

/// `String::remove` at the start of a text that is not empty takes its
/// first character out and hands it back.
pub assume_specification[ String::remove ](s: &mut String, idx: usize) -> (ch: char)
    requires
        idx == 0,
        old(s)@.len() > 0,
    ensures
        ch == old(s)@[0],
        final(s)@ == old(s)@.skip(1),
;

/// Whether a character has the property White_Space: the tab, the line
/// feed, the vertical tab, the form feed, the carriage return, the space,
/// the next line, and the spaces and separators beyond the first 256
/// characters.
pub open spec fn white_space(c: char) -> bool {
    let code = c as u32;
    ||| 0x0009 <= code <= 0x000d
    ||| code == 0x0020
    ||| code == 0x0085
    ||| code == 0x00a0
    ||| code == 0x1680
    ||| 0x2000 <= code <= 0x200a
    ||| code == 0x2028
    ||| code == 0x2029
    ||| code == 0x202f
    ||| code == 0x205f
    ||| code == 0x3000
}

/// `char::is_whitespace`: whether the character has the property
/// White_Space.
#[verifier::external_body]
pub(crate) fn is_whitespace(c: char) -> (white: bool)
    ensures
        white == white_space(c),
{
    c.is_whitespace()
}

/// The value of a decimal digit.
pub open spec fn digit_value(c: char) -> Option<int> {
    if '0' <= c <= '9' {
        Some(c as int - '0' as int)
    } else {
        None
    }
}

/// The number that a row of one or more decimal digits stands for.
pub open spec fn digits_value(digits: Seq<char>) -> Option<int>
    decreases digits.len(),
{
    if digits.len() == 0 {
        None
    } else if digits.len() == 1 {
        digit_value(digits[0])
    } else {
        match (digits_value(digits.drop_last()), digit_value(digits.last())) {
            (Some(high), Some(low)) => Some(10 * high + low),
            _ => None,
        }
    }
}

/// The integer that a text stands for: decimal digits behind an optional
/// sign, and nothing else.
pub open spec fn integer_value(text: Seq<char>) -> Option<int> {
    if text.len() > 0 && text[0] == '-' {
        match digits_value(text.skip(1)) {
            Some(v) => Some(-v),
            None => None,
        }
    } else if text.len() > 0 && text[0] == '+' {
        digits_value(text.skip(1))
    } else {
        digits_value(text)
    }
}

/// The `i64` that a text stands for, if it stands for one.
pub open spec fn parse_i64_spec(text: Seq<char>) -> Option<i64> {
    match integer_value(text) {
        Some(v) => if i64::MIN <= v <= i64::MAX {
            Some(v as i64)
        } else {
            None
        },
        None => None,
    }
}

/// `str::parse::<i64>`: the number that the text stands for; an error for
/// an empty text, a sign alone, any character that is no digit, and a
/// number outside `i64`.
#[verifier::external_body]
pub(crate) fn parse_i64(text: &str) -> (number: Option<i64>)
    ensures
        number == parse_i64_spec(text@),
{
    text.parse::<i64>().ok()
}

/// The decimal digits of a number that is not negative.
pub open spec fn decimal_digits(n: nat) -> Seq<char>
    decreases n,
{
    if n < 10 {
        seq![('0' as u8 + n as u8) as char]
    } else {
        decimal_digits(n / 10).push(('0' as u8 + (n % 10) as u8) as char)
    }
}

/// A number in decimal, with a minus sign if it is negative.
pub open spec fn decimal(n: int) -> Seq<char> {
    if n < 0 {
        seq!['-'].add(decimal_digits((-n) as nat))
    } else {
        decimal_digits(n as nat)
    }
}

/// `i64::to_string`: the number in decimal.
#[verifier::external_body]
pub(crate) fn i64_to_string(n: i64) -> (text: String)
    ensures
        text@ == decimal(n as int),
{
    n.to_string()
}

/// `u64::to_string`: the number in decimal.
#[verifier::external_body]
pub(crate) fn u64_to_string(n: u64) -> (text: String)
    ensures
        text@ == decimal_digits(n as nat),
{
    n.to_string()
}

/// Whether two texts hold the same characters.
pub fn same_text(a: &str, b: &str) -> (same: bool)
    ensures
        same == (a@ == b@),
{
    let n = a.unicode_len();
    if n != b.unicode_len() {
        return false;
    }
    let mut i: usize = 0;
    while i < n
        invariant
            i <= n,
            n == a@.len(),
            n == b@.len(),
            forall|k: int| 0 <= k < i ==> a@[k] == b@[k],
        decreases n - i,
    {
        if a.get_char(i) != b.get_char(i) {
            return false;
        }
        i += 1;
    }
    assert(a@ =~= b@);
    true
}

/// Whether `text` begins with `pattern`.
pub fn starts_with(text: &str, pattern: &str) -> (begins: bool)
    ensures
        begins == pattern@.is_prefix_of(text@),
{
    let n = text.unicode_len();
    let m = pattern.unicode_len();
    if m > n {
        return false;
    }
    let begins = same_text(text.substring_char(0, m), pattern);
    assert(pattern@.is_prefix_of(text@) == (text@.subrange(0, m as int) == pattern@));
    begins
}

/// Whether `text` ends with `pattern`.
pub fn ends_with(text: &str, pattern: &str) -> (ends: bool)
    ensures
        ends == pattern@.is_suffix_of(text@),
{
    let n = text.unicode_len();
    let m = pattern.unicode_len();
    if m > n {
        return false;
    }
    let ends = same_text(text.substring_char(n - m, n), pattern);
    assert(pattern@.is_suffix_of(text@) == (text@.subrange(n - m, n as int) == pattern@));
    ends
}

/// What is left of `text` when `pattern` is taken from its start as often
/// as it stands there.
pub open spec fn trim_start_spec(text: Seq<char>, pattern: Seq<char>) -> Seq<char>
    decreases text.len(),
{
    if pattern.len() > 0 && pattern.is_prefix_of(text) {
        trim_start_spec(text.skip(pattern.len() as int), pattern)
    } else {
        text
    }
}

/// What is left of `text` when `pattern` is taken from its end as often
/// as it stands there.
pub open spec fn trim_end_spec(text: Seq<char>, pattern: Seq<char>) -> Seq<char>
    decreases text.len(),
{
    if pattern.len() > 0 && pattern.is_suffix_of(text) {
        trim_end_spec(text.take(text.len() - pattern.len()), pattern)
    } else {
        text
    }
}

/// Takes `pattern` from the start of `text` as often as it stands there.
pub fn trim_start_matches<'a>(text: &'a str, pattern: &str) -> (rest: &'a str)
    requires
        pattern@.len() > 0,
    ensures
        rest@ == trim_start_spec(text@, pattern@),
{
    let n = text.unicode_len();
    let m = pattern.unicode_len();
    let mut from: usize = 0;
    assert(text@.subrange(0, n as int) =~= text@);
    loop
        invariant
            from <= n,
            n == text@.len(),
            m == pattern@.len(),
            m > 0,
            trim_start_spec(text@, pattern@) == trim_start_spec(
                text@.subrange(from as int, n as int),
                pattern@,
            ),
        ensures
            from <= n,
            trim_start_spec(text@, pattern@) == text@.subrange(from as int, n as int),
        decreases n - from,
    {
        let rest = text.substring_char(from, n);
        if !starts_with(rest, pattern) {
            break ;
        }
        assert(rest@.skip(m as int) =~= text@.subrange(from + m, n as int));
        from += m;
    }
    text.substring_char(from, n)
}

/// Takes `pattern` from the end of `text` as often as it stands there.
pub fn trim_end_matches<'a>(text: &'a str, pattern: &str) -> (rest: &'a str)
    requires
        pattern@.len() > 0,
    ensures
        rest@ == trim_end_spec(text@, pattern@),
{
    let n = text.unicode_len();
    let m = pattern.unicode_len();
    let mut to: usize = n;
    assert(text@.subrange(0, n as int) =~= text@);
    loop
        invariant
            to <= n,
            n == text@.len(),
            m == pattern@.len(),
            m > 0,
            trim_end_spec(text@, pattern@) == trim_end_spec(text@.subrange(0, to as int), pattern@),
        ensures
            to <= n,
            trim_end_spec(text@, pattern@) == text@.subrange(0, to as int),
        decreases to,
    {
        let rest = text.substring_char(0, to);
        if !ends_with(rest, pattern) {
            break ;
        }
        assert(rest@.take(rest@.len() - m) =~= text@.subrange(0, to - m));
        to -= m;
    }
    text.substring_char(0, to)
}

/// The words of a text: its longest runs of characters that are no white
/// space. `current` holds the part of a word that was read before `text`.
pub open spec fn words_from(text: Seq<char>, current: Seq<char>) -> Seq<Seq<char>>
    decreases text.len(),
{
    let finished = if current.len() > 0 {
        seq![current]
    } else {
        Seq::empty()
    };
    if text.len() == 0 {
        finished
    } else if white_space(text[0]) {
        finished.add(words_from(text.skip(1), Seq::empty()))
    } else {
        words_from(text.skip(1), current.push(text[0]))
    }
}

/// The words of a text.
pub open spec fn words(text: Seq<char>) -> Seq<Seq<char>> {
    words_from(text, Seq::empty())
}

/// Splits a text at its white space.
pub fn split_whitespace(text: &str) -> (parts: Vec<String>)
    ensures
        parts.deep_view() == words(text@),
{
    let n = text.unicode_len();
    let mut parts: Vec<String> = Vec::new();
    let mut current = String::new();
    let mut i: usize = 0;
    proof {
        assert(text@.skip(0) =~= text@);
        assert(parts.deep_view() =~= Seq::<Seq<char>>::empty());
        assert(parts.deep_view().add(words_from(text@, current@)) =~= words(text@));
    }
    while i < n
        invariant
            i <= n,
            n == text@.len(),
            parts.deep_view().add(words_from(text@.skip(i as int), current@)) == words(text@),
        decreases n - i,
    {
        let c = text.get_char(i);
        let ghost rest = text@.skip(i as int);
        let ghost before = parts.deep_view();
        proof {
            assert(rest[0] == c);
            assert(rest.skip(1) =~= text@.skip(i + 1));
        }
        if is_whitespace(c) {
            if current.unicode_len() > 0 {
                let ghost word = current@;
                parts.push(current);
                current = String::new();
                proof {
                    assert(parts.deep_view() =~= before.push(word));
                    assert(before.add(seq![word].add(words_from(rest.skip(1), Seq::empty())))
                        =~= before.push(word).add(words_from(rest.skip(1), Seq::empty())));
                }
            } else {
                proof {
                    assert(current@ =~= Seq::<char>::empty());
                    assert(Seq::<Seq<char>>::empty().add(
                        words_from(rest.skip(1), Seq::empty()),
                    ) =~= words_from(rest.skip(1), Seq::empty()));
                }
            }
        } else {
            current.push(c);
        }
        i += 1;
    }
    if current.unicode_len() > 0 {
        let ghost word = current@;
        let ghost before = parts.deep_view();
        parts.push(current);
        proof {
            assert(parts.deep_view() =~= before.push(word));
            assert(before.add(seq![word]) =~= before.push(word));
        }
    } else {
        assert(parts.deep_view().add(Seq::<Seq<char>>::empty()) =~= parts.deep_view());
    }
    parts
}

} // verus!
