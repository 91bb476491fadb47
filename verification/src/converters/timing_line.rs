//! Recognition of WebVTT time stamp lines: the pattern
//! `\d{2}:\d{2}:\d{2}.\d{3} --> \d{2}:\d{2}:\d{2}.\d{3}`, found anywhere in
//! a line, where `\d` is a decimal digit and `.` any character but a line
//! feed.

use vstd::prelude::*;
use vstd::string::*;
use crate::converters::subtitle_rw_interface::is_decimal_digit;

verus! {

/// Whether regex's `\d` class (Unicode decimal digits, general category
/// `Nd`) holds `c`.
pub uninterp spec fn decimal_digit_class(c: char) -> bool;

/// Tests `c` against regex's `\d` class: compiles `^\d$` with
/// `regex::Regex::new` (a valid pattern, so it succeeds) and matches the
/// one-character text with `regex::Regex::is_match`. Claimed: the answer
/// is a function of `c` alone, and an ASCII character is in the class
/// exactly when it is `0` to `9`. Which characters beyond ASCII are in the
/// class is not stated.
#[verifier::external_body]
fn regex_decimal_digit(c: char) -> (res: bool)
    ensures
        res == decimal_digit_class(c),
        (c as u32) < 0x80 ==> (res <==> is_decimal_digit(c)),
{
    regex::Regex::new(r"^\d$").unwrap().is_match(&c.to_string())
}

/// A character of `\d`: the ASCII digits `0` to `9` and, beyond ASCII,
/// the other Unicode decimal digits (`Nd` has no other ASCII members).
pub open spec fn stamp_digit(c: char) -> bool {
    if (c as u32) < 0x80 {
        is_decimal_digit(c)
    } else {
        decimal_digit_class(c)
    }
}

/// Whether `c` is a character of `\d`.
fn stamp_digit_char(c: char) -> (res: bool)
    ensures
        res == stamp_digit(c),
{
    if (c as u32) < 0x80 {
        '0' <= c && c <= '9'
    } else {
        regex_decimal_digit(c)
    }
}

/// `\d{2}:\d{2}:\d{2}.\d{3}` at position `i` of `s`.
pub open spec fn stamp_at(s: Seq<char>, i: int) -> bool {
    &&& 0 <= i && i + 12 <= s.len()
    &&& stamp_digit(s[i]) && stamp_digit(s[i + 1])
    &&& s[i + 2] == ':'
    &&& stamp_digit(s[i + 3]) && stamp_digit(s[i + 4])
    &&& s[i + 5] == ':'
    &&& stamp_digit(s[i + 6]) && stamp_digit(s[i + 7])
    &&& s[i + 8] != '\n'
    &&& stamp_digit(s[i + 9]) && stamp_digit(s[i + 10]) && stamp_digit(s[i + 11])
}

/// The whole pattern, two time stamps around ` --> `, at position `i`.
pub open spec fn time_stamp_line_at(s: Seq<char>, i: int) -> bool {
    &&& 0 <= i && i + 29 <= s.len()
    &&& stamp_at(s, i)
    &&& s[i + 12] == ' ' && s[i + 13] == '-' && s[i + 14] == '-' && s[i + 15] == '>'
    &&& s[i + 16] == ' '
    &&& stamp_at(s, i + 17)
}

/// Whether the pattern occurs anywhere in `s`.
pub open spec fn time_stamp_line(s: Seq<char>) -> bool {
    exists|i: int| time_stamp_line_at(s, i)
}

/// Whether character `k` of `s` is a character of `\d`.
fn digit_at(s: &str, k: usize) -> (res: bool)
    requires
        k < s@.len(),
    ensures
        res == stamp_digit(s@[k as int]),
{
    stamp_digit_char(s.get_char(k))
}

/// Whether a time stamp starts at position `i` of `s`.
fn stamp_at_exec(s: &str, i: usize) -> (res: bool)
    requires
        i + 12 <= s@.len() <= usize::MAX,
    ensures
        res == stamp_at(s@, i as int),
{
    digit_at(s, i) && digit_at(s, i + 1) && s.get_char(i + 2) == ':' && digit_at(s, i + 3)
        && digit_at(s, i + 4) && s.get_char(i + 5) == ':' && digit_at(s, i + 6) && digit_at(
        s,
        i + 7,
    ) && s.get_char(i + 8) != '\n' && digit_at(s, i + 9) && digit_at(s, i + 10) && digit_at(
        s,
        i + 11,
    )
}

/// Whether `line` holds a WebVTT time stamp line pattern anywhere.
pub fn is_time_stamp_line(line: &str) -> (found: bool)
    ensures
        found == time_stamp_line(line@),
{
    let n = line.unicode_len();
    let mut i: usize = 0;
    while n >= 29 && i <= n - 29
        invariant
            n == line@.len(),
            forall|j: int| 0 <= j < i ==> !#[trigger] time_stamp_line_at(line@, j),
        decreases n - i,
    {
        if stamp_at_exec(line, i) && line.get_char(i + 12) == ' ' && line.get_char(i + 13) == '-'
            && line.get_char(i + 14) == '-' && line.get_char(i + 15) == '>' && line.get_char(i + 16)
            == ' ' && stamp_at_exec(line, i + 17) {
            assert(time_stamp_line_at(line@, i as int));
            return true;
        }
        i = i + 1;
    }
    assert forall|j: int| !#[trigger] time_stamp_line_at(line@, j) by {
        if 0 <= j && j + 29 <= line@.len() {
            assert(j < i);
        }
    }
    false
}

/// A line too short for the pattern does not hold it.
pub proof fn lemma_short_line_not_found(s: Seq<char>)
    requires
        s.len() < 29,
    ensures
        !time_stamp_line(s),
{
}

} // verus!
