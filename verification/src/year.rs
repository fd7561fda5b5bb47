//! The year extractor: looks for the decimal digits of a supported year as
//! a substring of one line, trying the years in ascending order, so that the
//! smallest year present wins.
use vstd::prelude::*;

use crate::text::{chars_of, string_of};

verus! {

/// The first year the extractor recognizes.
pub const MIN_YEAR: u32 = 1996;

/// The last year the extractor recognizes, inclusive.
pub const MAX_YEAR: u32 = 2025;

/// The decimal digit as its character.
pub open spec fn digit_char(d: int) -> char {
    if d == 0 {
        '0'
    } else if d == 1 {
        '1'
    } else if d == 2 {
        '2'
    } else if d == 3 {
        '3'
    } else if d == 4 {
        '4'
    } else if d == 5 {
        '5'
    } else if d == 6 {
        '6'
    } else if d == 7 {
        '7'
    } else if d == 8 {
        '8'
    } else {
        '9'
    }
}

/// The four decimal digits of a four-digit year, most significant first.
pub open spec fn year_chars(y: int) -> Seq<char> {
    seq![
        digit_char(y / 1000 % 10),
        digit_char(y / 100 % 10),
        digit_char(y / 10 % 10),
        digit_char(y % 10),
    ]
}

/// Whether the needle stands in the haystack at position `i`.
pub open spec fn contains_at(s: Seq<char>, p: Seq<char>, i: int) -> bool {
    0 <= i && i + p.len() <= s.len() && s.subrange(i, i + p.len() as int) == p
}

/// Whether the needle stands anywhere in the haystack.
pub open spec fn contains_seq(s: Seq<char>, p: Seq<char>) -> bool {
    exists|i: int| contains_at(s, p, i)
}

/// The smallest year at or above `y`, up to the supported maximum, whose
/// digits occur in the line.
pub open spec fn first_year_from(line: Seq<char>, y: int) -> Option<int>
    decreases MAX_YEAR + 1 - y,
{
    if y > MAX_YEAR {
        None
    } else if contains_seq(line, year_chars(y)) {
        Some(y)
    } else {
        first_year_from(line, y + 1)
    }
}

/// The smallest supported year whose digits occur in the line, if any.
pub open spec fn year_of_line(line: Seq<char>) -> Option<int> {
    first_year_from(line, MIN_YEAR as int)
}

/// A found year lies between the starting point of the scan and the
/// supported maximum.
pub proof fn lemma_first_year_range(line: Seq<char>, y: int)
    ensures
        first_year_from(line, y) is Some ==> y <= first_year_from(line, y).unwrap()
            <= MAX_YEAR,
    decreases MAX_YEAR + 1 - y,
{
    if y <= MAX_YEAR {
        lemma_first_year_range(line, y + 1);
    }
}

/// The character for a decimal digit is an ASCII digit.
pub open spec fn is_ascii_digit_char(c: char) -> bool {
    48 <= (c as u32) <= 57
}

/// The digits of a four-digit year are four ASCII digit characters.
pub proof fn lemma_year_chars_digits(y: int)
    ensures
        year_chars(y).len() == 4,
        forall|j: int| 0 <= j < 4 ==> is_ascii_digit_char(#[trigger] year_chars(y)[j]),
{
    assert forall|j: int| 0 <= j < 4 implies is_ascii_digit_char(#[trigger] year_chars(y)[j]) by {
        assert(is_ascii_digit_char('0'));
        assert(is_ascii_digit_char('1'));
        assert(is_ascii_digit_char('2'));
        assert(is_ascii_digit_char('3'));
        assert(is_ascii_digit_char('4'));
        assert(is_ascii_digit_char('5'));
        assert(is_ascii_digit_char('6'));
        assert(is_ascii_digit_char('7'));
        assert(is_ascii_digit_char('8'));
        assert(is_ascii_digit_char('9'));
    }
}

/// The character for one decimal digit.
fn digit_to_char(d: u32) -> (c: char)
    requires
        d <= 9,
    ensures
        c == digit_char(d as int),
{
    if d == 0 {
        '0'
    } else if d == 1 {
        '1'
    } else if d == 2 {
        '2'
    } else if d == 3 {
        '3'
    } else if d == 4 {
        '4'
    } else if d == 5 {
        '5'
    } else if d == 6 {
        '6'
    } else if d == 7 {
        '7'
    } else if d == 8 {
        '8'
    } else {
        '9'
    }
}

/// The four digit characters of a four-digit year.
fn year_digits(y: u32) -> (r: Vec<char>)
    requires
        1000 <= y <= 9999,
    ensures
        r@ == year_chars(y as int),
{
    let mut r: Vec<char> = Vec::new();
    r.push(digit_to_char(y / 1000 % 10));
    r.push(digit_to_char(y / 100 % 10));
    r.push(digit_to_char(y / 10 % 10));
    r.push(digit_to_char(y % 10));
    proof {
        assert(r@ =~= year_chars(y as int));
    }
    r
}

/// Whether the needle matches the haystack at position `i`.
fn match_at(h: &Vec<char>, p: &Vec<char>, i: usize) -> (r: bool)
    requires
        i + p@.len() <= h@.len(),
    ensures
        r == contains_at(h@, p@, i as int),
{
    proof {
        assert(h@.len() == h.len());
    }
    let mut j: usize = 0;
    while j < p.len()
        invariant
            j <= p@.len(),
            i + p@.len() <= h@.len(),
            h@.len() <= usize::MAX,
            forall|m: int| 0 <= m < j ==> h@[i + m] == p@[m],
        decreases p@.len() - j,
    {
        if h[i + j] != p[j] {
            proof {
                assert(h@.subrange(i as int, i + p@.len())[j as int] == h@[i + j]);
            }
            return false;
        }
        j = j + 1;
    }
    proof {
        assert(h@.subrange(i as int, i + p@.len()) =~= p@);
    }
    true
}

/// Whether the needle occurs anywhere in the haystack.
fn contains_chars(h: &Vec<char>, p: &Vec<char>) -> (r: bool)
    requires
        p@.len() > 0,
    ensures
        r == contains_seq(h@, p@),
{
    if p.len() > h.len() {
        return false;
    }
    proof {
        assert(h@.len() == h.len());
    }
    let mut i: usize = 0;
    while i <= h.len() - p.len()
        invariant
            0 < p@.len() <= h@.len(),
            h@.len() <= usize::MAX,
            i <= h@.len() - p@.len() + 1,
            forall|m: int| 0 <= m < i ==> !contains_at(h@, p@, m),
        decreases h@.len() - p@.len() + 1 - i,
    {
        if match_at(h, p, i) {
            return true;
        }
        i = i + 1;
    }
    proof {
        assert forall|m: int| !contains_at(h@, p@, m) by {
            if 0 <= m && m + p@.len() <= h@.len() {
                assert(m < i);
            }
        }
    }
    false
}

/// The first supported year (smallest first, 1996 through 2025) whose four
/// digits occur anywhere in the line, as a string; nothing when no supported
/// year occurs.
pub fn get_release_year(line: &str) -> (r: Option<String>)
    ensures
        (r is Some) == (year_of_line(line@) is Some),
        r is Some ==> r.unwrap()@ == year_chars(year_of_line(line@).unwrap()),
{
    let chars = chars_of(line);
    let mut year: u32 = MIN_YEAR;
    while year <= MAX_YEAR
        invariant
            MIN_YEAR <= year <= MAX_YEAR + 1,
            chars@ == line@,
            first_year_from(line@, MIN_YEAR as int) == first_year_from(line@, year as int),
        decreases MAX_YEAR + 1 - year,
    {
        let digits = year_digits(year);
        if contains_chars(&chars, &digits) {
            proof {
                assert(first_year_from(line@, year as int) == Some(year as int));
            }
            return Some(string_of(&digits));
        }
        year = year + 1;
    }
    None
}

} // verus!
