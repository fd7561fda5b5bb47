//! Extraction of structured metadata from one free-form text message: a
//! cleaned line sequence, the attributed authors, and an optional release
//! year.
use vstd::prelude::*;

pub mod author;
pub mod normalize;
pub mod text;
pub mod year;

use crate::author::author_of;
use crate::normalize::{to_lines, to_lines_spec};
use crate::year::{
    is_ascii_digit_char, lemma_first_year_range, lemma_year_chars_digits, year_chars, year_of_line,
    MAX_YEAR, MIN_YEAR,
};

verus! {

/// The structured metadata extracted from one free-form message.
#[derive(Debug, Default, Clone, PartialEq)]
pub struct Message {
    /// The cleaned, non-empty lines of the message, in input order.
    pub lines: Vec<String>,
    /// One author per line that carries an attribution, in line order.
    pub authors: Vec<String>,
    /// The first release year found, scanning the lines in order.
    pub release_year: Option<String>,
}

/// The authors attributed on a sequence of lines: one entry per line that
/// names one, in line order; a line without an attribution contributes
/// nothing.
pub open spec fn authors_of(lines: Seq<Seq<char>>) -> Seq<Seq<char>> {
    lines.filter_map(|l: Seq<char>| author_of(l))
}

/// The year taken from the first line, in order, that yields one.
pub open spec fn year_of_lines(lines: Seq<Seq<char>>) -> Option<int>
    decreases lines.len(),
{
    if lines.len() == 0 {
        None
    } else if year_of_line(lines[0]) is Some {
        year_of_line(lines[0])
    } else {
        year_of_lines(lines.drop_first())
    }
}

/// A sequence of lines never yields more authors than it has lines.
pub proof fn lemma_authors_at_most_lines(lines: Seq<Seq<char>>)
    ensures
        authors_of(lines).len() <= lines.len(),
    decreases lines.len(),
{
    if lines.len() > 0 {
        lemma_authors_at_most_lines(lines.drop_last());
    }
}

/// A found release year is one of the supported years, and its text is that
/// year's four ASCII decimal digits.
pub proof fn lemma_year_of_lines_range(lines: Seq<Seq<char>>)
    ensures
        year_of_lines(lines) is Some ==> MIN_YEAR <= year_of_lines(lines).unwrap() <= MAX_YEAR,
        year_of_lines(lines) is Some ==> year_chars(year_of_lines(lines).unwrap()).len() == 4,
        year_of_lines(lines) is Some ==> forall|j: int|
            0 <= j < 4 ==> is_ascii_digit_char(
                #[trigger] year_chars(year_of_lines(lines).unwrap())[j],
            ),
    decreases lines.len(),
{
    if lines.len() > 0 {
        lemma_first_year_range(lines[0], MIN_YEAR as int);
        lemma_year_of_lines_range(lines.drop_first());
        if year_of_lines(lines) is Some {
            lemma_year_chars_digits(year_of_lines(lines).unwrap());
        }
    }
}

impl Message {
    /// The metadata of one raw message: its cleaned lines, the authors
    /// attributed on them, and the first release year any line yields.
    pub fn from(message: &str) -> (m: Message)
        ensures
            m.lines@.map_values(|x: String| x@) == to_lines_spec(message@),
            m.authors@.map_values(|x: String| x@) == authors_of(to_lines_spec(message@)),
            (m.release_year is Some) == (year_of_lines(to_lines_spec(message@)) is Some),
            m.release_year is Some ==> m.release_year.unwrap()@ == year_chars(
                year_of_lines(to_lines_spec(message@)).unwrap(),
            ),
            m.authors@.len() <= m.lines@.len(),
            m.release_year is Some ==> m.release_year.unwrap()@.len() == 4,
            m.release_year is Some ==> forall|j: int|
                0 <= j < 4 ==> is_ascii_digit_char(#[trigger] m.release_year.unwrap()@[j]),
    {
        let lines = to_lines(message);
        let ghost lv = lines@.map_values(|x: String| x@);
        let ghost f = |l: Seq<char>| author_of(l);
        let mut authors: Vec<String> = Vec::new();
        let mut i: usize = 0;
        while i < lines.len()
            invariant
                i <= lines@.len(),
                lv == lines@.map_values(|x: String| x@),
                f == (|l: Seq<char>| author_of(l)),
                authors@.map_values(|x: String| x@) == lv.take(i as int).filter_map(f),
            decreases lines@.len() - i,
        {
            let a = crate::author::get_author(lines[i].as_str());
            proof {
                assert(lv[i as int] == lines@[i as int]@);
                lv.lemma_filter_map_take_succ(f, i as int);
            }
            match a {
                Some(name) => {
                    authors.push(name);
                    proof {
                        assert(authors@.map_values(|x: String| x@) =~= authors@.drop_last()
                            .map_values(|x: String| x@).push(authors@.last()@));
                        assert(authors@.map_values(|x: String| x@) =~= lv.take(
                            i + 1,
                        ).filter_map(f));
                    }
                },
                None => {
                    proof {
                        assert(lv.take(i as int).filter_map(f) + Seq::<Seq<char>>::empty() =~= lv
                            .take(i as int).filter_map(f));
                    }
                },
            }
            i = i + 1;
        }
        proof {
            assert(lv.take(lines@.len() as int) =~= lv);
        }
        let mut release_year: Option<String> = None;
        let mut j: usize = 0;
        while j < lines.len() && release_year.is_none()
            invariant
                j <= lines@.len(),
                lv == lines@.map_values(|x: String| x@),
                release_year is None ==> year_of_lines(lv) == year_of_lines(lv.skip(j as int)),
                release_year is Some ==> year_of_lines(lv) is Some && release_year.unwrap()@
                    == year_chars(year_of_lines(lv).unwrap()),
            decreases lines@.len() - j,
        {
            let y = crate::year::get_release_year(lines[j].as_str());
            proof {
                assert(lv[j as int] == lines@[j as int]@);
                assert(lv.skip(j as int)[0] == lv[j as int]);
                assert(lv.skip(j as int).drop_first() =~= lv.skip(j + 1));
            }
            match y {
                Some(text) => {
                    release_year = Some(text);
                },
                None => {},
            }
            j = j + 1;
        }
        proof {
            if release_year is None {
                assert(lv.skip(lines@.len() as int) =~= Seq::<Seq<char>>::empty());
            }
            lemma_authors_at_most_lines(lv);
            lemma_year_of_lines_range(lv);
        }
        Message { lines, authors, release_year }
    }
}

} // verus!
