//! The author extractor: scans one normalized line for the last
//! case-insensitive " by " marker and returns the trimmed name that follows
//! it, up to the first stop character.
use vstd::prelude::*;

use crate::text::{chars_of, string_of, subvec, trim_chars, trim_spaces};

verus! {

/// A stop character ends an attributed name: an opening parenthesis or
/// bracket, a comma, or a dash.
pub open spec fn is_delimiter_spec(c: char) -> bool {
    c == '(' || c == '[' || c == ',' || c == '-'
}

/// Whether the attribution marker " by " stands at position `i`, the word in
/// either case.
pub open spec fn by_at(s: Seq<char>, i: int) -> bool {
    &&& 0 <= i
    &&& i + 4 <= s.len()
    &&& s[i] == ' '
    &&& (s[i + 1] == 'b' || s[i + 1] == 'B')
    &&& (s[i + 2] == 'y' || s[i + 2] == 'Y')
    &&& s[i + 3] == ' '
}

/// The last position below `n` where the attribution marker stands.
pub open spec fn last_by_before(s: Seq<char>, n: int) -> Option<int>
    decreases n,
{
    if n <= 0 {
        None
    } else if by_at(s, n - 1) {
        Some(n - 1)
    } else {
        last_by_before(s, n - 1)
    }
}

/// The first position at or after `j` holding a stop character, or the
/// length of the line when there is none.
pub open spec fn first_delim_from(s: Seq<char>, j: int) -> int
    decreases s.len() - j,
{
    if j < 0 || j >= s.len() {
        s.len() as int
    } else if is_delimiter_spec(s[j]) {
        j
    } else {
        first_delim_from(s, j + 1)
    }
}

/// The line with one space put in front, so that a line-initial "by " can
/// match the marker.
pub open spec fn padded(line: Seq<char>) -> Seq<char> {
    seq![' '] + line
}

/// The attributed author of one line: the text after the last
/// case-insensitive " by " marker, up to the first stop character, trimmed;
/// nothing when the marker never occurs.
pub open spec fn author_of(line: Seq<char>) -> Option<Seq<char>> {
    let s = padded(line);
    match last_by_before(s, s.len() as int) {
        None => None,
        Some(i) => Some(trim_spaces(s.subrange(i + 4, first_delim_from(s, i + 4)))),
    }
}

/// Whether the character ends an attributed name.
pub fn is_delimiter(c: char) -> (r: bool)
    ensures
        r == is_delimiter_spec(c),
{
    c == '(' || c == '[' || c == ',' || c == '-'
}

/// Positions from `i` up to `n` hold no marker, so the scan below `n` and
/// the scan below `i` agree.
proof fn lemma_last_by_extend(s: Seq<char>, i: int, n: int)
    requires
        0 <= i <= n,
        forall|m: int| i <= m < n ==> !by_at(s, m),
    ensures
        last_by_before(s, n) == last_by_before(s, i),
    decreases n - i,
{
    if i < n {
        lemma_last_by_extend(s, i, n - 1);
    }
}

/// A stretch without stop characters, ended by one or by the end of the
/// line, locates the first stop position.
proof fn lemma_first_delim(s: Seq<char>, start: int, j: int)
    requires
        0 <= start <= j <= s.len(),
        forall|m: int| start <= m < j ==> !is_delimiter_spec(#[trigger] s[m]),
        j < s.len() ==> is_delimiter_spec(s[j]),
    ensures
        first_delim_from(s, start) == j,
    decreases j - start,
{
    if start < j {
        lemma_first_delim(s, start + 1, j);
    }
}

/// The author named on the line, or nothing when no " by " marker (in either
/// case) occurs on it.
pub fn get_author(line: &str) -> (r: Option<String>)
    ensures
        (r is Some) == (author_of(line@) is Some),
        r is Some ==> r.unwrap()@ == author_of(line@).unwrap(),
{
    let chars = chars_of(line);
    let mut s: Vec<char> = Vec::new();
    s.push(' ');
    let mut k: usize = 0;
    while k < chars.len()
        invariant
            k <= chars.len(),
            chars@ == line@,
            s@ == seq![' '] + chars@.take(k as int),
        decreases chars.len() - k,
    {
        s.push(chars[k]);
        k = k + 1;
        assert(seq![' '] + chars@.take(k as int) =~= (seq![' '] + chars@.take(k - 1)).push(
            chars@[k - 1],
        ));
    }
    proof {
        assert(chars@.take(chars@.len() as int) =~= chars@);
        assert(s@ == padded(line@));
    }
    let n: usize = s.len();
    let mut best: Option<usize> = None;
    let mut i: usize = 0;
    if n >= 4 {
        while i <= n - 4
            invariant
                n == s@.len(),
                4 <= n,
                i <= n - 3,
                match best {
                    None => last_by_before(s@, i as int) is None,
                    Some(b) => b + 4 <= n && last_by_before(s@, i as int) == Some(b as int),
                },
            decreases n - i,
        {
            let hit = s[i] == ' ' && (s[i + 1] == 'b' || s[i + 1] == 'B') && (s[i + 2] == 'y' || s[i
                + 2] == 'Y') && s[i + 3] == ' ';
            proof {
                assert(hit == by_at(s@, i as int));
            }
            if hit {
                best = Some(i);
            }
            i = i + 1;
        }
    }
    proof {
        lemma_last_by_extend(s@, i as int, n as int);
    }
    match best {
        None => None,
        Some(b) => {
            let start: usize = b + 4;
            let mut j: usize = start;
            while j < n && !is_delimiter(s[j])
                invariant
                    n == s@.len(),
                    start <= j <= n,
                    forall|m: int| start <= m < j ==> !is_delimiter_spec(#[trigger] s@[m]),
                decreases n - j,
            {
                j = j + 1;
            }
            proof {
                lemma_first_delim(s@, start as int, j as int);
            }
            let span = subvec(&s, start, j);
            let trimmed = trim_chars(&span);
            Some(string_of(&trimmed))
        },
    }
}

} // verus!
