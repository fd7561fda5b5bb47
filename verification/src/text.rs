//! Character-level building blocks shared by the normalizer and the
//! extractors: classification of ASCII control characters, space collapsing,
//! trimming, and small executable helpers over `Vec<char>`.
use vstd::prelude::*;

verus! {

/// The ASCII control characters: code points below 0x20, and 0x7f.
pub open spec fn is_ctrl(c: char) -> bool {
    (c as u32) < 0x20 || (c as u32) == 0x7f
}

/// A control character becomes a single space; every other character stands.
pub open spec fn ctrl_to_space(c: char) -> char {
    if is_ctrl(c) {
        ' '
    } else {
        c
    }
}

/// Every run of two or more spaces collapsed to a single space.
pub open spec fn collapse_spaces(s: Seq<char>) -> Seq<char>
    decreases s.len(),
{
    if s.len() == 0 {
        s
    } else if s.len() >= 2 && s[0] == ' ' && s[1] == ' ' {
        collapse_spaces(s.drop_first())
    } else {
        seq![s[0]] + collapse_spaces(s.drop_first())
    }
}

/// The sequence without its leading spaces.
pub open spec fn trim_left(s: Seq<char>) -> Seq<char>
    decreases s.len(),
{
    if s.len() > 0 && s[0] == ' ' {
        trim_left(s.drop_first())
    } else {
        s
    }
}

/// The sequence without its trailing spaces.
pub open spec fn trim_right(s: Seq<char>) -> Seq<char>
    decreases s.len(),
{
    if s.len() > 0 && s.last() == ' ' {
        trim_right(s.drop_last())
    } else {
        s
    }
}

/// The sequence without its leading and trailing spaces.
pub open spec fn trim_spaces(s: Seq<char>) -> Seq<char> {
    trim_right(trim_left(s))
}

/// No two adjacent characters are both spaces.
pub open spec fn no_adjacent_spaces(s: Seq<char>) -> bool {
    forall|j: int| 0 < j < s.len() ==> !(s[j - 1] == ' ' && #[trigger] s[j] == ' ')
}

/// Appending a character to the input either extends the collapsed sequence
/// by that character, or is swallowed when it repeats a trailing space.
pub proof fn lemma_collapse_push(s: Seq<char>, c: char)
    ensures
        collapse_spaces(s.push(c)) == if s.len() > 0 && s.last() == ' ' && c == ' ' {
            collapse_spaces(s)
        } else {
            collapse_spaces(s).push(c)
        },
    decreases s.len(),
{
    let t = s.push(c);
    if s.len() == 0 {
        assert(t =~= seq![c]);
        assert(t.drop_first() =~= Seq::<char>::empty());
        assert(collapse_spaces(Seq::<char>::empty()) =~= Seq::<char>::empty());
        assert(collapse_spaces(t) =~= seq![c]);
        assert(collapse_spaces(s).push(c) =~= seq![c]);
    } else {
        assert(t.drop_first() =~= s.drop_first().push(c));
        lemma_collapse_push(s.drop_first(), c);
        if s.len() >= 2 && s[0] == ' ' && s[1] == ' ' {
            assert(s.drop_first().last() == s.last());
        } else if s.len() == 1 {
            if s[0] == ' ' && c == ' ' {
                assert(collapse_spaces(t) == collapse_spaces(t.drop_first()));
                assert(t.drop_first() =~= seq![c]);
                assert(collapse_spaces(seq![c]) =~= seq![c]);
                assert(collapse_spaces(s) =~= seq![s[0]]);
            } else {
                assert(collapse_spaces(t) =~= seq![s[0]] + collapse_spaces(t.drop_first()));
                assert(collapse_spaces(t) =~= collapse_spaces(s).push(c));
            }
        } else {
            assert(s.drop_first().len() > 0);
            assert(s.drop_first().last() == s.last());
            assert(collapse_spaces(t) == seq![s[0]] + collapse_spaces(t.drop_first()));
            if s.last() == ' ' && c == ' ' {
                assert(collapse_spaces(t) == collapse_spaces(s));
            } else {
                assert(seq![s[0]] + collapse_spaces(s.drop_first()).push(c) =~= (seq![s[0]]
                    + collapse_spaces(s.drop_first())).push(c));
            }
        }
    }
}

/// Appending a character to the input extends the left-trimmed sequence by
/// that character, except that a space appended to all-spaces stays trimmed.
pub proof fn lemma_trim_left_push(s: Seq<char>, c: char)
    ensures
        trim_left(s.push(c)) == if trim_left(s).len() == 0 {
            if c == ' ' {
                Seq::<char>::empty()
            } else {
                seq![c]
            }
        } else {
            trim_left(s).push(c)
        },
    decreases s.len(),
{
    let t = s.push(c);
    if s.len() == 0 {
        assert(t =~= seq![c]);
        assert(t.drop_first() =~= Seq::<char>::empty());
        assert(trim_left(Seq::<char>::empty()) =~= Seq::<char>::empty());
        if c == ' ' {
            assert(trim_left(t) == trim_left(t.drop_first()));
        } else {
            assert(trim_left(t) == t);
        }
    } else {
        assert(t[0] == s[0]);
        assert(t.drop_first() =~= s.drop_first().push(c));
        lemma_trim_left_push(s.drop_first(), c);
        if s[0] == ' ' {
            assert(trim_left(t) == trim_left(t.drop_first()));
            assert(trim_left(s) == trim_left(s.drop_first()));
        } else {
            assert(trim_left(t) == t);
            assert(trim_left(s) == s);
            assert(trim_left(s).len() > 0);
        }
    }
}

/// Collapsing keeps a non-empty sequence non-empty and keeps its first and
/// last characters.
pub proof fn lemma_collapse_ends(s: Seq<char>)
    ensures
        s.len() > 0 ==> collapse_spaces(s).len() > 0 && collapse_spaces(s)[0] == s[0]
            && collapse_spaces(s).last() == s.last(),
    decreases s.len(),
{
    if s.len() == 0 {
    } else if s.len() == 1 {
        assert(collapse_spaces(s) =~= seq![s[0]] + collapse_spaces(s.drop_first()));
        assert(collapse_spaces(s.drop_first()) =~= Seq::<char>::empty());
        assert(collapse_spaces(s) =~= seq![s[0]]);
    } else {
        lemma_collapse_ends(s.drop_first());
        assert(s.drop_first().last() == s.last());
        assert(s.drop_first()[0] == s[1]);
    }
}

/// The collapsed sequence has no two adjacent spaces.
pub proof fn lemma_collapse_no_adjacent(s: Seq<char>)
    ensures
        no_adjacent_spaces(collapse_spaces(s)),
    decreases s.len(),
{
    if s.len() == 0 {
    } else if s.len() >= 2 && s[0] == ' ' && s[1] == ' ' {
        lemma_collapse_no_adjacent(s.drop_first());
    } else {
        lemma_collapse_no_adjacent(s.drop_first());
        lemma_collapse_ends(s.drop_first());
        let cd = collapse_spaces(s.drop_first());
        let r = seq![s[0]] + cd;
        assert forall|j: int| 0 < j < r.len() implies !(r[j - 1] == ' ' && #[trigger] r[j]
            == ' ') by {
            if j == 1 {
                assert(s.len() >= 2 ==> cd[0] == s[1]);
            } else {
                assert(r[j - 1] == cd[j - 2] && r[j] == cd[j - 1]);
            }
        }
    }
}

/// On a sequence that already has no two adjacent spaces, collapsing changes
/// nothing.
pub proof fn lemma_collapse_identity(s: Seq<char>)
    requires
        no_adjacent_spaces(s),
    ensures
        collapse_spaces(s) == s,
    decreases s.len(),
{
    if s.len() == 0 {
    } else {
        assert(!(s.len() >= 2 && s[0] == ' ' && s[1] == ' '));
        assert(no_adjacent_spaces(s.drop_first())) by {
            assert(forall|j: int|
                0 < j < s.drop_first().len() ==> #[trigger] s.drop_first()[j] == s[j + 1]
                    && s.drop_first()[j - 1] == s[j]);
        }
        lemma_collapse_identity(s.drop_first());
        assert(seq![s[0]] + s.drop_first() =~= s);
    }
}

/// Dropping the final space right-trims a sequence without adjacent spaces.
pub proof fn lemma_trim_right_drop(s: Seq<char>)
    requires
        no_adjacent_spaces(s),
        s.len() > 0,
        s.last() == ' ',
    ensures
        trim_right(s) == s.drop_last(),
{
    assert(trim_right(s) == trim_right(s.drop_last()));
    if s.len() == 1 {
        assert(s.drop_last() =~= Seq::<char>::empty());
        assert(trim_right(Seq::<char>::empty()) =~= Seq::<char>::empty());
    } else {
        assert(s.last() == s[s.len() - 1]);
        assert(!(s[s.len() - 2] == ' ' && s[s.len() - 1] == ' '));
        assert(s.drop_last().last() == s[s.len() - 2]);
        assert(trim_right(s.drop_last()) == s.drop_last());
    }
}

/// The left-trimmed sequence is the suffix of the input past its leading
/// spaces.
pub proof fn lemma_trim_left_is_suffix(s: Seq<char>)
    ensures
        trim_left(s).len() <= s.len(),
        trim_left(s) == s.skip(s.len() - trim_left(s).len()),
        forall|m: int| 0 <= m < s.len() - trim_left(s).len() ==> #[trigger] s[m] == ' ',
        trim_left(s).len() > 0 ==> trim_left(s)[0] != ' ',
    decreases s.len(),
{
    if s.len() > 0 && s[0] == ' ' {
        lemma_trim_left_is_suffix(s.drop_first());
        assert(s.drop_first().skip(s.drop_first().len() - trim_left(s.drop_first()).len()) =~= s.skip(
            s.len() - trim_left(s).len(),
        ));
        assert forall|m: int| 0 <= m < s.len() - trim_left(s).len() implies #[trigger] s[m]
            == ' ' by {
            if m > 0 {
                assert(s.drop_first()[m - 1] == s[m]);
            }
        }
    } else {
        assert(s.skip(0) =~= s);
    }
}

/// The right-trimmed sequence is the prefix of the input before its trailing
/// spaces.
pub proof fn lemma_trim_right_is_prefix(s: Seq<char>)
    ensures
        trim_right(s).len() <= s.len(),
        trim_right(s) == s.take(trim_right(s).len() as int),
        forall|m: int| trim_right(s).len() <= m < s.len() ==> #[trigger] s[m] == ' ',
        trim_right(s).len() > 0 ==> trim_right(s).last() != ' ',
    decreases s.len(),
{
    if s.len() > 0 && s.last() == ' ' {
        lemma_trim_right_is_prefix(s.drop_last());
        assert(s.drop_last().take(trim_right(s).len() as int) =~= s.take(
            trim_right(s).len() as int,
        ));
        assert forall|m: int| trim_right(s).len() <= m < s.len() implies #[trigger] s[m]
            == ' ' by {
            if m < s.len() - 1 {
                assert(s.drop_last()[m] == s[m]);
            } else {
                assert(s[m] == s.last());
            }
        }
    } else {
        assert(s.take(s.len() as int) =~= s);
    }
}

/// A property that holds of every character also holds of every character of
/// the collapsed sequence.
pub proof fn lemma_collapse_preserves(s: Seq<char>, p: spec_fn(char) -> bool)
    requires
        forall|i: int| 0 <= i < s.len() ==> p(#[trigger] s[i]),
    ensures
        forall|j: int| 0 <= j < collapse_spaces(s).len() ==> p(#[trigger] collapse_spaces(s)[j]),
    decreases s.len(),
{
    if s.len() == 0 {
    } else {
        assert(forall|i: int| 0 <= i < s.drop_first().len() ==> p(#[trigger] s.drop_first()[i]));
        lemma_collapse_preserves(s.drop_first(), p);
        if s.len() >= 2 && s[0] == ' ' && s[1] == ' ' {
        } else {
            let r = seq![s[0]] + collapse_spaces(s.drop_first());
            assert forall|j: int| 0 <= j < r.len() implies p(#[trigger] r[j]) by {
                if j > 0 {
                    assert(r[j] == collapse_spaces(s.drop_first())[j - 1]);
                }
            }
        }
    }
}

/// Relies on `String::push`: it appends the given character to the end of
/// the string.
#[verifier::external_body]
fn push_char(s: &mut String, c: char)
    ensures
        final(s)@ == old(s)@.push(c),
{
    s.push(c);
}

/// The characters of a string slice, in order, as a vector.
pub(crate) fn chars_of(s: &str) -> (r: Vec<char>)
    ensures
        r@ == s@,
{
    let n: usize = s.unicode_len();
    let mut r: Vec<char> = Vec::new();
    let mut i: usize = 0;
    while i < n
        invariant
            n == s@.len(),
            i <= n,
            r@ == s@.take(i as int),
        decreases n - i,
    {
        r.push(s.get_char(i));
        i = i + 1;
        assert(s@.take(i as int) =~= s@.take(i - 1).push(s@[i - 1]));
    }
    assert(s@.take(n as int) =~= s@);
    r
}

/// A string holding exactly the given characters, in order.
pub(crate) fn string_of(v: &Vec<char>) -> (r: String)
    ensures
        r@ == v@,
{
    let mut r = String::new();
    let mut i: usize = 0;
    while i < v.len()
        invariant
            i <= v.len(),
            r@ == v@.take(i as int),
        decreases v.len() - i,
    {
        push_char(&mut r, v[i]);
        i = i + 1;
        assert(v@.take(i as int) =~= v@.take(i - 1).push(v@[i - 1]));
    }
    assert(v@.take(v.len() as int) =~= v@);
    r
}

/// The characters of `v` from `from` (inclusive) to `to` (exclusive).
pub(crate) fn subvec(v: &Vec<char>, from: usize, to: usize) -> (r: Vec<char>)
    requires
        from <= to <= v.len(),
    ensures
        r@ == v@.subrange(from as int, to as int),
{
    let mut r: Vec<char> = Vec::new();
    let mut i: usize = from;
    while i < to
        invariant
            from <= i <= to <= v.len(),
            r@ == v@.subrange(from as int, i as int),
        decreases to - i,
    {
        r.push(v[i]);
        i = i + 1;
        assert(v@.subrange(from as int, i as int) =~= v@.subrange(from as int, i - 1).push(
            v@[i - 1],
        ));
    }
    r
}

/// The characters without their leading and trailing spaces.
pub(crate) fn trim_chars(v: &Vec<char>) -> (r: Vec<char>)
    ensures
        r@ == trim_spaces(v@),
{
    let n: usize = v.len();
    let mut a: usize = 0;
    while a < n && v[a] == ' '
        invariant
            a <= n == v.len(),
            forall|m: int| 0 <= m < a ==> #[trigger] v@[m] == ' ',
        decreases n - a,
    {
        a = a + 1;
    }
    let mut b: usize = n;
    while b > a && v[b - 1] == ' '
        invariant
            a <= b <= n == v.len(),
            forall|m: int| b <= m < n ==> #[trigger] v@[m] == ' ',
        decreases b,
    {
        b = b - 1;
    }
    proof {
        lemma_trim_left_skip(v@, a as int);
        let t = v@.skip(a as int);
        lemma_trim_right_take(t, b - a);
        assert(t.take(b - a) =~= v@.subrange(a as int, b as int));
    }
    subvec(v, a, b)
}

/// Left-trimming removes exactly the leading spaces.
pub proof fn lemma_trim_left_skip(s: Seq<char>, a: int)
    requires
        0 <= a <= s.len(),
        forall|m: int| 0 <= m < a ==> #[trigger] s[m] == ' ',
        a < s.len() ==> s[a] != ' ',
    ensures
        trim_left(s) == s.skip(a),
    decreases a,
{
    if a == 0 {
        assert(s.skip(0) =~= s);
    } else {
        assert(s[0] == ' ');
        lemma_trim_left_skip(s.drop_first(), a - 1);
        assert(s.drop_first().skip(a - 1) =~= s.skip(a));
    }
}

/// Right-trimming removes exactly the trailing spaces.
pub proof fn lemma_trim_right_take(s: Seq<char>, b: int)
    requires
        0 <= b <= s.len(),
        forall|m: int| b <= m < s.len() ==> #[trigger] s[m] == ' ',
        b > 0 ==> s[b - 1] != ' ',
    ensures
        trim_right(s) == s.take(b),
    decreases s.len() - b,
{
    if b == s.len() {
        assert(s.take(b) =~= s);
        if s.len() > 0 {
            assert(s.last() != ' ');
        }
    } else {
        assert(s.last() == s[s.len() - 1]);
        assert(s.last() == ' ');
        lemma_trim_right_take(s.drop_last(), b);
        assert(s.drop_last().take(b) =~= s.take(b));
    }
}

} // verus!
